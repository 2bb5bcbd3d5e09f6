//! The receiving half of a connection: frames cut from the stream, decoded
//! into messages, queued in arrival order.
use vstd::prelude::*;

use serde::de::DeserializeOwned;
use serde::Serialize;
use tokio::net::tcp::OwnedReadHalf;

use crate::frame::{update_view, FrameReader, FrameView, Phase, Progress, ReadStatus, receive_view};
use crate::header::IsHeader;
use crate::msg::MessageWrapper;

verus! {

#[verifier::external_type_specification]
#[verifier::external_body]
pub struct ExOwnedReadHalf(OwnedReadHalf);

/// Why an update of a reader failed.
#[derive(Debug)]
pub enum UpdateError<H: IsHeader> {
    /// The header bytes were rejected by the header format.
    HeaderParser(H::Error),
    /// The payload bytes did not decode into a message.
    MessageDeseri(bincode::Error),
}

/// The read half `S` of a connection (by default tokio's TCP read half),
/// with its frame reader and the messages decoded so far.
#[derive(Debug)]
pub struct Reader<H: IsHeader, M, O, S = OwnedReadHalf> {
    socket: S,
    frames: FrameReader<H>,
    ready_messages: Vec<MessageWrapper<M, H>>,
    serialization_settings: O,
}

impl<H: IsHeader, M: Serialize + DeserializeOwned, O: bincode::Options + Clone, S> Reader<
    H,
    M,
    O,
    S,
> {
    /// Where the frame reader stands in the stream.
    pub closed spec fn stream(&self) -> FrameView {
        self.frames.view()
    }

    /// The decoded messages not taken yet, oldest first.
    pub closed spec fn ready(&self) -> Seq<MessageWrapper<M, H>> {
        self.ready_messages@
    }

    /// A reader on `socket` that decodes payloads with `seri_settings`.
    pub fn new(socket: S, seri_settings: O) -> (r: Self)
        ensures
            r.stream() == (FrameView { phase: Phase::Idle, buffer: Seq::empty() }),
            r.ready() == Seq::<MessageWrapper<M, H>>::empty(),
    {
        Reader {
            socket,
            frames: FrameReader::new(),
            ready_messages: Vec::new(),
            serialization_settings: seri_settings,
        }
    }

    /// Keeps the bytes that one read of the socket delivered; see
    /// [`FrameReader::receive`].
    pub fn receive(&mut self, data: &[u8]) -> (r: ReadStatus)
        ensures
            final(self).stream() == receive_view(old(self).stream(), data@),
            final(self).ready() == old(self).ready(),
            r == (if data@.len() > 0 {
                ReadStatus::Received
            } else if old(self).stream().buffer.len() > 0 || old(self).stream().phase is Body {
                ReadStatus::ClosedMidFrame
            } else {
                ReadStatus::Closed
            }),
    {
        self.frames.receive(data)
    }

    /// Advances the frame reader without reading from the socket, and decodes
    /// the payload it completes, if any, handing the outcome to
    /// [`Self::push_decoded`]. Returns whether a new message was queued. A
    /// rejected header changes nothing and is reported again by every later
    /// call; an undecodable payload leaves the reader failed. Either way
    /// `clear_state` is the way back.
    pub fn update(&mut self) -> (r: Result<bool, UpdateError<H>>)
        ensures
            ({
                let (v1, out) = update_view::<H>(old(self).stream());
                let same = final(self).ready() == old(self).ready();
                match out {
                    Progress::Waiting => (r is Ok && !r->Ok_0) && final(self).stream() == v1 && same,
                    Progress::Rejected => r is Err && r->Err_0 is HeaderParser && final(self).stream() == v1 && same,
                    Progress::Frame(_) => {
                        ||| (r is Ok && r->Ok_0) && final(self).stream() == v1
                            && final(self).ready() == old(self).ready().push(final(self).ready().last())
                        ||| r is Err && r->Err_0 is MessageDeseri && final(self).stream() == (
                        FrameView { phase: Phase::Failed, buffer: v1.buffer }) && same
                    },
                }
            }),
    {
        match self.frames.update() {
            Err(e) => Err(UpdateError::HeaderParser(e)),
            Ok(None) => Ok(false),
            Ok(Some(payload)) => {
                let decoded = MessageWrapper::<M, H>::from_bytes(
                    &payload,
                    self.serialization_settings.clone(),
                );
                self.push_decoded(decoded)
            },
        }
    }

    /// Takes the outcome of decoding a payload: a message is queued behind
    /// the others and `Ok(true)` returned; a decode error leaves the queue as
    /// it is, marks the stream failed and is returned as `MessageDeseri`.
    pub fn push_decoded(&mut self, decoded: Result<MessageWrapper<M, H>, bincode::Error>) -> (r:
        Result<bool, UpdateError<H>>)
        ensures
            match decoded {
                Ok(m) => (r is Ok && r->Ok_0) && final(self).ready() == old(self).ready().push(m)
                    && final(self).stream() == old(self).stream(),
                Err(_) => r is Err && r->Err_0 is MessageDeseri && final(self).ready() == old(self).ready()
                    && final(self).stream() == (FrameView {
                    phase: Phase::Failed,
                    buffer: old(self).stream().buffer,
                }),
            },
    {
        match decoded {
            Ok(message) => {
                self.ready_messages.push(message);
                Ok(true)
            },
            Err(e) => {
                self.frames.mark_failed();
                Err(UpdateError::MessageDeseri(e))
            },
        }
    }

    /// Takes every decoded message, oldest first.
    pub fn ready_messages(&mut self) -> (r: Vec<MessageWrapper<M, H>>)
        ensures
            r@ == old(self).ready(),
            final(self).ready() == Seq::<MessageWrapper<M, H>>::empty(),
            final(self).stream() == old(self).stream(),
    {
        let mut out = Vec::new();
        std::mem::swap(&mut out, &mut self.ready_messages);
        out
    }

    /// Takes the oldest decoded message, if there is one.
    pub fn latest_message(&mut self) -> (r: Option<MessageWrapper<M, H>>)
        ensures
            final(self).stream() == old(self).stream(),
            old(self).ready().len() == 0 ==> r is None && final(self).ready() == old(self).ready(),
            old(self).ready().len() > 0 ==> r == Some(old(self).ready()[0]) && final(self).ready()
                == old(self).ready().drop_first(),
    {
        if self.ready_messages.len() == 0 {
            None
        } else {
            let m = self.ready_messages.remove(0);
            assert(self.ready_messages@ =~= old(self).ready().drop_first());
            Some(m)
        }
    }

    /// Drops buffered bytes and queued messages and returns to the idle
    /// state: the way back after a decode error.
    pub fn clear_state(&mut self)
        ensures
            final(self).stream() == (FrameView { phase: Phase::Idle, buffer: Seq::empty() }),
            final(self).ready() == Seq::<MessageWrapper<M, H>>::empty(),
    {
        self.frames.clear_state();
        self.ready_messages.clear();
    }

    pub fn as_socket(&self) -> &S {
        &self.socket
    }

    pub fn as_socket_mut(&mut self) -> (r: &mut S)
        ensures
            final(self).stream() == old(self).stream(),
            final(self).ready() == old(self).ready(),
    {
        &mut self.socket
    }

    pub fn into_socket(self) -> S {
        self.socket
    }
}

} // verus!
