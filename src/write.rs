//! The sending half of a connection: messages encoded into frames, queued,
//! and written out in order, resuming partial writes.
use vstd::prelude::*;

use bytes::Bytes;
use serde::de::DeserializeOwned;
use serde::Serialize;
use std::marker::PhantomData;
use tokio::net::tcp::OwnedWriteHalf;

use crate::buffer::bytes_view;
use crate::frame::frame_bytes;
use crate::header::IsHeader;
use crate::msg::MessageWrapper;
use crate::queue::{acceptable, advance_view, FrameQueue, WriteError};

verus! {

#[verifier::external_type_specification]
#[verifier::external_body]
pub struct ExOwnedWriteHalf(OwnedWriteHalf);

/// A message could not be encoded.
#[derive(Debug)]
pub struct SeriError(pub bincode::Error);

/// The write half `S` of a connection (by default tokio's TCP write half),
/// with the frames waiting to be written.
#[derive(Debug)]
pub struct Writer<H, M, O, S = OwnedWriteHalf> {
    socket: S,
    send_buffers: FrameQueue,
    serialization_options: O,
    _compiler_trickery: PhantomData<(H, M)>,
}

impl<H: IsHeader, M: Serialize + DeserializeOwned, O: bincode::Options + Clone, S> Writer<
    H,
    M,
    O,
    S,
> {
    /// The unwritten bytes of each waiting frame, front first.
    pub closed spec fn pending(&self) -> Seq<Seq<u8>> {
        self.send_buffers.view()
    }

    /// A writer on `socket` that encodes messages with `seri_opt`.
    pub fn new(socket: S, seri_opt: O) -> (r: Self)
        ensures
            r.pending() == Seq::<Seq<u8>>::empty(),
    {
        Writer {
            socket,
            send_buffers: FrameQueue::new(),
            serialization_options: seri_opt,
            _compiler_trickery: PhantomData,
        }
    }

    /// Encodes `message` into one frame and puts it at the back of the
    /// queue; when encoding fails the queue stays as it was.
    pub fn queue(&mut self, message: &MessageWrapper<M, H>) -> (r: Result<(), SeriError>)
        ensures
            r is Ok ==> exists|p: Seq<u8>| #[trigger]
                frame_bytes::<H>(p) == final(self).pending().last() && final(self).pending()
                    == old(self).pending().push(frame_bytes::<H>(p)),
            r is Err ==> final(self).pending() == old(self).pending(),
    {
        match message.serialize(self.serialization_options.clone()) {
            Ok(frame) => {
                self.send_buffers.push(frame);
                Ok(())
            },
            Err(e) => Err(SeriError(e)),
        }
    }

    /// The unwritten bytes of the front frame, which the next write offers.
    pub fn front(&self) -> (r: Option<&Bytes>)
        ensures
            match r {
                None => self.pending().len() == 0,
                Some(b) => self.pending().len() > 0 && bytes_view(*b) == self.pending()[0],
            },
    {
        self.send_buffers.front()
    }

    /// Records that the socket accepted `n` bytes of the front frame; see
    /// [`FrameQueue::advance`].
    pub fn advance(&mut self, n: usize) -> (r: Result<(), WriteError>)
        requires
            acceptable(old(self).pending(), n as nat),
        ensures
            match advance_view(old(self).pending(), n as nat) {
                Some(q) => r is Ok && final(self).pending() == q,
                None => r matches Err(WriteError::Disconnected) && final(self).pending() == old(self).pending(),
            },
    {
        self.send_buffers.advance(n)
    }

    pub fn as_socket(&self) -> &S {
        &self.socket
    }

    pub fn as_socket_mut(&mut self) -> (r: &mut S)
        ensures
            final(self).pending() == old(self).pending(),
    {
        &mut self.socket
    }

    pub fn into_socket(self) -> S {
        self.socket
    }
}

} // verus!
