//! The outgoing side: encoded frames wait in order and leave the queue only
//! once every byte has been handed to the transport.
use vstd::prelude::*;

use bytes::Bytes;
use std::collections::VecDeque;

use crate::buffer::{advance_bytes, bytes_view};

verus! {

#[verifier::external_type_specification]
#[verifier::external_body]
pub struct ExIoError(std::io::Error);

/// Why a write failed.
#[derive(Debug)]
pub enum WriteError {
    /// The transport failed.
    IOError(std::io::Error),
    /// The transport accepted no byte while some were left: the peer closed.
    Disconnected,
}

/// The queue after the transport accepted `n` bytes of the front frame;
/// `None` when it accepted none while some were left.
pub open spec fn advance_view(q: Seq<Seq<u8>>, n: nat) -> Option<Seq<Seq<u8>>> {
    if q.len() == 0 {
        Some(q)
    } else if n == 0 && q[0].len() > 0 {
        None
    } else if n >= q[0].len() {
        Some(q.drop_first())
    } else {
        Some(q.update(0, q[0].subrange(n as int, q[0].len() as int)))
    }
}

/// The bytes that the transport took when it accepted `n` bytes.
pub open spec fn sent_bytes(q: Seq<Seq<u8>>, n: nat) -> Seq<u8> {
    if q.len() == 0 {
        Seq::empty()
    } else {
        q[0].subrange(0, n as int)
    }
}

/// A write can be accepted: the transport never takes more than it was offered.
pub open spec fn acceptable(q: Seq<Seq<u8>>, n: nat) -> bool {
    q.len() == 0 || n <= q[0].len()
}

/// Frames waiting to be written, front first; the front one may already be
/// partly written, and holds only its unwritten bytes.
#[derive(Debug)]
pub struct FrameQueue {
    frames: VecDeque<Bytes>,
}

impl FrameQueue {
    /// The unwritten bytes of each waiting frame, front first.
    pub closed spec fn view(&self) -> Seq<Seq<u8>> {
        self.frames@.map_values(|b: Bytes| bytes_view(b))
    }

    /// An empty queue.
    pub fn new() -> (r: Self)
        ensures
            r.view() == Seq::<Seq<u8>>::empty(),
    {
        let r = FrameQueue { frames: VecDeque::new() };
        assert(r.view() =~= Seq::<Seq<u8>>::empty());
        r
    }

    /// Puts an encoded frame at the back.
    pub fn push(&mut self, frame: Bytes)
        ensures
            final(self).view() == old(self).view().push(bytes_view(frame)),
    {
        self.frames.push_back(frame);
        assert(self.view() =~= old(self).view().push(bytes_view(frame)));
    }

    /// The number of frames waiting.
    pub fn len(&self) -> (r: usize)
        ensures
            r as int == self.view().len(),
    {
        self.frames.len()
    }

    /// True when no frame waits.
    pub fn is_empty(&self) -> (r: bool)
        ensures
            r == (self.view().len() == 0),
    {
        self.frames.len() == 0
    }

    /// The unwritten bytes of the front frame, which the next write offers.
    pub fn front(&self) -> (r: Option<&Bytes>)
        ensures
            match r {
                None => self.view().len() == 0,
                Some(b) => self.view().len() > 0 && bytes_view(*b) == self.view()[0],
            },
    {
        if self.frames.len() == 0 {
            None
        } else {
            Some(&self.frames[0])
        }
    }

    /// Records that the transport accepted `n` bytes of the front frame: the
    /// frame leaves the queue once all its bytes are written. An empty queue
    /// stays as it is. No byte accepted while some are left means the peer
    /// closed: that is `Disconnected`, and the queue stays as it is.
    pub fn advance(&mut self, n: usize) -> (r: Result<(), WriteError>)
        requires
            acceptable(old(self).view(), n as nat),
        ensures
            match advance_view(old(self).view(), n as nat) {
                Some(q) => r is Ok && final(self).view() == q,
                None => r matches Err(WriteError::Disconnected) && final(self).view() == old(
                    self,
                ).view(),
            },
    {
        if self.frames.len() == 0 {
            return Ok(());
        }
        let remaining = self.frames[0].len();
        if n == 0 && remaining > 0 {
            return Err(WriteError::Disconnected);
        }
        if n >= remaining {
            let _ = self.frames.pop_front();
            assert(self.view() =~= old(self).view().drop_first());
        } else {
            let mut front = self.frames.pop_front().unwrap();
            advance_bytes(&mut front, n);
            self.frames.push_front(front);
            assert(self.view() =~= old(self).view().update(
                0,
                old(self).view()[0].subrange(n as int, old(self).view()[0].len() as int),
            ));
        }
        Ok(())
    }
}

/// Applies accepted byte counts in turn: the queue it ends in and the bytes
/// the transport took, in order; `None` when one of the writes reported a
/// closed peer.
pub open spec fn run_writes(q: Seq<Seq<u8>>, counts: Seq<nat>) -> Option<(Seq<Seq<u8>>, Seq<u8>)>
    decreases counts.len(),
{
    if counts.len() == 0 {
        Some((q, Seq::empty()))
    } else {
        match advance_view(q, counts[0]) {
            None => None,
            Some(q1) => match run_writes(q1, counts.drop_first()) {
                None => None,
                Some((q2, sent)) => Some((q2, sent_bytes(q, counts[0]) + sent)),
            },
        }
    }
}

/// Every write offers only what is left of the front frame.
pub open spec fn writes_acceptable(q: Seq<Seq<u8>>, counts: Seq<nat>) -> bool
    decreases counts.len(),
{
    counts.len() == 0 || (acceptable(q, counts[0]) && match advance_view(q, counts[0]) {
        None => true,
        Some(q1) => writes_acceptable(q1, counts.drop_first()),
    })
}

/// One write takes a prefix of the queued bytes and leaves the rest queued.
pub proof fn lemma_advance_keeps_bytes(q: Seq<Seq<u8>>, n: nat)
    requires
        acceptable(q, n),
        advance_view(q, n) is Some,
    ensures
        sent_bytes(q, n) + advance_view(q, n)->Some_0.flatten() == q.flatten(),
{
    if q.len() > 0 {
        let f = q[0];
        let rest = q.drop_first();
        assert(q.flatten() == f + rest.flatten());
        if n >= f.len() {
            assert(f.subrange(0, n as int) =~= f);
        } else {
            let q1 = q.update(0, f.subrange(n as int, f.len() as int));
            assert(q1.drop_first() =~= rest);
            assert(q1.flatten() == q1[0] + q1.drop_first().flatten());
            assert(f.subrange(0, n as int) + (f.subrange(n as int, f.len() as int)
                + rest.flatten()) =~= f + rest.flatten());
        }
    } else {
        assert(Seq::<u8>::empty() + q.flatten() =~= q.flatten());
    }
}

/// Write resumption: over any run of writes, partial or whole, the bytes
/// the transport took followed by the bytes still queued are exactly the
/// queued frames' bytes, in order: no byte is written twice, skipped, or
/// taken out of order.
pub proof fn lemma_write_resumption(q: Seq<Seq<u8>>, counts: Seq<nat>)
    requires
        writes_acceptable(q, counts),
        run_writes(q, counts) is Some,
    ensures
        ({
            let (rest, sent) = run_writes(q, counts)->Some_0;
            sent + rest.flatten() == q.flatten()
        }),
    decreases counts.len(),
{
    if counts.len() == 0 {
        assert(Seq::<u8>::empty() + q.flatten() =~= q.flatten());
    } else {
        let q1 = advance_view(q, counts[0])->Some_0;
        lemma_advance_keeps_bytes(q, counts[0]);
        lemma_write_resumption(q1, counts.drop_first());
        let (rest, sent) = run_writes(q1, counts.drop_first())->Some_0;
        assert(sent_bytes(q, counts[0]) + sent + rest.flatten() =~= sent_bytes(q, counts[0]) + (
        sent + rest.flatten()));
    }
}

/// Frames are written in the order they were queued: queueing a frame puts
/// its bytes after every byte already queued.
pub proof fn lemma_queue_order(q: Seq<Seq<u8>>, frame: Seq<u8>)
    ensures
        q.push(frame).flatten() == q.flatten() + frame,
    decreases q.len(),
{
    if q.len() == 0 {
        let qf = q.push(frame);
        assert(qf.drop_first() =~= Seq::<Seq<u8>>::empty());
        assert(qf.drop_first().flatten() == Seq::<u8>::empty());
        assert(qf.first() == frame);
        assert(qf.flatten() == frame + Seq::<u8>::empty());
        assert(frame + Seq::<u8>::empty() =~= frame);
        assert(Seq::<u8>::empty() + frame =~= frame);
    } else {
        lemma_queue_order(q.drop_first(), frame);
        assert(q.push(frame).drop_first() =~= q.drop_first().push(frame));
        assert(q[0] + (q.drop_first().flatten() + frame) =~= q[0] + q.drop_first().flatten()
            + frame);
    }
}

} // verus!
