//! The incremental frame reader: bytes go in as the transport delivers them,
//! whole payloads come out.
use vstd::prelude::*;

use bytes::{Bytes, BytesMut};

use crate::buffer::{bytes_mut_slice, bytes_mut_view, bytes_view};
use crate::header::IsHeader;

verus! {

/// Where the reader stands in the stream, for the contracts.
pub enum Phase {
    /// Nothing was read yet.
    Idle,
    /// The next bytes are a header.
    Header,
    /// A header declaring this many payload bytes was read; the payload is next.
    Body(u64),
    /// A payload could not be decoded; only `clear_state` goes on from here.
    Failed,
}

/// The abstract state of a frame reader: its phase and the bytes it holds
/// that belong to no finished frame yet.
pub struct FrameView {
    pub phase: Phase,
    pub buffer: Seq<u8>,
}

/// What one call of `update` achieves.
pub enum Progress {
    /// No payload is complete yet.
    Waiting,
    /// These payload bytes form the next frame.
    Frame(Seq<u8>),
    /// The header bytes were rejected by the format.
    Rejected,
}

/// The view after the transport delivered `data`.
pub open spec fn receive_view(v: FrameView, data: Seq<u8>) -> FrameView {
    FrameView {
        phase: match v.phase {
            Phase::Idle => Phase::Header,
            p => p,
        },
        buffer: v.buffer + data,
    }
}

/// The same phase with `data` appended to the buffer.
pub open spec fn append_view(v: FrameView, data: Seq<u8>) -> FrameView {
    FrameView { phase: v.phase, buffer: v.buffer + data }
}

/// One transition out of a state whose threshold is met: read a valid
/// header, or cut off a payload. `None` when more bytes are needed, when the
/// header is rejected, or when nothing is to be done. The second component
/// is the payload cut off, if any.
pub open spec fn step<H: IsHeader>(v: FrameView) -> Option<(FrameView, Option<Seq<u8>>)> {
    let b = v.buffer;
    match v.phase {
        Phase::Header => {
            if b.len() >= H::width() {
                let rest = b.subrange(H::width() as int, b.len() as int);
                match H::parse(b.subrange(0, H::width() as int)) {
                    Some(n) => Some((FrameView { phase: Phase::Body(n), buffer: rest }, None)),
                    None => None,
                }
            } else {
                None
            }
        },
        Phase::Body(n) => {
            if b.len() >= n {
                Some(
                    (
                        FrameView {
                            phase: Phase::Header,
                            buffer: b.subrange(n as int, b.len() as int),
                        },
                        Some(b.subrange(0, n as int)),
                    ),
                )
            } else {
                None
            }
        },
        _ => None,
    }
}

/// What one call of `update` does: read a ready header, and go on to cut off
/// its payload when that is already there too; or cut off a ready payload.
/// A rejected header changes nothing: the state does not advance and its
/// bytes stay.
pub open spec fn update_view<H: IsHeader>(v: FrameView) -> (FrameView, Progress) {
    if header_rejected::<H>(v) {
        (v, Progress::Rejected)
    } else {
        match step::<H>(v) {
            None => (v, Progress::Waiting),
            Some((v1, Some(f))) => (v1, Progress::Frame(f)),
            Some((v1, None)) => match step::<H>(v1) {
                Some((v2, Some(f))) => (v2, Progress::Frame(f)),
                _ => (v1, Progress::Waiting),
            },
        }
    }
}

/// The reader waits on a header whose bytes are all there, and the format
/// rejects them.
pub open spec fn header_rejected<H: IsHeader>(v: FrameView) -> bool {
    &&& v.phase is Header
    &&& v.buffer.len() >= H::width()
    &&& H::parse(v.buffer.subrange(0, H::width() as int)) is None
}

/// A measure that every transition lowers.
pub open spec fn measure(v: FrameView) -> nat {
    3 * v.buffer.len() + match v.phase {
        Phase::Header => 1nat,
        Phase::Body(_) => 2nat,
        _ => 0nat,
    }
}

/// Calls `update` until it yields no payload: the view it ends in and the
/// payloads it yields, in order.
pub open spec fn drain<H: IsHeader>(v: FrameView) -> (FrameView, Seq<Seq<u8>>)
    decreases measure(v),
    via drain_decreases::<H>
{
    let (v1, out) = update_view::<H>(v);
    match out {
        Progress::Frame(f) => {
            let (v2, fs) = drain::<H>(v1);
            (v2, seq![f] + fs)
        },
        _ => (v1, Seq::empty()),
    }
}

#[via_fn]
proof fn drain_decreases<H: IsHeader>(v: FrameView) {
    H::lemma_round_trip(0);
}

/// Feeds `chunks` to the reader one transport read at a time, draining the
/// ready payloads after each: the view it ends in and every payload yielded,
/// in order.
pub open spec fn feed<H: IsHeader>(v: FrameView, chunks: Seq<Seq<u8>>) -> (
    FrameView,
    Seq<Seq<u8>>,
)
    decreases chunks.len(),
{
    if chunks.len() == 0 {
        (v, Seq::empty())
    } else {
        let (v1, f1) = drain::<H>(receive_view(v, chunks[0]));
        let (v2, f2) = feed::<H>(v1, chunks.drop_first());
        (v2, f1 + f2)
    }
}

/// The bytes of one frame that carries `payload`.
pub open spec fn frame_bytes<H: IsHeader>(payload: Seq<u8>) -> Seq<u8> {
    H::encoding(payload.len() as u64) + payload
}

/// The bytes of consecutive frames carrying `payloads`, in order.
pub open spec fn frames_bytes<H: IsHeader>(payloads: Seq<Seq<u8>>) -> Seq<u8>
    decreases payloads.len(),
{
    if payloads.len() == 0 {
        Seq::empty()
    } else {
        frame_bytes::<H>(payloads[0]) + frames_bytes::<H>(payloads.drop_first())
    }
}

/// The view of a reader between frames with nothing buffered.
pub open spec fn between_frames() -> FrameView {
    FrameView { phase: Phase::Header, buffer: Seq::empty() }
}

/// A delivery cut in two, with nothing in between, leaves the reader as the
/// whole delivery does: no byte is lost, repeated or reordered.
pub proof fn lemma_receive_split(v: FrameView, a: Seq<u8>, b: Seq<u8>)
    ensures
        receive_view(receive_view(v, a), b) == receive_view(v, a + b),
{
    assert(v.buffer + a + b =~= v.buffer + (a + b));
}

/// A transition that can be taken is taken the same way when more bytes
/// have arrived behind the buffer.
proof fn lemma_step_append<H: IsHeader>(v: FrameView, d: Seq<u8>)
    requires
        step::<H>(v) is Some,
    ensures
        step::<H>(append_view(v, d)) == Some(
            (append_view(step::<H>(v)->Some_0.0, d), step::<H>(v)->Some_0.1),
        ),
{
    let b = v.buffer;
    let bd = b + d;
    match v.phase {
        Phase::Header => {
            let w = H::width() as int;
            assert(bd.subrange(0, w) =~= b.subrange(0, w));
            assert(bd.subrange(w, bd.len() as int) =~= b.subrange(w, b.len() as int) + d);
        },
        Phase::Body(n) => {
            assert(bd.subrange(0, n as int) =~= b.subrange(0, n as int));
            assert(bd.subrange(n as int, bd.len() as int) =~= b.subrange(n as int, b.len() as int)
                + d);
        },
        _ => {},
    }
}

/// Bytes that arrive behind the buffer change nothing of what draining the
/// reader yields first: draining before and after they arrive yields the
/// same payloads, in the same order, and the same final view, as draining
/// once after.
pub proof fn lemma_drain_append<H: IsHeader>(v: FrameView, d: Seq<u8>)
    ensures
        ({
            let (w, fs) = drain::<H>(v);
            let (w2, gs) = drain::<H>(append_view(w, d));
            drain::<H>(append_view(v, d)) == (w2, fs + gs)
        }),
    decreases measure(v),
{
    H::lemma_round_trip(0);
    let vd = append_view(v, d);
    lemma_rejected_append::<H>(v, d);
    if header_rejected::<H>(v) {
        assert(drain::<H>(v) == (v, Seq::<Seq<u8>>::empty()));
        assert(drain::<H>(vd) == (vd, Seq::<Seq<u8>>::empty()));
        assert(Seq::<Seq<u8>>::empty() + Seq::<Seq<u8>>::empty() =~= Seq::<Seq<u8>>::empty());
    } else {
        match step::<H>(v) {
            None => {
                assert(drain::<H>(v) == (v, Seq::<Seq<u8>>::empty()));
                let (w2, gs) = drain::<H>(vd);
                assert(Seq::<Seq<u8>>::empty() + gs =~= gs);
            },
            Some((v1, o)) => {
                lemma_step_append::<H>(v, d);
                let v1d = append_view(v1, d);
                match o {
                    Some(f) => {
                        let (w, fs) = drain::<H>(v1);
                        lemma_drain_append::<H>(v1, d);
                        let (w2, gs) = drain::<H>(append_view(w, d));
                        assert(seq![f] + fs + gs =~= seq![f] + (fs + gs));
                    },
                    None => {
                        match step::<H>(v1) {
                            Some((v2, Some(f))) => {
                                lemma_step_append::<H>(v1, d);
                                let (w, fs) = drain::<H>(v2);
                                lemma_drain_append::<H>(v2, d);
                                let (w2, gs) = drain::<H>(append_view(w, d));
                                assert(seq![f] + fs + gs =~= seq![f] + (fs + gs));
                            },
                            _ => {
                                assert(drain::<H>(v) == (v1, Seq::<Seq<u8>>::empty()));
                                assert(!header_rejected::<H>(v1d));
                                assert(update_view::<H>(vd) == update_view::<H>(v1d));
                                let (w2, gs) = drain::<H>(v1d);
                                assert(Seq::<Seq<u8>>::empty() + gs =~= gs);
                            },
                        }
                    },
                }
            },
        }
    }
}

/// Once a header's bytes are all there, more bytes behind them do not change
/// whether it is rejected.
proof fn lemma_rejected_append<H: IsHeader>(v: FrameView, d: Seq<u8>)
    ensures
        v.buffer.len() >= H::width() ==> header_rejected::<H>(append_view(v, d))
            == header_rejected::<H>(v),
        header_rejected::<H>(v) ==> step::<H>(v) is None,
        !(v.phase is Header) ==> !header_rejected::<H>(append_view(v, d)),
{
    let w = H::width() as int;
    if v.buffer.len() >= w {
        assert((v.buffer + d).subrange(0, w) =~= v.buffer.subrange(0, w));
    }
}

/// Feeding chunks one read at a time, draining after each, ends where
/// feeding their concatenation in one read and draining ends, with the same
/// payloads.
pub proof fn lemma_feed_whole<H: IsHeader>(v: FrameView, chunks: Seq<Seq<u8>>)
    requires
        chunks.len() > 0,
    ensures
        feed::<H>(v, chunks) == drain::<H>(receive_view(v, chunks.flatten())),
    decreases chunks.len(),
{
    let c0 = chunks[0];
    let rest = chunks.drop_first();
    let r = rest.flatten();
    assert(chunks.flatten() == c0 + r);
    let (v1, f1) = drain::<H>(receive_view(v, c0));
    if rest.len() == 0 {
        assert(c0 + r =~= c0);
        assert(chunks.flatten() == c0);
        assert(feed::<H>(v1, rest) == (v1, Seq::<Seq<u8>>::empty()));
        assert(f1 + Seq::<Seq<u8>>::empty() =~= f1);
    } else {
        lemma_feed_whole::<H>(v1, rest);
        lemma_drain_phase::<H>(receive_view(v, c0));
        assert(receive_view(v1, r) == append_view(v1, r));
        lemma_drain_append::<H>(receive_view(v, c0), r);
        assert(v.buffer + c0 + r =~= v.buffer + (c0 + r));
        assert(append_view(receive_view(v, c0), r) == receive_view(v, chunks.flatten()));
    }
}

/// Draining never returns a reader to the idle phase.
proof fn lemma_drain_phase<H: IsHeader>(v: FrameView)
    requires
        !(v.phase is Idle),
    ensures
        !(drain::<H>(v).0.phase is Idle),
    decreases measure(v),
{
    H::lemma_round_trip(0);
    let (v1, out) = update_view::<H>(v);
    if out is Frame {
        lemma_drain_phase::<H>(v1);
    }
}

/// Fragmentation independence: however the same bytes are cut into
/// transport reads, draining the reader after each read yields the same
/// payloads in the same order, and leaves it in the same state.
pub proof fn lemma_fragmentation_independence<H: IsHeader>(
    v: FrameView,
    a: Seq<Seq<u8>>,
    b: Seq<Seq<u8>>,
)
    requires
        a.len() > 0,
        b.len() > 0,
        a.flatten() == b.flatten(),
    ensures
        feed::<H>(v, a) == feed::<H>(v, b),
{
    lemma_feed_whole::<H>(v, a);
    lemma_feed_whole::<H>(v, b);
}

/// A reader between frames that holds a whole frame, and maybe more behind
/// it, yields that frame's payload on one `update` and keeps the rest.
pub proof fn lemma_update_frame<H: IsHeader>(payload: Seq<u8>, rest: Seq<u8>)
    requires
        payload.len() <= u64::MAX,
    ensures
        update_view::<H>(append_view(between_frames(), frame_bytes::<H>(payload) + rest)) == (
        FrameView { phase: Phase::Header, buffer: rest }, Progress::Frame(payload)),
{
    let n = payload.len() as u64;
    H::lemma_round_trip(n);
    let e = H::encoding(n);
    let b = Seq::<u8>::empty() + (e + payload + rest);
    let w = H::width() as int;
    assert(b.subrange(0, w) =~= e);
    let b1 = b.subrange(w, b.len() as int);
    assert(b1 =~= payload + rest);
    assert(b1.subrange(0, n as int) =~= payload);
    assert(b1.subrange(n as int, b1.len() as int) =~= rest);
}

/// Pipelining: when one read delivers two whole frames, two calls of
/// `update`, with no read between them, yield both payloads in the order
/// they arrived.
pub proof fn lemma_pipelining<H: IsHeader>(p1: Seq<u8>, p2: Seq<u8>, rest: Seq<u8>)
    requires
        p1.len() <= u64::MAX,
        p2.len() <= u64::MAX,
    ensures
        ({
            let start = FrameView { phase: Phase::Idle, buffer: Seq::empty() };
            let v = receive_view(start, frame_bytes::<H>(p1) + frame_bytes::<H>(p2) + rest);
            let (v1, o1) = update_view::<H>(v);
            let (v2, o2) = update_view::<H>(v1);
            o1 == Progress::Frame(p1) && o2 == Progress::Frame(p2) && v2 == (FrameView {
                phase: Phase::Header,
                buffer: rest,
            })
        }),
{
    let start = FrameView { phase: Phase::Idle, buffer: Seq::empty() };
    let all = frame_bytes::<H>(p1) + frame_bytes::<H>(p2) + rest;
    assert(receive_view(start, all) == append_view(between_frames(), all));
    assert(all =~= frame_bytes::<H>(p1) + (frame_bytes::<H>(p2) + rest));
    lemma_update_frame::<H>(p1, frame_bytes::<H>(p2) + rest);
    assert(Seq::<u8>::empty() + (frame_bytes::<H>(p2) + rest) =~= frame_bytes::<H>(p2) + rest);
    assert(FrameView { phase: Phase::Header, buffer: frame_bytes::<H>(p2) + rest }
        == append_view(between_frames(), frame_bytes::<H>(p2) + rest));
    lemma_update_frame::<H>(p2, rest);
}

/// Round trip at the frame level: feeding the encoded frames of some
/// payloads to a fresh reader and draining it yields exactly those payloads,
/// in order, and leaves it between frames with nothing buffered.
pub proof fn lemma_frames_round_trip<H: IsHeader>(payloads: Seq<Seq<u8>>)
    requires
        forall|i: int| 0 <= i < payloads.len() ==> payloads[i].len() <= u64::MAX,
    ensures
        drain::<H>(
            receive_view(
                FrameView { phase: Phase::Idle, buffer: Seq::empty() },
                frames_bytes::<H>(payloads),
            ),
        ) == (between_frames(), payloads),
    decreases payloads.len(),
{
    H::lemma_round_trip(0);
    let start = FrameView { phase: Phase::Idle, buffer: Seq::empty() };
    let u = between_frames();
    if payloads.len() == 0 {
        assert(receive_view(start, Seq::empty()) =~= u);
        assert(step::<H>(u) is None);
        assert(payloads =~= Seq::<Seq<u8>>::empty());
    } else {
        let p = payloads[0];
        let rest = payloads.drop_first();
        let a = frame_bytes::<H>(p);
        let b = frames_bytes::<H>(rest);
        lemma_frames_round_trip::<H>(rest);
        assert(receive_view(start, b) == append_view(u, b));
        lemma_update_frame::<H>(p, Seq::empty());
        assert(a + Seq::<u8>::empty() =~= a);
        let ua = append_view(u, a);
        assert(update_view::<H>(ua) == (u, Progress::Frame(p)));
        assert(step::<H>(u) is None);
        assert(drain::<H>(u) == (u, Seq::<Seq<u8>>::empty()));
        assert(drain::<H>(ua) == (u, seq![p] + Seq::<Seq<u8>>::empty()));
        lemma_drain_append::<H>(ua, b);
        assert(append_view(ua, b) =~= receive_view(start, a + b));
        assert(seq![p] + Seq::<Seq<u8>>::empty() + rest =~= payloads);
    }
}

/// The state of a [`FrameReader`]: each waiting state and the matching full
/// state, once the buffer holds what the waiting state needs.
#[derive(Debug)]
pub enum ReaderState<H> {
    Idle,
    AwaitingHeader,
    HeaderBufferFull,
    AwaitingBody { header: H },
    BodyBufferFull { header: H },
    Failed,
}

/// The phase that a reader state stands for.
pub open spec fn phase_of<H: IsHeader>(st: ReaderState<H>) -> Phase {
    match st {
        ReaderState::Idle => Phase::Idle,
        ReaderState::AwaitingHeader => Phase::Header,
        ReaderState::HeaderBufferFull => Phase::Header,
        ReaderState::AwaitingBody { header } => Phase::Body(header.declared()),
        ReaderState::BodyBufferFull { header } => Phase::Body(header.declared()),
        ReaderState::Failed => Phase::Failed,
    }
}

/// A full state holds the bytes it needs.
pub open spec fn holds<H: IsHeader>(st: ReaderState<H>, len: nat) -> bool {
    match st {
        ReaderState::HeaderBufferFull => len >= H::width(),
        ReaderState::BodyBufferFull { header } => len >= header.declared(),
        _ => true,
    }
}

/// A state agrees with a buffer of `len` bytes: it is full exactly when the
/// bytes it needs are there.
pub open spec fn fits<H: IsHeader>(st: ReaderState<H>, len: nat) -> bool {
    &&& holds(st, len)
    &&& match st {
        ReaderState::AwaitingHeader => len < H::width(),
        ReaderState::AwaitingBody { header } => len < header.declared(),
        _ => true,
    }
}

/// Accumulates transport bytes and cuts them into frames.
#[derive(Debug)]
pub struct FrameReader<H: IsHeader> {
    buffer: BytesMut,
    state: ReaderState<H>,
    header_size: usize,
}

impl<H: IsHeader> FrameReader<H> {
    /// The abstract state.
    pub closed spec fn view(&self) -> FrameView {
        FrameView { phase: phase_of(self.state), buffer: bytes_mut_view(self.buffer) }
    }

    #[verifier::type_invariant]
    closed spec fn inv(&self) -> bool {
        &&& self.header_size as nat == H::width()
        &&& fits(self.state, bytes_mut_view(self.buffer).len())
    }

    /// An idle reader with an empty buffer.
    pub fn new() -> (r: Self)
        ensures
            r.view() == (FrameView { phase: Phase::Idle, buffer: Seq::empty() }),
    {
        FrameReader {
            buffer: BytesMut::with_capacity(0),
            state: ReaderState::Idle,
            header_size: H::header_size(),
        }
    }

    /// The state a waiting state moves to once the buffer holds `len` bytes.
    fn settled(st: ReaderState<H>, len: usize, header_size: usize) -> (r: ReaderState<H>)
        requires
            header_size as nat == H::width(),
            holds(st, len as nat),
        ensures
            fits(r, len as nat),
            phase_of(r) == phase_of(st),
    {
        match st {
            ReaderState::AwaitingHeader => {
                if len >= header_size {
                    ReaderState::HeaderBufferFull
                } else {
                    ReaderState::AwaitingHeader
                }
            },
            ReaderState::AwaitingBody { header } => {
                if len as u64 >= header.size() {
                    ReaderState::BodyBufferFull { header }
                } else {
                    ReaderState::AwaitingBody { header }
                }
            },
            other => other,
        }
    }

    /// Takes the state and the buffer out, leaving a failed, empty reader.
    fn take_parts(&mut self) -> (r: (ReaderState<H>, BytesMut))
        ensures
            r.0 == old(self).state,
            bytes_mut_view(r.1) == bytes_mut_view(old(self).buffer),
            final(self).header_size == old(self).header_size,
            final(self).state is Failed,
    {
        proof {
            use_type_invariant(&*self);
        }
        let mut st = ReaderState::Failed;
        std::mem::swap(&mut self.state, &mut st);
        let mut buf = BytesMut::with_capacity(0);
        std::mem::swap(&mut self.buffer, &mut buf);
        (st, buf)
    }

    /// Puts a state and a buffer that agree back in.
    fn put_parts(&mut self, st: ReaderState<H>, buf: BytesMut)
        requires
            old(self).state is Failed,
            fits(st, bytes_mut_view(buf).len()),
        ensures
            final(self).view() == (FrameView { phase: phase_of(st), buffer: bytes_mut_view(buf) }),
            final(self).header_size == old(self).header_size,
    {
        proof {
            use_type_invariant(&*self);
        }
        self.buffer = buf;
        self.state = st;
    }

    /// Appends the bytes that one transport read delivered, and notes when
    /// the current stage has all it needs. An empty delivery is how a
    /// transport signals that the peer closed: `Closed` between frames,
    /// `ClosedMidFrame` when part of a frame is left unfinished.
    pub fn receive(&mut self, data: &[u8]) -> (r: ReadStatus)
        ensures
            final(self).view() == receive_view(old(self).view(), data@),
            r == (if data@.len() > 0 {
                ReadStatus::Received
            } else if old(self).view().buffer.len() > 0 || old(self).view().phase is Body {
                ReadStatus::ClosedMidFrame
            } else {
                ReadStatus::Closed
            }),
    {
        proof {
            use_type_invariant(&*self);
        }
        let hs = self.header_size;
        let (st, mut buf) = self.take_parts();
        let unfinished = buf.len() > 0 || Self::in_body(&st);
        buf.extend_from_slice(data);
        let st = match st {
            ReaderState::Idle => ReaderState::AwaitingHeader,
            other => other,
        };
        let st = Self::settled(st, buf.len(), hs);
        self.put_parts(st, buf);
        assert(self.view() == receive_view(old(self).view(), data@));
        if data.len() > 0 {
            ReadStatus::Received
        } else if unfinished {
            ReadStatus::ClosedMidFrame
        } else {
            ReadStatus::Closed
        }
    }

    /// Whether a header was read and its payload is not cut off yet.
    fn in_body(st: &ReaderState<H>) -> (r: bool)
        ensures
            r == phase_of(*st) is Body,
    {
        match st {
            ReaderState::AwaitingBody { .. } => true,
            ReaderState::BodyBufferFull { .. } => true,
            _ => false,
        }
    }

    /// Cuts the payload of a full body state off the buffer; any other
    /// state is handed back as it is.
    fn cut_body(st: ReaderState<H>, buf: &mut BytesMut, header_size: usize) -> (r: (
        ReaderState<H>,
        Option<Bytes>,
    ))
        requires
            header_size as nat == H::width(),
            fits(st, bytes_mut_view(*old(buf)).len()),
        ensures
            fits(r.0, bytes_mut_view(*final(buf)).len()),
            ({
                let v = FrameView { phase: phase_of(st), buffer: bytes_mut_view(*old(buf)) };
                let v1 = FrameView { phase: phase_of(r.0), buffer: bytes_mut_view(*final(buf)) };
                match step::<H>(v) {
                    Some((w, Some(f))) => v1 == w && r.1 is Some && bytes_view(r.1->Some_0) == f,
                    _ => v1 == v && r.1 is None,
                }
            }),
    {
        match st {
            ReaderState::BodyBufferFull { header } => {
                let len = buf.len();
                let size = header.size();
                let n: usize = size as usize;
                assert(n as int == size as int && n <= len);
                let payload = buf.split_to(n).freeze();
                let next = Self::settled(ReaderState::AwaitingHeader, buf.len(), header_size);
                (next, Some(payload))
            },
            other => (other, None),
        }
    }

    /// Advances the machine without reading: reads a header whose bytes are
    /// all there, and cuts off the payload that follows it once that is all
    /// there too. Returns the payload of the frame completed by this call, if
    /// one was. A rejected header changes nothing: the state does not advance
    /// and the header bytes stay, so every later call reports the same
    /// rejection until `clear_state`.
    pub fn update(&mut self) -> (r: Result<Option<Bytes>, H::Error>)
        ensures
            final(self).view() == update_view::<H>(old(self).view()).0,
            match update_view::<H>(old(self).view()).1 {
                Progress::Waiting => r matches Ok(None),
                Progress::Frame(f) => r matches Ok(Some(p)) && bytes_view(p) == f,
                Progress::Rejected => r is Err,
            },
    {
        proof {
            use_type_invariant(&*self);
        }
        let hs = self.header_size;
        let (st, mut buf) = self.take_parts();
        match st {
            ReaderState::HeaderBufferFull => {
                let mut head = buf.split_to(hs);
                let raw = Bytes::copy_from_slice(bytes_mut_slice(&head));
                match H::from_bytes(raw) {
                    Ok(header) => {
                        let st = Self::settled(ReaderState::AwaitingBody { header }, buf.len(), hs);
                        let (st, out) = Self::cut_body(st, &mut buf, hs);
                        self.put_parts(st, buf);
                        Ok(out)
                    },
                    Err(e) => {
                        head.extend_from_slice(bytes_mut_slice(&buf));
                        assert(bytes_mut_view(head) =~= old(self).view().buffer);
                        self.put_parts(ReaderState::HeaderBufferFull, head);
                        Err(e)
                    },
                }
            },
            other => {
                let (st, out) = Self::cut_body(other, &mut buf, hs);
                self.put_parts(st, buf);
                Ok(out)
            },
        }
    }

    /// Marks the stream as desynchronized after a payload could not be
    /// decoded: `update` does nothing more until `clear_state`.
    pub fn mark_failed(&mut self)
        ensures
            final(self).view() == (FrameView { phase: Phase::Failed, buffer: old(self).view().buffer }),
    {
        proof {
            use_type_invariant(&*self);
        }
        self.state = ReaderState::Failed;
    }

    /// Drops every buffered byte and returns to the idle state.
    pub fn clear_state(&mut self)
        ensures
            final(self).view() == (FrameView { phase: Phase::Idle, buffer: Seq::empty() }),
    {
        let (_, mut buf) = self.take_parts();
        buf.clear();
        self.put_parts(ReaderState::Idle, buf);
    }

    /// The number of bytes held that belong to no finished frame.
    pub fn buffered(&self) -> (r: usize)
        ensures
            r as int == self.view().buffer.len(),
    {
        self.buffer.len()
    }
}

/// What one transport read delivered.
#[derive(Clone, Copy, Debug, PartialEq, Eq, Structural)]
pub enum ReadStatus {
    /// Some bytes arrived.
    Received,
    /// No byte arrived: the peer closed the stream between frames.
    Closed,
    /// No byte arrived: the peer closed the stream with a frame unfinished.
    ClosedMidFrame,
}

} // verus!
