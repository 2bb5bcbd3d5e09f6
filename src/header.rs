//! Fixed-width frame headers that declare a payload length.
use vstd::prelude::*;

use bytes::{Bytes, BytesMut};

use crate::buffer::{bytes_mut_view, bytes_slice, bytes_view};

verus! {

/// A header format: a fixed-width encoding of one payload length.
///
/// Each format states, as spec functions, its width, the bytes it writes for
/// a length and the length it reads back from bytes, and proves that reading
/// back what it wrote gives the same length.
pub trait IsHeader: Sized {
    type Error;

    /// The byte width of every encoded header of this format.
    spec fn width() -> nat;

    /// The payload length that this header declares.
    spec fn declared(&self) -> u64;

    /// The bytes of a header that declares `len`.
    spec fn encoding(len: u64) -> Seq<u8>;

    /// `Some(len)` when `bytes` is a valid header that declares `len`, `None`
    /// when the format rejects them.
    spec fn parse(bytes: Seq<u8>) -> Option<u64>;

    /// A header is never empty, its encoding always has the format's width,
    /// and parsing the encoding of a length gives that length back.
    proof fn lemma_round_trip(len: u64)
        ensures
            Self::width() > 0,
            Self::encoding(len).len() == Self::width(),
            Self::parse(Self::encoding(len)) == Some(len),
    ;

    /// Creates a header that declares a payload of `msg_len` bytes.
    fn new(msg_len: u64) -> (r: Self)
        ensures
            r.declared() == msg_len,
    ;

    /// Creates a header that declares an empty payload.
    fn blank() -> (r: Self)
        ensures
            r.declared() == 0,
    {
        Self::new(0)
    }

    /// The payload length declared by this header.
    fn size(&self) -> (r: u64)
        ensures
            r == self.declared(),
    ;

    /// The header as immutable bytes.
    fn as_bytes(&self) -> (r: Bytes)
        ensures
            bytes_view(r) == Self::encoding(self.declared()),
    ;

    /// The header as a growable buffer, so that a payload can be appended
    /// without a second allocation.
    fn as_bytes_mut(&self) -> (r: BytesMut)
        ensures
            bytes_mut_view(r) == Self::encoding(self.declared()),
    ;

    /// Reads a header from `bytes`, with every check of the format; never
    /// panics on malformed input.
    fn from_bytes(bytes: Bytes) -> (r: Result<Self, Self::Error>)
        ensures
            match Self::parse(bytes_view(bytes)) {
                Some(len) => r is Ok && r->Ok_0.declared() == len,
                None => r is Err,
            },
    ;

    /// The byte width of the format.
    fn header_size() -> (r: usize)
        ensures
            r as nat == Self::width(),
    ;
}

/// The eight little-endian bytes of `n`.
pub open spec fn le_bytes(n: u64) -> Seq<u8> {
    seq![
        n as u8,
        (n >> 8u64) as u8,
        (n >> 16u64) as u8,
        (n >> 24u64) as u8,
        (n >> 32u64) as u8,
        (n >> 40u64) as u8,
        (n >> 48u64) as u8,
        (n >> 56u64) as u8,
    ]
}

/// The number whose little-endian bytes are the first eight of `b`.
pub open spec fn le_value(b: Seq<u8>) -> u64
    recommends
        b.len() >= 8,
{
    le_of(b[0], b[1], b[2], b[3], b[4], b[5], b[6], b[7])
}

/// The number with little-endian bytes `b0` to `b7`.
pub open spec fn le_of(b0: u8, b1: u8, b2: u8, b3: u8, b4: u8, b5: u8, b6: u8, b7: u8) -> u64 {
    (b0 as u64) | ((b1 as u64) << 8u64) | ((b2 as u64) << 16u64) | ((b3 as u64) << 24u64) | ((
    b4 as u64) << 32u64) | ((b5 as u64) << 40u64) | ((b6 as u64) << 48u64) | ((b7 as u64)
        << 56u64)
}

/// Reading back the little-endian bytes of a number gives the number.
pub proof fn lemma_le_round_trip(n: u64)
    ensures
        le_bytes(n).len() == 8,
        le_value(le_bytes(n)) == n,
{
    assert(le_of(
        n as u8,
        (n >> 8u64) as u8,
        (n >> 16u64) as u8,
        (n >> 24u64) as u8,
        (n >> 32u64) as u8,
        (n >> 40u64) as u8,
        (n >> 48u64) as u8,
        (n >> 56u64) as u8,
    ) == n) by (bit_vector);
}

/// Appends the little-endian bytes of `n` to `out`.
fn push_le(out: &mut Vec<u8>, n: u64)
    ensures
        final(out)@ == old(out)@ + le_bytes(n),
{
    out.push(n as u8);
    out.push((n >> 8u64) as u8);
    out.push((n >> 16u64) as u8);
    out.push((n >> 24u64) as u8);
    out.push((n >> 32u64) as u8);
    out.push((n >> 40u64) as u8);
    out.push((n >> 48u64) as u8);
    out.push((n >> 56u64) as u8);
    assert(out@ =~= old(out)@ + le_bytes(n));
}

/// Reads the little-endian number held in `b[at..at + 8]`.
fn read_le(b: &[u8], at: usize) -> (r: u64)
    requires
        at + 8 <= b@.len(),
    ensures
        r == le_value(b@.subrange(at as int, at + 8)),
{
    le_of_exec(b[at], b[at + 1], b[at + 2], b[at + 3], b[at + 4], b[at + 5], b[at + 6], b[at + 7])
}

fn le_of_exec(b0: u8, b1: u8, b2: u8, b3: u8, b4: u8, b5: u8, b6: u8, b7: u8) -> (r: u64)
    ensures
        r == le_of(b0, b1, b2, b3, b4, b5, b6, b7),
{
    (b0 as u64) | ((b1 as u64) << 8u64) | ((b2 as u64) << 16u64) | ((b3 as u64) << 24u64) | ((
    b4 as u64) << 32u64) | ((b5 as u64) << 40u64) | ((b6 as u64) << 48u64) | ((b7 as u64)
        << 56u64)
}

/// Copies a byte vector into a `BytesMut`.
fn to_bytes_mut(v: &Vec<u8>) -> (r: BytesMut)
    ensures
        bytes_mut_view(r) == v@,
{
    let mut r = BytesMut::with_capacity(v.len());
    r.extend_from_slice(v.as_slice());
    assert(bytes_mut_view(r) =~= v@);
    r
}

/// The plainest format: the payload length as eight little-endian bytes.
#[derive(Clone, Copy, Debug, PartialEq, Eq, Structural)]
pub struct LengthHeader {
    len: u64,
}

impl LengthHeader {
    fn encode(&self) -> (r: Vec<u8>)
        ensures
            r@ == le_bytes(self.len),
    {
        let mut v: Vec<u8> = Vec::new();
        push_le(&mut v, self.len);
        assert(v@ =~= le_bytes(self.len));
        v
    }
}

impl IsHeader for LengthHeader {
    type Error = HeaderError;

    open spec fn width() -> nat {
        8
    }

    closed spec fn declared(&self) -> u64 {
        self.len
    }

    open spec fn encoding(len: u64) -> Seq<u8> {
        le_bytes(len)
    }

    open spec fn parse(bytes: Seq<u8>) -> Option<u64> {
        if bytes.len() == 8 {
            Some(le_value(bytes))
        } else {
            None
        }
    }

    proof fn lemma_round_trip(len: u64) {
        lemma_le_round_trip(len);
    }

    fn new(msg_len: u64) -> (r: Self) {
        LengthHeader { len: msg_len }
    }

    fn size(&self) -> (r: u64) {
        self.len
    }

    fn as_bytes(&self) -> (r: Bytes) {
        let v = self.encode();
        Bytes::copy_from_slice(v.as_slice())
    }

    fn as_bytes_mut(&self) -> (r: BytesMut) {
        let v = self.encode();
        to_bytes_mut(&v)
    }

    fn from_bytes(bytes: Bytes) -> (r: Result<Self, Self::Error>) {
        let b = bytes_slice(&bytes);
        if b.len() != 8 {
            return Err(HeaderError::WrongLength);
        }
        let len = read_le(b, 0);
        assert(b@.subrange(0, 8) =~= b@);
        Ok(LengthHeader { len })
    }

    fn header_size() -> (r: usize) {
        8
    }
}

/// Why a header format rejected some bytes.
#[derive(Clone, Copy, Debug, PartialEq, Eq, Structural)]
pub enum HeaderError {
    /// The bytes are not as many as the format's width.
    WrongLength,
    /// The marker bytes that open a header are missing.
    BadMagic,
    /// The check byte does not match the length bytes.
    BadChecksum,
}

/// First marker byte of a [`CheckedHeader`].
pub const MAGIC0: u8 = 0x53;

/// Second marker byte of a [`CheckedHeader`].
pub const MAGIC1: u8 = 0x54;

/// The exclusive or of the eight bytes `b[at..at + 8]`.
pub open spec fn xor8(b: Seq<u8>, at: int) -> u8 {
    b[at] ^ b[at + 1] ^ b[at + 2] ^ b[at + 3] ^ b[at + 4] ^ b[at + 5] ^ b[at + 6] ^ b[at + 7]
}

/// The bytes of a checked header that declares `len`: two marker bytes, the
/// length in eight little-endian bytes, and the exclusive or of those eight.
pub open spec fn checked_encoding(len: u64) -> Seq<u8> {
    seq![MAGIC0, MAGIC1] + le_bytes(len) + seq![xor8(le_bytes(len), 0)]
}

/// A format that guards the length: two marker bytes, the length, and a
/// check byte; corrupt or misaligned bytes are rejected.
#[derive(Clone, Copy, Debug, PartialEq, Eq, Structural)]
pub struct CheckedHeader {
    len: u64,
}

impl CheckedHeader {
    fn encode(&self) -> (r: Vec<u8>)
        ensures
            r@ == checked_encoding(self.len),
    {
        let mut v: Vec<u8> = Vec::new();
        v.push(MAGIC0);
        v.push(MAGIC1);
        push_le(&mut v, self.len);
        let check = v[2] ^ v[3] ^ v[4] ^ v[5] ^ v[6] ^ v[7] ^ v[8] ^ v[9];
        v.push(check);
        assert(v@ =~= checked_encoding(self.len));
        v
    }
}

impl IsHeader for CheckedHeader {
    type Error = HeaderError;

    open spec fn width() -> nat {
        11
    }

    closed spec fn declared(&self) -> u64 {
        self.len
    }

    open spec fn encoding(len: u64) -> Seq<u8> {
        checked_encoding(len)
    }

    open spec fn parse(bytes: Seq<u8>) -> Option<u64> {
        if bytes.len() == 11 && bytes[0] == MAGIC0 && bytes[1] == MAGIC1 && bytes[10] == xor8(
            bytes,
            2,
        ) {
            Some(le_value(bytes.subrange(2, 10)))
        } else {
            None
        }
    }

    proof fn lemma_round_trip(len: u64) {
        lemma_le_round_trip(len);
        let e = checked_encoding(len);
        assert(e.subrange(2, 10) =~= le_bytes(len));
        assert(xor8(e, 2) == xor8(le_bytes(len), 0));
    }

    fn new(msg_len: u64) -> (r: Self) {
        CheckedHeader { len: msg_len }
    }

    fn size(&self) -> (r: u64) {
        self.len
    }

    fn as_bytes(&self) -> (r: Bytes) {
        let v = self.encode();
        Bytes::copy_from_slice(v.as_slice())
    }

    fn as_bytes_mut(&self) -> (r: BytesMut) {
        let v = self.encode();
        to_bytes_mut(&v)
    }

    fn from_bytes(bytes: Bytes) -> (r: Result<Self, Self::Error>) {
        let b = bytes_slice(&bytes);
        if b.len() != 11 {
            return Err(HeaderError::WrongLength);
        }
        if b[0] != MAGIC0 || b[1] != MAGIC1 {
            return Err(HeaderError::BadMagic);
        }
        let check = b[2] ^ b[3] ^ b[4] ^ b[5] ^ b[6] ^ b[7] ^ b[8] ^ b[9];
        if b[10] != check {
            return Err(HeaderError::BadChecksum);
        }
        let len = read_le(b, 2);
        Ok(CheckedHeader { len })
    }

    fn header_size() -> (r: usize) {
        11
    }
}

} // verus!
