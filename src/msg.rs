//! Messages: a payload value, framed with a header format.
use vstd::prelude::*;

use bytes::Bytes;
use serde::de::DeserializeOwned;
use serde::{Deserialize, Serialize};
use std::marker::PhantomData;

use crate::buffer::{bytes_mut_view, bytes_slice, bytes_view};
use crate::frame::frame_bytes;
use crate::header::IsHeader;

verus! {

#[verifier::external_type_specification]
#[verifier::external_body]
pub struct ExBincodeErrorKind(bincode::ErrorKind);

/// Relies on `bincode::Options::serialized_size`: the number of bytes that
/// `value` takes under `options`, or the error that stopped the count.
#[verifier::external_body]
fn encoded_size<T: Serialize, O: bincode::Options>(options: O, value: &T) -> (r: Result<
    u64,
    bincode::Error,
>) {
    options.serialized_size(value)
}

/// Relies on `bincode::Options::serialize`: the bytes of `value` under
/// `options`, or the error that stopped it.
#[verifier::external_body]
fn encode_value<T: Serialize, O: bincode::Options>(options: O, value: &T) -> (r: Result<
    Vec<u8>,
    bincode::Error,
>) {
    options.serialize(value)
}

/// Relies on `bincode::Options::deserialize`: the value that `data` encodes
/// under `options`, or the error that stopped it.
#[verifier::external_body]
fn decode_value<'a, T: Deserialize<'a>, O: bincode::Options>(options: O, data: &'a [u8]) -> (r:
    Result<T, bincode::Error>) {
    options.deserialize(data)
}

/// A payload value, together with the header format that frames it. The
/// format is only a type marker: no header is stored.
#[derive(Debug)]
pub struct MessageWrapper<M, H> {
    inner: M,
    _header_type: PhantomData<H>,
}

impl<M, H: IsHeader> MessageWrapper<M, H> {
    /// The payload value.
    pub closed spec fn msg(&self) -> M {
        self.inner
    }

    /// Wraps a payload value.
    pub fn new(msg: M) -> (r: Self)
        ensures
            r.msg() == msg,
    {
        MessageWrapper { inner: msg, _header_type: PhantomData }
    }

    /// Unwraps the payload value.
    pub fn into_message(self) -> (r: M)
        ensures
            r == self.msg(),
    {
        self.inner
    }

    /// The payload value.
    pub fn message(&self) -> (r: &M)
        ensures
            *r == self.msg(),
    {
        &self.inner
    }

    /// The payload value, to change in place. A header or an encoding made
    /// before the change no longer matches it.
    pub fn message_mut(&mut self) -> (r: &mut M)
        ensures
            *r == old(self).msg(),
            final(self).msg() == *final(r),
    {
        &mut self.inner
    }

    /// One frame: the header that declares the payload's length, then the
    /// payload.
    pub fn frame(payload: &[u8]) -> (r: Bytes)
        ensures
            bytes_view(r) == frame_bytes::<H>(payload@),
    {
        let header = H::new(payload.len() as u64);
        let mut buf = header.as_bytes_mut();
        buf.extend_from_slice(payload);
        buf.freeze()
    }
}

impl<M: Serialize, H: IsHeader> MessageWrapper<M, H> {
    /// The header for this message: it declares the length of the payload's
    /// encoding under `options`.
    pub fn header<O: bincode::Options>(&self, options: O) -> (r: Result<H, bincode::Error>) {
        match encoded_size(options, &self.inner) {
            Ok(n) => Ok(H::new(n)),
            Err(e) => Err(e),
        }
    }

    /// The payload's encoding under `options`, without a header.
    pub fn serialize_self<O: bincode::Options>(&self, options: O) -> (r: Result<
        Vec<u8>,
        bincode::Error,
    >) {
        encode_value(options, &self.inner)
    }

    /// The whole frame: the header, then the payload's encoding under
    /// `options`, in one contiguous buffer.
    pub fn serialize<O: bincode::Options>(&self, options: O) -> (r: Result<Bytes, bincode::Error>)
        ensures
            r matches Ok(b) ==> exists|p: Seq<u8>| #[trigger]
                frame_bytes::<H>(p) == bytes_view(b) && p.len() <= usize::MAX,
    {
        match self.serialize_self(options) {
            Ok(payload) => {
                let n = payload.len();
                let r = Self::frame(payload.as_slice());
                assert(frame_bytes::<H>(payload@) == bytes_view(r) && payload@.len() == n);
                Ok(r)
            },
            Err(e) => Err(e),
        }
    }

    /// Decodes a message from payload bytes (the header already removed).
    pub fn from_bytes<NH: IsHeader, NM: Serialize + DeserializeOwned, O: bincode::Options>(
        data: &Bytes,
        options: O,
    ) -> (r: Result<MessageWrapper<NM, NH>, bincode::Error>) {
        match decode_value(options, bytes_slice(data)) {
            Ok(m) => Ok(MessageWrapper::new(m)),
            Err(e) => Err(e),
        }
    }

    /// Decodes a message from payload bytes (the header already removed);
    /// the message may borrow from them.
    pub fn from_slice<'nde, NH: IsHeader, NM: Serialize + Deserialize<'nde>, O: bincode::Options>(
        data: &'nde &[u8],
        options: O,
    ) -> (r: Result<MessageWrapper<NM, NH>, bincode::Error>) {
        match decode_value(options, *data) {
            Ok(m) => Ok(MessageWrapper::new(m)),
            Err(e) => Err(e),
        }
    }
}

} // verus!
