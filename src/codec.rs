//! Identity codec: reads and writes payloads of `N` bytes as they are.

use vstd::prelude::*;
use bytes::{Bytes, BytesMut};
use crate::error::Error;

verus! {

/// `bytes::BytesMut`, a growable byte buffer, held opaque.
#[verifier::external_type_specification]
#[verifier::external_body]
pub struct ExBytesMut(BytesMut);

/// `bytes::Bytes`, an immutable byte buffer, held opaque.
#[verifier::external_type_specification]
#[verifier::external_body]
pub struct ExBytes(Bytes);

/// The bytes a growable buffer holds, in order.
pub uninterp spec fn buffer_contents(b: BytesMut) -> Seq<u8>;

/// The bytes a frozen buffer holds, in order.
pub uninterp spec fn frozen_contents(b: Bytes) -> Seq<u8>;

/// Relies on `BytesMut::len`: the number of bytes held.
#[verifier::external_body]
fn buffer_len(b: &BytesMut) -> (r: usize)
    ensures
        r == buffer_contents(*b).len(),
{
    b.len()
}

/// Relies on `BytesMut::split_to`: hands out the first `at` bytes and keeps
/// the rest; it panics when `at` exceeds the length.
#[verifier::external_body]
fn split_front(b: &mut BytesMut, at: usize) -> (r: BytesMut)
    requires
        at <= buffer_contents(*old(b)).len(),
    ensures
        buffer_contents(r) == buffer_contents(*old(b)).subrange(0, at as int),
        buffer_contents(*final(b)) == buffer_contents(*old(b)).subrange(
            at as int,
            buffer_contents(*old(b)).len() as int,
        ),
{
    b.split_to(at)
}

/// Relies on `BytesMut::freeze`: the same bytes, no longer growable.
#[verifier::external_body]
fn freeze(b: BytesMut) -> (r: Bytes)
    ensures
        frozen_contents(r) == buffer_contents(b),
{
    b.freeze()
}

/// Relies on `BufMut::put_slice` for `BytesMut`: appends the bytes of `src`.
#[verifier::external_body]
fn put_bytes(dst: &mut BytesMut, src: &Bytes)
    ensures
        buffer_contents(*final(dst)) == buffer_contents(*old(dst)) + frozen_contents(*src),
{
    bytes::BufMut::put_slice(dst, src.as_ref())
}

/// Codec whose frames are exactly `N` bytes of payload.
#[derive(Debug)]
pub struct Identity<const N: usize> {}

impl<const N: usize> Identity<N> {
    /// A codec for `N`-byte frames.
    pub fn new() -> (r: Identity<N>) {
        Identity {}
    }

    /// Whether `src` can be decoded: it is empty or holds a whole frame.
    pub fn can_decode(&self, src: &BytesMut) -> (r: bool)
        ensures
            r == (buffer_contents(*src).len() == 0 || buffer_contents(*src).len() >= N),
    {
        let len = buffer_len(src);
        len == 0 || len >= N
    }

    /// Takes the next frame off `src`: nothing while `src` is empty, else
    /// its first `N` bytes.
    pub fn decode(&mut self, src: &mut BytesMut) -> (r: Result<Option<Bytes>, Error>)
        requires
            buffer_contents(*old(src)).len() == 0 || buffer_contents(*old(src)).len() >= N,
        ensures
            buffer_contents(*old(src)).len() == 0 ==> (r matches Ok(None) && *final(src) == *old(
                src,
            )),
            buffer_contents(*old(src)).len() > 0 ==> (r matches Ok(Some(frame)) && frozen_contents(
                frame,
            ) == buffer_contents(*old(src)).subrange(0, N as int) && buffer_contents(*final(src))
                == buffer_contents(*old(src)).subrange(N as int, buffer_contents(*old(src)).len() as int)),
    {
        if buffer_len(src) == 0 {
            return Ok(None);
        }
        let frame = split_front(src, N);
        Ok(Some(freeze(frame)))
    }

    /// Writes `item` to `dst` as it is.
    pub fn encode(&mut self, item: Bytes, dst: &mut BytesMut) -> (r: Result<(), Error>)
        ensures
            r is Ok,
            buffer_contents(*final(dst)) == buffer_contents(*old(dst)) + frozen_contents(item),
    {
        put_bytes(dst, &item);
        Ok(())
    }
}

} // verus!
