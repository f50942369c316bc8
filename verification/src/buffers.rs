//! Trusted specifications of the `bytes` buffers that the H.264 reader uses.
//!
//! `BytesMut` and `Bytes` are opaque to Verus; their contents are named by
//! `bytes_mut_contents` and `bytes_contents`, and every method the reader
//! calls is reached through one wrapper below whose contract says what the
//! `bytes` source does to those contents.

use bytes::BufMut;
use bytes::Bytes;
use bytes::BytesMut;
use vstd::prelude::*;

verus! {

#[verifier::external_type_specification]
#[verifier::external_body]
pub struct ExBytesMut(bytes::BytesMut);

#[verifier::external_type_specification]
#[verifier::external_body]
pub struct ExBytes(bytes::Bytes);

/// The bytes held by a `BytesMut`, in order.
pub uninterp spec fn bytes_mut_contents(b: BytesMut) -> Seq<u8>;

/// The bytes held by a `Bytes`, in order.
pub uninterp spec fn bytes_contents(b: Bytes) -> Seq<u8>;

/// `BytesMut::new`: a buffer that holds no bytes.
#[verifier::external_body]
pub(crate) fn bytes_mut_new() -> (b: BytesMut)
    ensures
        bytes_mut_contents(b) == Seq::<u8>::empty(),
{
    BytesMut::new()
}

/// `BytesMut::len`: the number of bytes held.
#[verifier::external_body]
pub(crate) fn bytes_mut_len(b: &BytesMut) -> (n: usize)
    ensures
        n == bytes_mut_contents(*b).len(),
{
    b.len()
}

/// `BytesMut::is_empty`: whether no byte is held.
#[verifier::external_body]
pub(crate) fn bytes_mut_is_empty(b: &BytesMut) -> (e: bool)
    ensures
        e == (bytes_mut_contents(*b).len() == 0),
{
    b.is_empty()
}

/// Indexing a `BytesMut` (through its `Deref` to `[u8]`): the byte at `i`,
/// which must be in bounds (indexing panics otherwise).
#[verifier::external_body]
pub(crate) fn bytes_mut_at(b: &BytesMut, i: usize) -> (x: u8)
    requires
        i < bytes_mut_contents(*b).len(),
    ensures
        x == bytes_mut_contents(*b)[i as int],
{
    b[i]
}

/// `BufMut::put_u8` on a `BytesMut`: appends one byte. The source reserves
/// room first, and growing the buffer panics when the capacity it needs
/// passes `isize::MAX`; the `requires` keeps the length below that bound.
/// How far the capacity grows, and whether the allocator can serve it, are
/// not stated.
#[verifier::external_body]
pub(crate) fn bytes_mut_put_u8(b: &mut BytesMut, x: u8)
    requires
        bytes_mut_contents(*old(b)).len() + 1 < isize::MAX,
    ensures
        bytes_mut_contents(*final(b)) == bytes_mut_contents(*old(b)).push(x),
{
    b.put_u8(x)
}

/// `BytesMut::clear`: removes every byte.
#[verifier::external_body]
pub(crate) fn bytes_mut_clear(b: &mut BytesMut)
    ensures
        bytes_mut_contents(*final(b)) == Seq::<u8>::empty(),
{
    b.clear()
}

/// `BytesMut::split`: hands out every byte held in a new buffer and leaves
/// the old one empty.
#[verifier::external_body]
pub(crate) fn bytes_mut_split(b: &mut BytesMut) -> (taken: BytesMut)
    ensures
        bytes_mut_contents(taken) == bytes_mut_contents(*old(b)),
        bytes_mut_contents(*final(b)) == Seq::<u8>::empty(),
{
    b.split()
}

/// `BytesMut::split_off`: keeps the bytes before `at` and hands out the
/// rest. The source panics when `at` passes the capacity; the `requires`
/// asks for `at` within the length, which the capacity always covers.
#[verifier::external_body]
pub(crate) fn bytes_mut_split_off(b: &mut BytesMut, at: usize) -> (tail: BytesMut)
    requires
        at <= bytes_mut_contents(*old(b)).len(),
    ensures
        bytes_mut_contents(*final(b)) == bytes_mut_contents(*old(b)).take(at as int),
        bytes_mut_contents(tail) == bytes_mut_contents(*old(b)).skip(at as int),
{
    b.split_off(at)
}

/// `Bytes::from(Vec<u8>)`: takes over the vector's bytes.
#[verifier::external_body]
pub(crate) fn bytes_from_vec(v: Vec<u8>) -> (b: Bytes)
    ensures
        bytes_contents(b) == v@,
{
    Bytes::from(v)
}

/// `Bytes::len`: the number of bytes held.
#[verifier::external_body]
pub(crate) fn bytes_len(b: &Bytes) -> (n: usize)
    ensures
        n == bytes_contents(*b).len(),
{
    b.len()
}

/// Indexing a `Bytes` (through its `Deref` to `[u8]`): the byte at `i`,
/// which must be in bounds (indexing panics otherwise).
#[verifier::external_body]
pub(crate) fn bytes_at(b: &Bytes, i: usize) -> (x: u8)
    requires
        i < bytes_contents(*b).len(),
    ensures
        x == bytes_contents(*b)[i as int],
{
    b[i]
}

} // verus!
