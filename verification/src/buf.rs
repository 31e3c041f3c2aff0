//! Byte buffers and big-endian numbers.

use bytes::{Buf, BufMut, BytesMut};
use vstd::prelude::*;

verus! {

/// The growable buffer of the `bytes` crate.
#[verifier::external_type_specification]
#[verifier::external_body]
pub struct ExBytesMut(BytesMut);

/// The bytes that a buffer holds, from the next one to be read to the last one written.
pub uninterp spec fn buffered(buf: BytesMut) -> Seq<u8>;

/// Big-endian bytes of a 16-bit number.
pub open spec fn be16(n: u16) -> Seq<u8> {
    seq![(n / 0x100) as u8, (n % 0x100) as u8]
}

/// Big-endian bytes of the low 24 bits of a number.
pub open spec fn be24(n: u32) -> Seq<u8> {
    seq![(n / 0x1_0000 % 0x100) as u8, (n / 0x100 % 0x100) as u8, (n % 0x100) as u8]
}

/// Big-endian bytes of a 32-bit number.
pub open spec fn be32(n: u32) -> Seq<u8> {
    seq![
        (n / 0x100_0000) as u8,
        (n / 0x1_0000 % 0x100) as u8,
        (n / 0x100 % 0x100) as u8,
        (n % 0x100) as u8,
    ]
}

/// The number that the first two bytes spell, big-endian.
pub open spec fn from_be16(s: Seq<u8>) -> u16 {
    (s[0] * 0x100 + s[1]) as u16
}

/// The number that the first three bytes spell, big-endian.
pub open spec fn from_be24(s: Seq<u8>) -> u32 {
    (s[0] * 0x1_0000 + s[1] * 0x100 + s[2]) as u32
}

/// The number that the first four bytes spell, big-endian.
pub open spec fn from_be32(s: Seq<u8>) -> u32 {
    (s[0] * 0x100_0000 + s[1] * 0x1_0000 + s[2] * 0x100 + s[3]) as u32
}

/// Reading back a 16-bit number gives the number that was written.
pub proof fn be16_round_trip(n: u16)
    ensures
        from_be16(be16(n)) == n,
{
}

/// Reading back a 24-bit number gives the number that was written.
pub proof fn be24_round_trip(n: u32)
    requires
        n < 0x100_0000,
    ensures
        from_be24(be24(n)) == n,
{
}

/// Reading back a 32-bit number gives the number that was written.
pub proof fn be32_round_trip(n: u32)
    ensures
        from_be32(be32(n)) == n,
{
}

/// Big-endian bytes tell 32-bit numbers apart.
pub proof fn be32_injective(m: u32, n: u32)
    requires
        be32(m) == be32(n),
    ensures
        m == n,
{
    be32_round_trip(m);
    be32_round_trip(n);
}

/// Calls `BytesMut::new`, which makes an empty buffer.
#[verifier::external_body]
pub(crate) fn empty() -> (r: BytesMut)
    ensures
        buffered(r) == Seq::<u8>::empty(),
{
    BytesMut::new()
}

/// Calls `BytesMut::from` on a slice, which copies the slice into a new buffer.
#[verifier::external_body]
pub(crate) fn from_slice(data: &[u8]) -> (r: BytesMut)
    ensures
        buffered(r) == data@,
{
    BytesMut::from(data)
}

/// Copies out what a buffer holds, as `<[u8]>::to_vec` does on the slice that
/// `BytesMut` dereferences to.
#[verifier::external_body]
pub(crate) fn to_vec(buf: &BytesMut) -> (r: Vec<u8>)
    ensures
        r@ == buffered(*buf),
{
    buf.to_vec()
}

/// Calls `Buf::remaining`, the number of bytes that the buffer holds.
#[verifier::external_body]
pub(crate) fn remaining(buf: &BytesMut) -> (r: usize)
    ensures
        r == buffered(*buf).len(),
{
    buf.remaining()
}

/// Calls `BufMut::put_u8`, which appends one byte.
#[verifier::external_body]
pub(crate) fn put_u8(buf: &mut BytesMut, n: u8)
    ensures
        buffered(*final(buf)) == buffered(*old(buf)).push(n),
{
    buf.put_u8(n);
}

/// Calls `BufMut::put_u16`, which appends the number big-endian.
#[verifier::external_body]
pub(crate) fn put_u16(buf: &mut BytesMut, n: u16)
    ensures
        buffered(*final(buf)) == buffered(*old(buf)) + be16(n),
{
    buf.put_u16(n);
}

/// Calls `BufMut::put_u32`, which appends the number big-endian.
#[verifier::external_body]
pub(crate) fn put_u32(buf: &mut BytesMut, n: u32)
    ensures
        buffered(*final(buf)) == buffered(*old(buf)) + be32(n),
{
    buf.put_u32(n);
}

/// Calls `BufMut::put_bytes`, which appends `count` times the same byte; it panics
/// when the length overflows, which takes a count above `isize::MAX`.
#[verifier::external_body]
pub(crate) fn put_bytes(buf: &mut BytesMut, byte: u8, count: usize)
    requires
        count <= isize::MAX,
    ensures
        buffered(*final(buf)) == buffered(*old(buf)) + Seq::new(count as nat, |i: int| byte),
{
    buf.put_bytes(byte, count);
}

/// Calls `BufMut::put_slice`, which appends the slice.
#[verifier::external_body]
pub(crate) fn put_slice(buf: &mut BytesMut, data: &[u8])
    ensures
        buffered(*final(buf)) == buffered(*old(buf)) + data@,
{
    buf.put_slice(data);
}

/// Calls `Buf::get_u8`, which takes the first byte; it panics on an empty buffer.
#[verifier::external_body]
pub(crate) fn get_u8(buf: &mut BytesMut) -> (r: u8)
    requires
        buffered(*old(buf)).len() >= 1,
    ensures
        r == buffered(*old(buf))[0],
        buffered(*final(buf)) == buffered(*old(buf)).skip(1),
{
    buf.get_u8()
}

/// Calls `Buf::get_u16`, which takes two bytes as a big-endian number; it
/// panics when fewer are left.
#[verifier::external_body]
pub(crate) fn get_u16(buf: &mut BytesMut) -> (r: u16)
    requires
        buffered(*old(buf)).len() >= 2,
    ensures
        r == from_be16(buffered(*old(buf))),
        buffered(*final(buf)) == buffered(*old(buf)).skip(2),
{
    buf.get_u16()
}

/// Calls `Buf::get_u32`, which takes four bytes as a big-endian number; it
/// panics when fewer are left.
#[verifier::external_body]
pub(crate) fn get_u32(buf: &mut BytesMut) -> (r: u32)
    requires
        buffered(*old(buf)).len() >= 4,
    ensures
        r == from_be32(buffered(*old(buf))),
        buffered(*final(buf)) == buffered(*old(buf)).skip(4),
{
    buf.get_u32()
}

/// Calls `Buf::advance`, which drops the first bytes; it panics when fewer are left.
#[verifier::external_body]
pub(crate) fn advance(buf: &mut BytesMut, count: usize)
    requires
        count <= buffered(*old(buf)).len(),
    ensures
        buffered(*final(buf)) == buffered(*old(buf)).skip(count as int),
{
    buf.advance(count);
}

/// Calls `BytesMut::split_to`, which takes the first bytes off; it panics when
/// fewer are left.
#[verifier::external_body]
pub(crate) fn split_to(buf: &mut BytesMut, count: usize) -> (r: Vec<u8>)
    requires
        count <= buffered(*old(buf)).len(),
    ensures
        r@ == buffered(*old(buf)).take(count as int),
        buffered(*final(buf)) == buffered(*old(buf)).skip(count as int),
{
    buf.split_to(count).to_vec()
}

/// Numbers are written with their most significant byte first.
pub proof fn most_significant_byte_first(a: u16, b: u32, s: Seq<u8>)
    ensures
        be16(a).len() == 2 && be16(a)[0] * 0x100 + be16(a)[1] == a,
        be32(b).len() == 4 && be32(b)[0] * 0x100_0000 + be32(b)[1] * 0x1_0000 + be32(b)[2] * 0x100
            + be32(b)[3] == b,
        be24(b).len() == 3 && be24(b)[0] * 0x1_0000 + be24(b)[1] * 0x100 + be24(b)[2] == b
            % 0x100_0000,
        s.len() >= 2 ==> from_be16(s) == s[0] * 0x100 + s[1],
        s.len() >= 3 ==> from_be24(s) == s[0] * 0x1_0000 + s[1] * 0x100 + s[2],
        s.len() >= 4 ==> from_be32(s) == s[0] * 0x100_0000 + s[1] * 0x1_0000 + s[2] * 0x100 + s[3],
{
}

} // verus!
