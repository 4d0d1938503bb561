//! Network byte order reading and writing on byte buffers, and the byte-level
//! specifications that the packet layer is stated in.
use vstd::prelude::*;

use byteorder::{ByteOrder, NetworkEndian};

verus! {

/// The value of two bytes read in network (big endian) byte order.
pub open spec fn be16(hi: u8, lo: u8) -> int {
    hi as int * 256 + lo as int
}

/// The unsigned value of `s` read in network (big endian) byte order.
pub open spec fn be_value(s: Seq<u8>) -> nat
    decreases s.len(),
{
    if s.len() == 0 {
        0
    } else {
        be_value(s.drop_last()) * 256 + s.last() as nat
    }
}

/// The two bytes of `v` in network byte order.
pub open spec fn u16_bytes(v: u16) -> Seq<u8> {
    seq![(v / 256) as u8, (v % 256) as u8]
}

/// The four bytes of `v` in network byte order.
pub open spec fn u32_bytes(v: u32) -> Seq<u8> {
    seq![(v / 0x100_0000) as u8, ((v / 0x1_0000) % 256) as u8, ((v / 256) % 256) as u8, (v % 256) as u8]
}

/// The bytes of each value of `s` in network byte order, one after the other.
pub open spec fn u16s_bytes(s: Seq<u16>) -> Seq<u8> {
    Seq::new(2 * s.len(), |i: int| if i % 2 == 0 { (s[i / 2] / 256) as u8 } else { (s[i / 2] % 256) as u8 })
}

/// `s` with the bytes from `pos` on replaced by `b`; positions past the end of `s` are dropped.
pub open spec fn overlay(s: Seq<u8>, pos: int, b: Seq<u8>) -> Seq<u8> {
    Seq::new(s.len(), |i: int| if pos <= i < pos + b.len() { b[i - pos] } else { s[i] })
}

/// `n` zero bytes.
pub open spec fn zero_bytes(n: nat) -> Seq<u8> {
    Seq::new(n, |i: int| 0u8)
}

/// Reads the network byte order `u16` at `pos` of `buf`.
///
/// Calls `byteorder::NetworkEndian::read_u16` on the two bytes at `pos`; its
/// contract claims that the result is `buf[pos] * 256 + buf[pos + 1]`.
#[verifier::external_body]
pub(crate) fn read_u16_at(buf: &[u8], pos: usize) -> (r: u16)
    requires
        pos + 2 <= buf@.len(),
    ensures
        r as int == be16(buf@[pos as int], buf@[pos + 1]),
{
    NetworkEndian::read_u16(&buf[pos..pos + 2])
}

/// Reads the unsigned network byte order integer of `nbytes` bytes at `pos` of `buf`.
///
/// Calls `byteorder::NetworkEndian::read_uint`, which panics unless
/// `1 <= nbytes <= 8` and the bytes are there; its contract claims the big
/// endian value of the bytes read.
#[verifier::external_body]
pub(crate) fn read_uint_at(buf: &[u8], pos: usize, nbytes: usize) -> (r: u64)
    requires
        1 <= nbytes <= 8,
        pos + nbytes <= buf@.len(),
    ensures
        r as nat == be_value(buf@.subrange(pos as int, pos + nbytes)),
{
    NetworkEndian::read_uint(&buf[pos..], nbytes)
}

/// Writes `v` in network byte order at `pos` of `buf`.
///
/// Calls `byteorder::NetworkEndian::write_u16` on the two bytes at `pos`; its
/// contract claims that exactly those two bytes change, to the bytes of `v`.
#[verifier::external_body]
pub(crate) fn write_u16_at(buf: &mut [u8], pos: usize, v: u16)
    requires
        pos + 2 <= old(buf)@.len(),
    ensures
        final(buf)@ == overlay(old(buf)@, pos as int, u16_bytes(v)),
{
    NetworkEndian::write_u16(&mut buf[pos..pos + 2], v)
}

/// Writes `v` in network byte order at `pos` of `buf`.
///
/// Calls `byteorder::NetworkEndian::write_u32` on the four bytes at `pos`; its
/// contract claims that exactly those four bytes change, to the bytes of `v`.
#[verifier::external_body]
pub(crate) fn write_u32_at(buf: &mut [u8], pos: usize, v: u32)
    requires
        pos + 4 <= old(buf)@.len(),
    ensures
        final(buf)@ == overlay(old(buf)@, pos as int, u32_bytes(v)),
{
    NetworkEndian::write_u32(&mut buf[pos..pos + 4], v)
}

/// Writes every value of `src` in network byte order from `pos` of `buf` on.
///
/// Calls `byteorder::NetworkEndian::write_u16_into` on the `2 * src.len()`
/// bytes at `pos`; its contract claims that exactly those bytes change, to the
/// bytes of the values one after the other.
#[verifier::external_body]
pub(crate) fn write_u16s_at(src: &[u16], buf: &mut [u8], pos: usize)
    requires
        pos + 2 * src@.len() <= old(buf)@.len(),
    ensures
        final(buf)@ == overlay(old(buf)@, pos as int, u16s_bytes(src@)),
{
    NetworkEndian::write_u16_into(src, &mut buf[pos..pos + 2 * src.len()])
}

/// `256` to the power `n`.
pub open spec fn pow256(n: nat) -> nat
    decreases n,
{
    if n == 0 {
        1
    } else {
        256 * pow256((n - 1) as nat)
    }
}

/// The big endian value of `n` bytes is below `256` to the power `n`.
pub proof fn lemma_be_value_bound(s: Seq<u8>)
    ensures
        be_value(s) < pow256(s.len()),
    decreases s.len(),
{
    if s.len() > 0 {
        lemma_be_value_bound(s.drop_last());
        let a = be_value(s.drop_last());
        let b = pow256(s.drop_last().len());
        assert(a * 256 + 255 < b * 256) by (nonlinear_arith)
            requires
                a < b,
        ;
    }
}

/// Reading back the two bytes of `v` gives `v`.
pub proof fn lemma_u16_bytes(v: u16)
    ensures
        u16_bytes(v).len() == 2,
        be16(u16_bytes(v)[0], u16_bytes(v)[1]) == v as int,
{
}

/// The big endian value of four bytes.
pub proof fn lemma_be_value_4(s: Seq<u8>)
    requires
        s.len() == 4,
    ensures
        be_value(s) == s[0] as nat * 0x100_0000 + s[1] as nat * 0x1_0000 + s[2] as nat * 256 + s[3] as nat,
{
    reveal_with_fuel(be_value, 5);
    assert(s.drop_last().drop_last().drop_last().drop_last() =~= Seq::<u8>::empty());
    assert(s.drop_last().drop_last().drop_last() =~= seq![s[0]]);
    assert(s.drop_last().drop_last() =~= seq![s[0], s[1]]);
    assert(s.drop_last() =~= seq![s[0], s[1], s[2]]);
}

/// The big endian value of one byte.
pub proof fn lemma_be_value_1(s: Seq<u8>)
    requires
        s.len() == 1,
    ensures
        be_value(s) == s[0] as nat,
{
    reveal_with_fuel(be_value, 2);
    assert(s.drop_last() =~= Seq::<u8>::empty());
}

/// Reading back the four bytes of `v` gives `v`.
pub proof fn lemma_u32_bytes(v: u32)
    ensures
        u32_bytes(v).len() == 4,
        be_value(u32_bytes(v)) == v as nat,
{
    lemma_be_value_4(u32_bytes(v));
}

} // verus!

verus! {

/// Decodes `b` as UTF-8.
///
/// Calls `std::str::from_utf8`; its contract claims what the function's
/// documentation states: the call succeeds exactly on valid UTF-8 and then
/// gives the characters that the bytes encode.
#[verifier::external_body]
pub(crate) fn utf8_str(b: &[u8]) -> (r: Option<&str>)
    ensures
        r is Some <==> vstd::utf8::valid_utf8(b@),
        r matches Some(s) ==> s@ == vstd::utf8::decode_utf8(b@),
{
    std::str::from_utf8(b).ok()
}

} // verus!
