//! Little-endian numbers in byte buffers.
//!
//! The numbers are read and written by the `bytes` crate.
use bytes::{Buf, BufMut};
use vstd::prelude::*;

verus! {

/// The `len` lowest bytes of `n`, the lowest first.
pub open spec fn le_bytes(n: nat, len: nat) -> Seq<u8>
    decreases len,
{
    if len == 0 {
        Seq::empty()
    } else {
        seq![(n % 256) as u8] + le_bytes(n / 256, (len - 1) as nat)
    }
}

/// The number that the bytes write, the lowest first.
pub open spec fn le_value(s: Seq<u8>) -> nat
    decreases s.len(),
{
    if s.len() == 0 {
        0
    } else {
        (s[0] + 256 * le_value(s.drop_first())) as nat
    }
}

/// 256 to the power of `len`.
pub open spec fn pow256(len: nat) -> nat
    decreases len,
{
    if len == 0 {
        1
    } else {
        256 * pow256((len - 1) as nat)
    }
}

/// The number in two's complement on 64 bits.
pub open spec fn i64_bits(n: i64) -> nat {
    if n >= 0 {
        n as nat
    } else {
        (n + 0x1_0000_0000_0000_0000) as nat
    }
}

/// `le_bytes` has the asked length.
pub proof fn lemma_le_bytes_len(n: nat, len: nat)
    ensures
        le_bytes(n, len).len() == len,
    decreases len,
{
    if len > 0 {
        lemma_le_bytes_len(n / 256, (len - 1) as nat);
    }
}

/// A number is read back from its bytes.
pub proof fn lemma_le_roundtrip(n: nat, len: nat)
    requires
        n < pow256(len),
    ensures
        le_bytes(n, len).len() == len,
        le_value(le_bytes(n, len)) == n,
    decreases len,
{
    lemma_le_bytes_len(n, len);
    if len > 0 {
        lemma_le_roundtrip(n / 256, (len - 1) as nat);
        assert(le_bytes(n, len).drop_first() =~= le_bytes(n / 256, (len - 1) as nat));
    }
}

/// The powers of 256 that the fixed widths need.
pub proof fn lemma_pow256_values()
    ensures
        pow256(2) == 0x1_0000,
        pow256(4) == 0x1_0000_0000,
        pow256(8) == 0x1_0000_0000_0000_0000,
{
    reveal_with_fuel(pow256, 9);
}

/// `BufMut::put_u16_le` appends the two bytes of the number, the lowest first.
#[verifier::external_body]
pub(crate) fn put_u16_le(buf: &mut Vec<u8>, n: u16)
    ensures
        final(buf)@ == old(buf)@ + le_bytes(n as nat, 2),
{
    buf.put_u16_le(n);
}

/// `BufMut::put_u32_le` appends the four bytes of the number, the lowest first.
#[verifier::external_body]
pub(crate) fn put_u32_le(buf: &mut Vec<u8>, n: u32)
    ensures
        final(buf)@ == old(buf)@ + le_bytes(n as nat, 4),
{
    buf.put_u32_le(n);
}

/// `BufMut::put_u64_le` appends the eight bytes of the number, the lowest first.
#[verifier::external_body]
pub(crate) fn put_u64_le(buf: &mut Vec<u8>, n: u64)
    ensures
        final(buf)@ == old(buf)@ + le_bytes(n as nat, 8),
{
    buf.put_u64_le(n);
}

/// `BufMut::put_i64_le` appends the eight bytes of the number in two's
/// complement, the lowest first.
#[verifier::external_body]
pub(crate) fn put_i64_le(buf: &mut Vec<u8>, n: i64)
    ensures
        final(buf)@ == old(buf)@ + le_bytes(i64_bits(n), 8),
{
    buf.put_i64_le(n);
}

/// `Buf::get_u16_le` reads the number that the first two bytes write. It panics
/// where there are fewer.
#[verifier::external_body]
pub(crate) fn get_u16_le(data: &[u8]) -> (res: u16)
    requires
        data@.len() >= 2,
    ensures
        res == le_value(data@.take(2)),
{
    let mut rest = data;
    rest.get_u16_le()
}

/// `Buf::get_u32_le` reads the number that the first four bytes write. It panics
/// where there are fewer.
#[verifier::external_body]
pub(crate) fn get_u32_le(data: &[u8]) -> (res: u32)
    requires
        data@.len() >= 4,
    ensures
        res == le_value(data@.take(4)),
{
    let mut rest = data;
    rest.get_u32_le()
}

/// `Buf::get_u64_le` reads the number that the first eight bytes write. It
/// panics where there are fewer.
#[verifier::external_body]
pub(crate) fn get_u64_le(data: &[u8]) -> (res: u64)
    requires
        data@.len() >= 8,
    ensures
        res == le_value(data@.take(8)),
{
    let mut rest = data;
    rest.get_u64_le()
}

/// `Buf::get_i64_le` reads the number that the first eight bytes write in two's
/// complement. It panics where there are fewer.
#[verifier::external_body]
pub(crate) fn get_i64_le(data: &[u8]) -> (res: i64)
    requires
        data@.len() >= 8,
    ensures
        i64_bits(res) == le_value(data@.take(8)),
{
    let mut rest = data;
    rest.get_i64_le()
}

} // verus!
