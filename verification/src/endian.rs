//! Fixed-width integers as byte strings.
use byteorder::{BigEndian, ByteOrder, LittleEndian};
use vstd::prelude::*;

verus! {

/// The number whose little-endian digits in base 256 are `s`.
pub open spec fn le_value(s: Seq<u8>) -> nat
    decreases s.len(),
{
    if s.len() == 0 {
        0
    } else {
        s[0] as nat + 256 * le_value(s.skip(1))
    }
}

/// The number whose big-endian digits in base 256 are `s`.
pub open spec fn be_value(s: Seq<u8>) -> nat
    decreases s.len(),
{
    if s.len() == 0 {
        0
    } else {
        256 * be_value(s.drop_last()) + s.last() as nat
    }
}

/// 256 to the power of `k`.
pub open spec fn pow256(k: nat) -> nat
    decreases k,
{
    if k == 0 {
        1
    } else {
        256 * pow256((k - 1) as nat)
    }
}

/// The `len` little-endian digits of `n` in base 256.
pub open spec fn le_bytes(n: nat, len: nat) -> Seq<u8>
    decreases len,
{
    if len == 0 {
        Seq::empty()
    } else {
        seq![(n % 256) as u8] + le_bytes(n / 256, (len - 1) as nat)
    }
}

/// The `len` big-endian digits of `n` in base 256.
pub open spec fn be_bytes(n: nat, len: nat) -> Seq<u8>
    decreases len,
{
    if len == 0 {
        Seq::empty()
    } else {
        be_bytes(n / 256, (len - 1) as nat).push((n % 256) as u8)
    }
}

/// The little-endian digits of a number spell that number.
pub proof fn lemma_le_round_trip(n: nat, len: nat)
    requires
        n < pow256(len),
    ensures
        le_bytes(n, len).len() == len,
        le_value(le_bytes(n, len)) == n,
    decreases len,
{
    if len > 0 {
        lemma_le_round_trip(n / 256, (len - 1) as nat);
        let s = le_bytes(n, len);
        assert(s.skip(1) =~= le_bytes(n / 256, (len - 1) as nat));
    }
}

/// The big-endian digits of a number spell that number.
pub proof fn lemma_be_round_trip(n: nat, len: nat)
    requires
        n < pow256(len),
    ensures
        be_bytes(n, len).len() == len,
        be_value(be_bytes(n, len)) == n,
    decreases len,
{
    if len > 0 {
        lemma_be_round_trip(n / 256, (len - 1) as nat);
        let s = be_bytes(n, len);
        assert(s.drop_last() =~= be_bytes(n / 256, (len - 1) as nat));
    }
}

/// Eight digits in base 256 hold every 64-bit number.
pub proof fn lemma_pow256_8()
    ensures
        pow256(8) == 0x1_0000_0000_0000_0000,
{
    reveal_with_fuel(pow256, 9);
}

/// Trusted: `byteorder::LittleEndian::read_u64`. It reads the first eight bytes
/// of `buf` as a little-endian number and panics on a shorter buffer.
#[verifier::external_body]
pub(crate) fn read_u64_le(buf: &[u8]) -> (n: u64)
    requires
        buf@.len() >= 8,
    ensures
        n == le_value(buf@.subrange(0, 8)),
{
    LittleEndian::read_u64(buf)
}

/// Trusted: `byteorder::LittleEndian::write_u64`. It overwrites the eight
/// bytes of `buf` with the little-endian digits of `n`.
#[verifier::external_body]
pub(crate) fn write_u64_le(buf: &mut [u8; 8], n: u64)
    ensures
        final(buf)@ == le_bytes(n as nat, 8),
{
    LittleEndian::write_u64(buf, n)
}

/// Trusted: `byteorder::BigEndian::read_u64`. It reads the first eight bytes of
/// `buf` as a big-endian number and panics on a shorter buffer.
#[verifier::external_body]
pub(crate) fn read_u64_be(buf: &[u8]) -> (n: u64)
    requires
        buf@.len() >= 8,
    ensures
        n == be_value(buf@.subrange(0, 8)),
{
    BigEndian::read_u64(buf)
}

/// Trusted: `byteorder::BigEndian::write_u64`. It overwrites the eight
/// bytes of `buf` with the big-endian digits of `n`.
#[verifier::external_body]
pub(crate) fn write_u64_be(buf: &mut [u8; 8], n: u64)
    ensures
        final(buf)@ == be_bytes(n as nat, 8),
{
    BigEndian::write_u64(buf, n)
}

/// The number that two bytes spell in network order.
pub open spec fn spec_be_u16(s: Seq<u8>) -> u16 {
    (s[0] as int * 0x100 + s[1] as int) as u16
}

/// The number that four bytes spell in network order.
pub open spec fn spec_be_u32(s: Seq<u8>) -> u32 {
    (s[0] as int * 0x100_0000 + s[1] as int * 0x1_0000 + s[2] as int * 0x100 + s[3] as int) as u32
}

/// The number that eight bytes spell in network order.
pub open spec fn spec_be_u64(s: Seq<u8>) -> u64 {
    (spec_be_u32(s.subrange(0, 4)) as int * 0x1_0000_0000 + spec_be_u32(s.subrange(4, 8)) as int) as u64
}

/// The number that sixteen bytes spell in network order.
pub open spec fn spec_be_u128(s: Seq<u8>) -> u128 {
    (spec_be_u64(s.subrange(0, 8)) as int * 0x1_0000_0000_0000_0000 + spec_be_u64(
        s.subrange(8, 16),
    ) as int) as u128
}

/// Read two bytes at `at` in network order.
pub(crate) fn be_u16(p: &[u8], at: usize) -> (r: u16)
    requires
        at + 2 <= p@.len(),
    ensures
        r == spec_be_u16(p@.subrange(at as int, at + 2)),
{
    let b0: u16 = p[at] as u16;
    let b1: u16 = p[at + 1] as u16;
    b0 * 0x100 + b1
}

/// Read four bytes at `at` in network order.
pub(crate) fn be_u32(p: &[u8], at: usize) -> (r: u32)
    requires
        at + 4 <= p@.len(),
    ensures
        r == spec_be_u32(p@.subrange(at as int, at + 4)),
{
    let b0: u32 = p[at] as u32;
    let b1: u32 = p[at + 1] as u32;
    let b2: u32 = p[at + 2] as u32;
    let b3: u32 = p[at + 3] as u32;
    b0 * 0x100_0000 + b1 * 0x1_0000 + b2 * 0x100 + b3
}

/// Read eight bytes at `at` in network order.
pub(crate) fn be_u64(p: &[u8], at: usize) -> (r: u64)
    requires
        at + 8 <= p@.len(),
    ensures
        r == spec_be_u64(p@.subrange(at as int, at + 8)),
{
    let n: usize = p.len();
    assert(at + 8 <= n);
    let hi: u64 = be_u32(p, at) as u64;
    let lo: u64 = be_u32(p, at + 4) as u64;
    proof {
        let s = p@.subrange(at as int, at + 8);
        assert(s.subrange(0, 4) =~= p@.subrange(at as int, at + 4));
        assert(s.subrange(4, 8) =~= p@.subrange(at + 4, at + 8));
    }
    hi * 0x1_0000_0000 + lo
}

/// Read sixteen bytes at `at` in network order.
pub(crate) fn be_u128(p: &[u8], at: usize) -> (r: u128)
    requires
        at + 16 <= p@.len(),
    ensures
        r == spec_be_u128(p@.subrange(at as int, at + 16)),
{
    let n: usize = p.len();
    assert(at + 16 <= n);
    let hi: u128 = be_u64(p, at) as u128;
    let lo: u128 = be_u64(p, at + 8) as u128;
    proof {
        let s = p@.subrange(at as int, at + 16);
        assert(s.subrange(0, 8) =~= p@.subrange(at as int, at + 8));
        assert(s.subrange(8, 16) =~= p@.subrange(at + 8, at + 16));
    }
    hi * 0x1_0000_0000_0000_0000 + lo
}

} // verus!
