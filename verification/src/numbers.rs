//! Numbers as the fabric writes them: the high byte first.

use vstd::prelude::*;

verus! {

/// The number that four bytes stand for.
pub open spec fn be32(bytes: Seq<u8>) -> u32 {
    (((bytes[0] as int * 256 + bytes[1] as int) * 256 + bytes[2] as int) * 256
        + bytes[3] as int) as u32
}

/// The four bytes that stand for `value`.
pub open spec fn be32_bytes(value: u32) -> Seq<u8> {
    seq![
        (value / 0x100_0000) as u8,
        (value / 0x1_0000 % 256) as u8,
        (value / 0x100 % 256) as u8,
        (value % 256) as u8,
    ]
}

/// The number that two bytes stand for.
pub open spec fn be16(bytes: Seq<u8>) -> u16 {
    (bytes[0] as int * 256 + bytes[1] as int) as u16
}

/// The two bytes that stand for `value`.
pub open spec fn be16_bytes(value: u16) -> Seq<u8> {
    seq![(value / 256) as u8, (value % 256) as u8]
}

/// The number that sixteen bytes stand for.
pub open spec fn be128(bytes: Seq<u8>) -> u128 {
    (((be32(bytes.subrange(0, 4)) as int * 0x1_0000_0000 + be32(bytes.subrange(4, 8)) as int)
        * 0x1_0000_0000 + be32(bytes.subrange(8, 12)) as int) * 0x1_0000_0000 + be32(
        bytes.subrange(12, 16),
    ) as int) as u128
}

/// The sixteen bytes that stand for `value`.
pub open spec fn be128_bytes(value: u128) -> Seq<u8> {
    be32_bytes((value / 0x1_0000_0000_0000_0000_0000_0000) as u32) + be32_bytes(
        (value / 0x1_0000_0000_0000_0000 % 0x1_0000_0000) as u32,
    ) + be32_bytes((value / 0x1_0000_0000 % 0x1_0000_0000) as u32) + be32_bytes(
        (value % 0x1_0000_0000) as u32,
    )
}

/// Reading what was written gives back the number.
pub proof fn lemma_be32_round_trip(value: u32)
    ensures
        be32_bytes(value).len() == 4,
        be32(be32_bytes(value)) == value,
{
}

/// Reading what was written gives back the number.
pub proof fn lemma_be16_round_trip(value: u16)
    ensures
        be16_bytes(value).len() == 2,
        be16(be16_bytes(value)) == value,
{
}

/// A number is its four quarters, each weighed by its place.
proof fn lemma_quarters(value: int)
    requires
        0 <= value < 0x1_0000_0000_0000_0000_0000_0000_0000_0000,
    ensures
        0 <= value / 0x1_0000_0000_0000_0000_0000_0000 < 0x1_0000_0000,
        value == ((value / 0x1_0000_0000_0000_0000_0000_0000 * 0x1_0000_0000 + value
            / 0x1_0000_0000_0000_0000 % 0x1_0000_0000) * 0x1_0000_0000 + value / 0x1_0000_0000
            % 0x1_0000_0000) * 0x1_0000_0000 + value % 0x1_0000_0000,
{
    let low = value / 0x1_0000_0000;
    let mid = low / 0x1_0000_0000;
    assert(value == low * 0x1_0000_0000 + value % 0x1_0000_0000);
    assert(low == mid * 0x1_0000_0000 + low % 0x1_0000_0000);
    assert(mid == value / 0x1_0000_0000_0000_0000);
    let high = mid / 0x1_0000_0000;
    assert(mid == high * 0x1_0000_0000 + mid % 0x1_0000_0000);
    assert(high == value / 0x1_0000_0000_0000_0000_0000_0000);
}

/// Reading what was written gives back the number.
pub proof fn lemma_be128_round_trip(value: u128)
    ensures
        be128_bytes(value).len() == 16,
        be128(be128_bytes(value)) == value,
{
    let a = (value / 0x1_0000_0000_0000_0000_0000_0000) as u32;
    let b = (value / 0x1_0000_0000_0000_0000 % 0x1_0000_0000) as u32;
    let c = (value / 0x1_0000_0000 % 0x1_0000_0000) as u32;
    let d = (value % 0x1_0000_0000) as u32;
    let bytes = be128_bytes(value);
    assert(bytes.len() == 16);
    assert(bytes.subrange(0, 4) =~= be32_bytes(a));
    assert(bytes.subrange(4, 8) =~= be32_bytes(b));
    assert(bytes.subrange(8, 12) =~= be32_bytes(c));
    assert(bytes.subrange(12, 16) =~= be32_bytes(d));
    assert(be32(be32_bytes(a)) == a) by {
        lemma_be32_round_trip(a);
    }
    assert(be32(be32_bytes(b)) == b) by {
        lemma_be32_round_trip(b);
    }
    assert(be32(be32_bytes(c)) == c) by {
        lemma_be32_round_trip(c);
    }
    assert(be32(be32_bytes(d)) == d) by {
        lemma_be32_round_trip(d);
    }
    lemma_quarters(value as int);
}

/// Writes `value` behind `out`.
pub fn push_be16(out: &mut Vec<u8>, value: u16)
    ensures
        final(out)@ == old(out)@ + be16_bytes(value),
{
    out.push((value / 256) as u8);
    out.push((value % 256) as u8);
    assert(out@ =~= old(out)@ + be16_bytes(value));
}

/// Writes `value` behind `out`.
pub fn push_be32(out: &mut Vec<u8>, value: u32)
    ensures
        final(out)@ == old(out)@ + be32_bytes(value),
{
    out.push((value / 0x100_0000) as u8);
    out.push((value / 0x1_0000 % 256) as u8);
    out.push((value / 0x100 % 256) as u8);
    out.push((value % 256) as u8);
    assert(out@ =~= old(out)@ + be32_bytes(value));
}

/// Writes `value` behind `out`.
pub fn push_be128(out: &mut Vec<u8>, value: u128)
    ensures
        final(out)@ == old(out)@ + be128_bytes(value),
{
    push_be32(out, (value / 0x1_0000_0000_0000_0000_0000_0000) as u32);
    push_be32(out, (value / 0x1_0000_0000_0000_0000 % 0x1_0000_0000) as u32);
    push_be32(out, (value / 0x1_0000_0000 % 0x1_0000_0000) as u32);
    push_be32(out, (value % 0x1_0000_0000) as u32);
    assert(out@ =~= old(out)@ + be128_bytes(value));
}

/// Reads the number that stands in the two bytes of `bytes` from `at` on.
pub fn read_be16(bytes: &[u8], at: usize) -> (value: u16)
    requires
        at + 2 <= bytes@.len(),
    ensures
        value == be16(bytes@.subrange(at as int, at + 2)),
{
    bytes[at] as u16 * 256 + bytes[at + 1] as u16
}

/// Reads the number that stands in the four bytes of `bytes` from `at` on.
pub fn read_be32(bytes: &[u8], at: usize) -> (value: u32)
    requires
        at + 4 <= bytes@.len(),
    ensures
        value == be32(bytes@.subrange(at as int, at + 4)),
{
    ((bytes[at] as u32 * 256 + bytes[at + 1] as u32) * 256 + bytes[at + 2] as u32) * 256
        + bytes[at + 3] as u32
}

/// Reads the number that stands in the sixteen bytes of `bytes` from `at`
/// on.
pub fn read_be128(bytes: &[u8], at: usize) -> (value: u128)
    requires
        at + 16 <= bytes@.len(),
    ensures
        value == be128(bytes@.subrange(at as int, at + 16)),
{
    let total = bytes.len();
    let a = read_be32(bytes, at);
    let b = read_be32(bytes, at + 4);
    let c = read_be32(bytes, at + 8);
    let d = read_be32(bytes, at + 12);
    proof {
        let part = bytes@.subrange(at as int, at + 16);
        assert(part.subrange(0, 4) =~= bytes@.subrange(at as int, at + 4));
        assert(part.subrange(4, 8) =~= bytes@.subrange(at + 4, at + 8));
        assert(part.subrange(8, 12) =~= bytes@.subrange(at + 8, at + 12));
        assert(part.subrange(12, 16) =~= bytes@.subrange(at + 12, at + 16));
    }
    ((a as u128 * 0x1_0000_0000 + b as u128) * 0x1_0000_0000 + c as u128) * 0x1_0000_0000
        + d as u128
}

} // verus!
