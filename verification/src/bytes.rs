//! Big-endian integers in byte strings.

use vstd::prelude::*;

verus! {

/// Four bytes of `v`, most significant first.
pub open spec fn be32(v: u32) -> Seq<u8> {
    seq![
        (v / 0x100_0000) as u8,
        (v / 0x1_0000 % 0x100) as u8,
        (v / 0x100 % 0x100) as u8,
        (v % 0x100) as u8,
    ]
}

/// The big-endian integer at `at`.
pub open spec fn be32_at(s: Seq<u8>, at: int) -> u32 {
    (s[at] * 0x100_0000 + s[at + 1] * 0x1_0000 + s[at + 2] * 0x100 + s[at + 3]) as u32
}

/// Two bytes of `v`, most significant first.
pub open spec fn be16(v: u16) -> Seq<u8> {
    seq![(v / 0x100) as u8, (v % 0x100) as u8]
}

/// The big-endian 16-bit integer at `at`.
pub open spec fn be16_at(s: Seq<u8>, at: int) -> u16 {
    (s[at] * 0x100 + s[at + 1]) as u16
}

/// Reading gives back what was written.
pub proof fn be32_roundtrip(v: u32)
    ensures
        be32_at(be32(v), 0) == v,
{
    let b = be32(v);
    assert(b[0] == v / 0x100_0000 && b[1] == v / 0x1_0000 % 0x100 && b[2] == v / 0x100 % 0x100 && b[3] == v
        % 0x100);
    assert(v / 0x100_0000 * 0x100_0000 + v / 0x1_0000 % 0x100 * 0x1_0000 + v / 0x100 % 0x100 * 0x100 + v % 0x100 == v)
        by (bit_vector);
}

/// Writing gives back what was read.
pub proof fn be32_at_roundtrip(s: Seq<u8>, at: int)
    requires
        0 <= at,
        at + 4 <= s.len(),
    ensures
        be32(be32_at(s, at)) == s.subrange(at, at + 4),
{
    let v = be32_at(s, at);
    let a = s[at] as u32;
    let b = s[at + 1] as u32;
    let c = s[at + 2] as u32;
    let d = s[at + 3] as u32;
    assert(v == a * 0x100_0000 + b * 0x1_0000 + c * 0x100 + d);
    assert(v / 0x100_0000 == a && v / 0x1_0000 % 0x100 == b && v / 0x100 % 0x100 == c && v % 0x100 == d)
        by (bit_vector)
        requires
            v == a * 0x100_0000 + b * 0x1_0000 + c * 0x100 + d,
            a < 0x100,
            b < 0x100,
            c < 0x100,
            d < 0x100,
    ;
    assert(be32(v) =~= s.subrange(at, at + 4));
}

/// Different integers have different bytes.
pub proof fn be32_injective(a: u32, b: u32)
    requires
        be32(a) == be32(b),
    ensures
        a == b,
{
    be32_roundtrip(a);
    be32_roundtrip(b);
}

/// Reading gives back what was written.
pub proof fn be16_roundtrip(v: u16)
    ensures
        be16_at(be16(v), 0) == v,
{
    let b = be16(v);
    assert(b[0] == v / 0x100 && b[1] == v % 0x100);
}

/// Reads the big-endian integer at `at`.
pub fn get_be32(buf: &[u8], at: usize) -> (v: u32)
    requires
        at + 4 <= buf@.len(),
    ensures
        v == be32_at(buf@, at as int),
{
    buf[at] as u32 * 0x100_0000 + buf[at + 1] as u32 * 0x1_0000 + buf[at + 2] as u32 * 0x100 + buf[at + 3] as u32
}

/// The bytes of `v`.
pub fn be32_bytes(v: u32) -> (b: [u8; 4])
    ensures
        b@ == be32(v),
{
    let b = [
        (v / 0x100_0000) as u8,
        (v / 0x1_0000 % 0x100) as u8,
        (v / 0x100 % 0x100) as u8,
        (v % 0x100) as u8,
    ];
    assert(b@ =~= be32(v));
    b
}

/// The most significant byte comes first: read from left to right, the bytes are
/// the digits of the integer to the base 256.
pub proof fn big_end_comes_first(v: u32, w: u16)
    ensures
        be32(v).len() == 4,
        be32(v)[0] * 0x100_0000 + be32(v)[1] * 0x1_0000 + be32(v)[2] * 0x100 + be32(v)[3] == v,
        be16(w).len() == 2,
        be16(w)[0] * 0x100 + be16(w)[1] == w,
{
    be32_roundtrip(v);
    let b = be32(v);
    assert(v / 0x100_0000 * 0x100_0000 + v / 0x1_0000 % 0x100 * 0x1_0000 + v / 0x100 % 0x100 * 0x100 + v % 0x100 == v)
        by (bit_vector);
    assert(b[0] == v / 0x100_0000 && b[1] == v / 0x1_0000 % 0x100 && b[2] == v / 0x100 % 0x100 && b[3] == v % 0x100);
}

} // verus!
