//! LEB128 variable-length integers and the zigzag map that carries signed
//! deltas over them.

use vstd::prelude::*;

verus! {

/// Longest encoding of a `u64`, in bytes.
pub const VARINT_U64_MAX: usize = 10;

/// Why a variable-length integer cannot be read.
#[derive(Clone, Copy, PartialEq, Eq, Structural, Debug)]
pub enum VarintError {
    /// The text ends inside the integer.
    Truncated,
    /// The integer is wider than 64 bits.
    Overflow,
}

/// LEB128: seven bits a byte, least significant first, the high bit set on
/// every byte but the last.
pub open spec fn varint(v: nat) -> Seq<u8>
    decreases v,
{
    if v < 128 {
        seq![v as u8]
    } else {
        seq![(v % 128 + 128) as u8] + varint(v / 128)
    }
}

/// What is read at the front of `s` when `i` bytes of the integer are already
/// behind: the value of the remaining bytes and the text after them. The tenth
/// byte carries only the 64th bit.
pub open spec fn varint_from(s: Seq<u8>, i: nat) -> Result<(nat, Seq<u8>), VarintError>
    decreases VARINT_U64_MAX - i,
{
    if i >= VARINT_U64_MAX {
        Err(VarintError::Overflow)
    } else if s.len() == 0 {
        Err(VarintError::Truncated)
    } else if i == VARINT_U64_MAX - 1 && s[0] % 128 > 1 {
        Err(VarintError::Overflow)
    } else if s[0] < 128 {
        Ok((s[0] as nat, s.drop_first()))
    } else {
        match varint_from(s.drop_first(), i + 1) {
            Ok((v, rest)) => Ok(((s[0] % 128) as nat + 128 * v, rest)),
            Err(e) => Err(e),
        }
    }
}

/// The integer at the front of `s` and the text after it.
pub open spec fn parse_varint(s: Seq<u8>) -> Result<(nat, Seq<u8>), VarintError> {
    varint_from(s, 0)
}

/// Signed to unsigned: 0, -1, 1, -2, … become 0, 1, 2, 3, …
pub open spec fn spec_zigzag(v: int) -> nat {
    if v >= 0 {
        (2 * v) as nat
    } else {
        (-2 * v - 1) as nat
    }
}

/// Inverse of [`spec_zigzag`].
pub open spec fn spec_unzigzag(n: nat) -> int {
    if n % 2 == 0 {
        (n / 2) as int
    } else {
        -((n / 2) as int) - 1
    }
}

/// `128` to the power `i`.
pub open spec fn pow128(i: nat) -> nat
    decreases i,
{
    if i == 0 {
        1
    } else {
        128 * pow128((i - 1) as nat)
    }
}

proof fn lemma_pow128(i: nat)
    requires
        i <= 9,
    ensures
        pow128(i) >= 1,
        pow128(i) <= 0x8000_0000_0000_0000,
        i <= 8 ==> pow128(i) <= 0x100_0000_0000_0000,
        i == 9 ==> pow128(i) == 0x8000_0000_0000_0000,
        i + 1 <= 9 ==> pow128(i + 1) == 128 * pow128(i),
{
    reveal_with_fuel(pow128, 11);
}

/// Zigzag is undone by its inverse.
pub proof fn zigzag_roundtrip(v: int)
    ensures
        spec_unzigzag(spec_zigzag(v)) == v,
{
}

/// The inverse of zigzag is undone by zigzag.
pub proof fn unzigzag_roundtrip(n: nat)
    ensures
        spec_zigzag(spec_unzigzag(n)) == n,
{
}

/// A value below `128^n` takes at most `n` bytes.
pub proof fn lemma_varint_len(v: nat, n: nat)
    requires
        v < pow128(n),
        n >= 1,
    ensures
        1 <= varint(v).len() <= n,
    decreases v,
{
    if v >= 128 {
        assert(n >= 2) by {
            reveal_with_fuel(pow128, 3);
        }
        assert(v / 128 < pow128((n - 1) as nat));
        lemma_varint_len(v / 128, (n - 1) as nat);
    }
}

/// A `u64` takes at most ten bytes.
pub proof fn lemma_varint_len_u64(v: nat)
    requires
        v <= u64::MAX,
    ensures
        1 <= varint(v).len() <= VARINT_U64_MAX,
{
    reveal_with_fuel(pow128, 11);
    lemma_varint_len(v, 10);
}

/// Reading with `i` bytes behind gives back a value that fits in what is left
/// of the 64 bits.
proof fn lemma_varint_from_roundtrip(v: nat, i: nat, tail: Seq<u8>)
    requires
        i <= 9,
        v * pow128(i) <= u64::MAX,
    ensures
        varint_from(varint(v) + tail, i) == Ok::<(nat, Seq<u8>), VarintError>((v, tail)),
    decreases v,
{
    lemma_pow128(i);
    let s = varint(v) + tail;
    if i == 9 {
        assert(v <= 1) by (nonlinear_arith)
            requires
                v * pow128(i) <= u64::MAX,
                pow128(i) == 0x8000_0000_0000_0000,
        ;
    }
    if v < 128 {
        assert(s[0] == v as u8);
        assert(s.drop_first() =~= tail);
    } else {
        assert(i < 9);
        let q = v / 128;
        assert(q * pow128(i + 1) <= u64::MAX) by (nonlinear_arith)
            requires
                v * pow128(i) <= u64::MAX,
                pow128(i + 1) == 128 * pow128(i),
                128 * q <= v,
                pow128(i) >= 1,
        ;
        lemma_varint_from_roundtrip(q, i + 1, tail);
        assert(s[0] == (v % 128 + 128) as u8);
        assert(s.drop_first() =~= varint(q) + tail);
    }
}

/// Reading gives back what was written, and leaves what follows it.
pub proof fn varint_roundtrip(v: nat, tail: Seq<u8>)
    requires
        v <= u64::MAX,
    ensures
        parse_varint(varint(v) + tail) == Ok::<(nat, Seq<u8>), VarintError>((v, tail)),
{
    assert(pow128(0) == 1);
    assert(v * pow128(0) == v) by (nonlinear_arith)
        requires
            pow128(0) == 1,
    ;
    lemma_varint_from_roundtrip(v, 0, tail);
}

/// A value that was read fits in 64 bits, and the text got shorter.
pub proof fn lemma_parse_varint_bounds(s: Seq<u8>)
    ensures
        parse_varint(s) matches Ok((v, rest)) ==> v <= u64::MAX && rest.len() < s.len(),
{
    lemma_varint_from_bounds(s, 0);
    if let Ok((v, rest)) = parse_varint(s) {
        assert(v * pow128(0) == v) by (nonlinear_arith)
            requires
                pow128(0) == 1,
        ;
    }
}

proof fn lemma_varint_from_bounds(s: Seq<u8>, i: nat)
    requires
        i <= 10,
    ensures
        varint_from(s, i) matches Ok((v, rest)) ==> i <= 9 && v * pow128(i) + pow128(i) <= 0x1_0000_0000_0000_0000
            && rest.len() < s.len(),
    decreases 10 - i,
{
    if i <= 9 && s.len() > 0 {
        lemma_pow128(i);
        if i == 9 && s[0] % 128 > 1 {
        } else if s[0] < 128 {
            let v = s[0] as nat;
            let p = pow128(i);
            if i == 9 {
                assert(v * p + p <= 0x1_0000_0000_0000_0000) by (nonlinear_arith)
                    requires
                        v <= 1,
                        p == 0x8000_0000_0000_0000,
                ;
            } else {
                assert(v * p + p <= 0x1_0000_0000_0000_0000) by (nonlinear_arith)
                    requires
                        v <= 127,
                        p <= 0x100_0000_0000_0000,
                ;
            }
        } else {
            lemma_varint_from_bounds(s.drop_first(), i + 1);
            if let Ok((w, rest)) = varint_from(s.drop_first(), i + 1) {
                let v = (s[0] % 128) as nat + 128 * w;
                let p = pow128(i);
                let p1 = pow128(i + 1);
                assert(v * p + p <= 0x1_0000_0000_0000_0000) by (nonlinear_arith)
                    requires
                        v <= 127 + 128 * w,
                        p1 == 128 * p,
                        w * p1 + p1 <= 0x1_0000_0000_0000_0000,
                ;
            }
        }
    }
}

/// Zigzag of a 64-bit difference.
pub fn zigzag(v: i64) -> (n: u64)
    ensures
        n == spec_zigzag(v as int),
{
    if v >= 0 {
        (v as u64) * 2
    } else {
        ((-(v + 1)) as u64) * 2 + 1
    }
}

/// Inverse of [`zigzag`].
pub fn unzigzag(n: u64) -> (v: i64)
    ensures
        v == spec_unzigzag(n as nat),
{
    if n % 2 == 0 {
        (n / 2) as i64
    } else {
        -((n / 2) as i64) - 1
    }
}

/// Length of the LEB128 encoding of `v`.
pub fn varint_len(v: u64) -> (n: usize)
    ensures
        n == varint(v as nat).len(),
{
    let mut rest: u64 = v;
    let mut n: usize = 1;
    proof {
        lemma_varint_len_u64(v as nat);
    }
    while rest >= 0x80
        invariant
            1 <= n,
            n - 1 + varint(rest as nat).len() == varint(v as nat).len(),
            varint(v as nat).len() <= 10,
        decreases rest,
    {
        rest = rest / 128;
        n = n + 1;
    }
    n
}

/// Reads the integer at the front of `text`; gives it and the text after it.
pub fn take_varint(text: &[u8]) -> (r: Result<(u64, &[u8]), VarintError>)
    ensures
        match (r, parse_varint(text@)) {
            (Ok((v, rest)), Ok((w, tail))) => v == w && rest@ == tail,
            (Err(e), Err(f)) => e == f,
            _ => false,
        },
{
    let mut v: u64 = 0;
    let mut scale: u64 = 1;
    let mut i: usize = 0;
    assert(text@.skip(0) =~= text@);
    while i < VARINT_U64_MAX
        invariant
            i <= 10,
            i <= text@.len(),
            i <= 9 ==> scale == pow128(i as nat),
            i <= 9 ==> v < scale,
            match (parse_varint(text@), varint_from(text@.skip(i as int), i as nat)) {
                (Ok((w, tail)), Ok((u, rest))) => w == v + pow128(i as nat) * u && tail == rest,
                (Err(e), Err(f)) => e == f,
                _ => false,
            },
        decreases 10 - i,
    {
        let ghost here = text@.skip(i as int);
        if i >= text.len() {
            return Err(VarintError::Truncated);
        }
        let byte: u8 = text[i];
        assert(here[0] == byte);
        assert(here.drop_first() =~= text@.skip(i + 1));
        let bits: u64 = (byte % 128) as u64;
        if i == VARINT_U64_MAX - 1 && bits > 1 {
            return Err(VarintError::Overflow);
        }
        proof {
            lemma_pow128(i as nat);
            if i == 9 {
                assert(v + scale * bits <= u64::MAX) by (nonlinear_arith)
                    requires
                        v < scale,
                        scale == 0x8000_0000_0000_0000,
                        bits <= 1,
                ;
            } else {
                assert(v + scale * bits < 128 * scale) by (nonlinear_arith)
                    requires
                        v < scale,
                        bits <= 127,
                ;
            }
            assert(0 <= scale * bits) by (nonlinear_arith);
        }
        let ghost before: nat = v as nat;
        v = v + scale * bits;
        if byte < 128 {
            assert(pow128(i as nat) * (byte as nat) == scale * bits);
            return Ok((v, vstd::slice::slice_subrange(text, i + 1, text.len())));
        }
        proof {
            if let Ok((u, rest)) = varint_from(text@.skip(i + 1), (i + 1) as nat) {
                lemma_varint_from_bounds(text@.skip(i + 1), (i + 1) as nat);
                let p = pow128(i as nat);
                assert(p * (bits as nat + 128 * u) == p * bits + (128 * p) * u) by (nonlinear_arith);
            }
        }
        if i < 9 {
            scale = scale * 128;
        }
        i = i + 1;
    }
    Err(VarintError::Overflow)
}

/// Seven bits a byte, the least significant first, and the high bit on all bytes
/// but the last.
pub proof fn low_bits_come_first(v: nat)
    ensures
        varint(v).len() > 0,
        varint(v)[0] % 128 == v % 128,
        v < 128 ==> varint(v) == seq![v as u8],
        v >= 128 ==> varint(v)[0] >= 128 && varint(v).skip(1) == varint(v / 128),
        varint(v).last() < 128,
        forall|i: int| 0 <= i < varint(v).len() - 1 ==> #[trigger] varint(v)[i] >= 128,
    decreases v,
{
    if v >= 128 {
        low_bits_come_first(v / 128);
        let all = varint(v);
        let rest = varint(v / 128);
        assert(all.skip(1) =~= rest);
        assert forall|i: int| 0 <= i < all.len() - 1 implies #[trigger] all[i] >= 128 by {
            if i > 0 {
                assert(all[i] == rest[i - 1]);
            }
        }
        assert(all.last() == rest.last());
    }
}

/// The value of the bytes of `s` up to byte `n`.
pub open spec fn bytes_value(s: Seq<u8>, n: nat) -> nat
    decreases n,
{
    if n == 0 {
        (s[0] % 128) as nat
    } else {
        (s[0] % 128) as nat + 128 * bytes_value(s.drop_first(), (n - 1) as nat)
    }
}

proof fn lemma_reads_on(s: Seq<u8>, i: nat, n: nat)
    requires
        i + n < 10,
        n < s.len(),
        forall|k: int| 0 <= k < n ==> #[trigger] s[k] >= 128,
        s[n as int] < 128,
        i + n == 9 ==> s[n as int] <= 1,
    ensures
        varint_from(s, i) == Ok::<(nat, Seq<u8>), VarintError>((bytes_value(s, n), s.skip(n as int + 1))),
    decreases n,
{
    if n == 0 {
        assert(s.skip(1) =~= s.drop_first());
    } else {
        let t = s.drop_first();
        assert(s[0] >= 128);
        assert forall|k: int| 0 <= k < n - 1 implies #[trigger] t[k] >= 128 by {
            assert(s[k + 1] >= 128);
        }
        lemma_reads_on(t, i + 1, (n - 1) as nat);
        assert(t.skip(n as int) =~= s.skip(n as int + 1));
    }
}

/// An integer ends with its first byte without the high bit, and has the value of
/// its bytes, whether or not it is written in the fewest; the text behind it is
/// left. The tenth byte may be no more than one.
pub proof fn integers_end_with_a_low_byte(s: Seq<u8>, n: nat)
    requires
        n < 10,
        n < s.len(),
        forall|k: int| 0 <= k < n ==> #[trigger] s[k] >= 128,
        s[n as int] < 128,
        n == 9 ==> s[9] <= 1,
    ensures
        parse_varint(s) == Ok::<(nat, Seq<u8>), VarintError>((bytes_value(s, n), s.skip(n as int + 1))),
{
    lemma_reads_on(s, 0, n);
}

proof fn lemma_cut(s: Seq<u8>, i: nat)
    requires
        i + s.len() < 10,
        forall|k: int| 0 <= k < s.len() ==> #[trigger] s[k] >= 128,
    ensures
        varint_from(s, i) == Err::<(nat, Seq<u8>), VarintError>(VarintError::Truncated),
    decreases s.len(),
{
    if s.len() > 0 {
        assert(s[0] >= 128);
        let t = s.drop_first();
        assert forall|k: int| 0 <= k < t.len() implies #[trigger] t[k] >= 128 by {
            assert(s[k + 1] >= 128);
        }
        lemma_cut(t, i + 1);
    }
}

proof fn lemma_wide(s: Seq<u8>, i: nat)
    requires
        i <= 9,
        i + s.len() >= 10,
        forall|k: int| 0 <= k < 9 - i ==> #[trigger] s[k] >= 128,
        s[9 - i] > 1,
    ensures
        varint_from(s, i) == Err::<(nat, Seq<u8>), VarintError>(VarintError::Overflow),
    decreases 10 - i,
{
    if i < 9 {
        assert(s[0] >= 128);
        let t = s.drop_first();
        assert forall|k: int| 0 <= k < 9 - (i + 1) implies #[trigger] t[k] >= 128 by {
            assert(s[k + 1] >= 128);
        }
        lemma_wide(t, i + 1);
    } else if s[0] % 128 <= 1 {
        assert(varint_from(s.drop_first(), 10) == Err::<(nat, Seq<u8>), VarintError>(VarintError::Overflow));
    }
}

/// A text that ends before a byte without the high bit is cut short; one whose
/// tenth byte carries more than the last of 64 bits is too wide. There is no
/// third error.
pub proof fn unreadable_integers(s: Seq<u8>)
    ensures
        s.len() < 10 && (forall|k: int| 0 <= k < s.len() ==> #[trigger] s[k] >= 128) ==> parse_varint(s) == Err::<
            (nat, Seq<u8>),
            VarintError,
        >(VarintError::Truncated),
        s.len() >= 10 && (forall|k: int| 0 <= k < 9 ==> #[trigger] s[k] >= 128) && s[9] > 1 ==> parse_varint(s) == Err::<
            (nat, Seq<u8>),
            VarintError,
        >(VarintError::Overflow),
{
    if s.len() < 10 && (forall|k: int| 0 <= k < s.len() ==> #[trigger] s[k] >= 128) {
        lemma_cut(s, 0);
    }
    if s.len() >= 10 && (forall|k: int| 0 <= k < 9 ==> #[trigger] s[k] >= 128) && s[9] > 1 {
        lemma_wide(s, 0);
    }
}

/// Numbers of small magnitude, of either sign, become small: the signs alternate.
pub proof fn signs_alternate(v: nat)
    ensures
        spec_zigzag(v as int) == 2 * v,
        spec_zigzag(-(v as int) - 1) == 2 * v + 1,
        spec_unzigzag(2 * v) == v,
        spec_unzigzag(2 * v + 1) == -(v as int) - 1,
{
}

} // verus!
