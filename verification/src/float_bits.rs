//! Single-precision numbers as the integers that encode them.
//!
//! A sensor value reaches the library as the 32 bits of its IEEE 754 encoding;
//! here it becomes fixed point in exact integer arithmetic.

use vstd::arithmetic::power2;
use vstd::prelude::*;

verus! {

/// The IEEE 754 encoding of a single-precision number.
#[derive(Clone, Copy, PartialEq, Eq, Structural, Hash, Debug)]
pub struct F32Bits(pub u32);

impl F32Bits {
    /// Sign bit.
    pub open spec fn is_negative(self) -> bool {
        self.0 >= 0x8000_0000
    }

    /// Biased exponent.
    pub open spec fn exponent(self) -> nat {
        (self.0 / 0x80_0000 % 256) as nat
    }

    /// Neither an infinity nor a NaN.
    pub open spec fn is_finite(self) -> bool {
        self.exponent() != 255
    }

    /// Significand of a finite number, with its hidden bit.
    pub open spec fn significand(self) -> nat {
        if self.exponent() == 0 {
            (self.0 % 0x80_0000) as nat
        } else {
            (self.0 % 0x80_0000 + 0x80_0000) as nat
        }
    }

    /// A finite number's magnitude is its significand times two to this power,
    /// divided by two to the power [`BIAS`].
    pub open spec fn power(self) -> nat {
        if self.exponent() == 0 {
            1
        } else {
            self.exponent()
        }
    }
}

/// Exponent bias together with the width of the fraction.
pub const BIAS: u32 = 150;

/// `num / den` rounded to the nearest integer, halves upward.
pub open spec fn nearest(num: nat, den: nat) -> nat {
    (2 * num + den) / (2 * den)
}

/// A finite number's magnitude times `scale`, rounded, halves away from zero.
pub open spec fn scaled_magnitude(x: F32Bits, scale: nat) -> nat {
    nearest(x.significand() * scale * power2::pow2(x.power()), power2::pow2(BIAS as nat))
}

/// The number times `scale`, rounded to an integer, halves away from zero.
pub open spec fn scaled_value(x: F32Bits, scale: nat) -> int {
    if x.is_negative() {
        -(scaled_magnitude(x, scale) as int)
    } else {
        scaled_magnitude(x, scale) as int
    }
}

/// Fixed point: `None` for what is not finite or leaves the range of `i32`.
pub open spec fn fixed_point(x: F32Bits, scale: nat) -> Option<int> {
    if x.is_finite() && i32::MIN <= scaled_value(x, scale) <= i32::MAX {
        Some(scaled_value(x, scale))
    } else {
        None
    }
}

/// Cancelling a common factor changes nothing.
proof fn lemma_nearest_cancel(num: nat, den: nat, c: nat)
    requires
        den > 0,
        c > 0,
    ensures
        nearest(num * c, den * c) == nearest(num, den),
{
    let a = (2 * num + den) as int;
    let b = (2 * den) as int;
    let k = c as int;
    assert(2 * (num * c) + den * c == k * a) by (nonlinear_arith)
        requires
            a == 2 * num + den,
            k == c,
    ;
    assert(2 * (den * c) == k * b) by (nonlinear_arith)
        requires
            b == 2 * den,
            k == c,
    ;
    assert(k * a >= 0) by (nonlinear_arith)
        requires
            k > 0,
            a >= 0,
    ;
    vstd::arithmetic::div_mod::lemma_div_denominator(k * a, k, b);
    vstd::arithmetic::div_mod::lemma_div_multiples_vanish(a, k);
}

proof fn lemma_nearest_whole(x: nat)
    ensures
        nearest(x, 1) == x,
{
    assert((2 * x + 1) / 2 == x);
}

/// From the bias on, the magnitude is a whole number.
proof fn lemma_whole_magnitude(p: nat, e: nat)
    requires
        e >= BIAS,
    ensures
        nearest(p * power2::pow2(e), power2::pow2(BIAS as nat)) == p * power2::pow2((e - BIAS) as nat),
{
    let s = (e - BIAS) as nat;
    power2::lemma_pow2_adds(s, BIAS as nat);
    power2::lemma_pow2_pos(BIAS as nat);
    let q = power2::pow2(BIAS as nat);
    let t = power2::pow2(s);
    assert(p * (t * q) == (p * t) * q) by (nonlinear_arith);
    lemma_nearest_cancel(p * t, 1, q);
    lemma_nearest_whole(p * t);
    assert(1 * q == q);
}

/// Below the bias, the magnitude is a fraction with a power of two under it.
proof fn lemma_fraction_magnitude(p: nat, e: nat)
    requires
        e < BIAS,
    ensures
        nearest(p * power2::pow2(e), power2::pow2(BIAS as nat)) == nearest(p, power2::pow2((BIAS - e) as nat)),
{
    let k = (BIAS - e) as nat;
    power2::lemma_pow2_adds(k, e);
    power2::lemma_pow2_pos(e);
    power2::lemma_pow2_pos(k);
    lemma_nearest_cancel(p, power2::pow2(k), power2::pow2(e));
}

/// `2^n`.
fn power_of_two(n: u32) -> (r: u64)
    requires
        n < 64,
    ensures
        r == power2::pow2(n as nat),
{
    let mut r: u64 = 1;
    let mut i: u32 = 0;
    proof {
        power2::lemma2_to64();
    }
    while i < n
        invariant
            i <= n < 64,
            r == power2::pow2(i as nat),
        decreases n - i,
    {
        proof {
            power2::lemma_pow2_unfold((i + 1) as nat);
            power2::lemma2_to64_rest();
            if i + 1 < 63 {
                power2::lemma_pow2_strictly_increases((i + 1) as nat, 63);
            }
        }
        r = r * 2;
        i = i + 1;
    }
    r
}

/// Magnitude of a finite number times `scale`, or `None` where it is past
/// anything that 32 bits hold.
fn magnitude(value: F32Bits, scale: u32) -> (r: Option<u64>)
    requires
        value.is_finite(),
        1 <= scale <= 1024,
    ensures
        match r {
            Some(m) => m == scaled_magnitude(value, scale as nat),
            None => scaled_magnitude(value, scale as nat) > 0x8000_0000,
        },
{
    let exponent: u32 = value.0 / 0x80_0000 % 256;
    let fraction: u32 = value.0 % 0x80_0000;
    let significand: u64 = if exponent == 0 {
        fraction as u64
    } else {
        fraction as u64 + 0x80_0000
    };
    let power: u32 = if exponent == 0 {
        1
    } else {
        exponent
    };
    assert(significand * scale <= 0x100_0000 * 1024) by (nonlinear_arith)
        requires
            significand <= 0x100_0000,
            scale <= 1024,
    ;
    let product: u64 = significand * scale as u64;
    if power >= BIAS {
        let shift: u32 = power - BIAS;
        proof {
            lemma_whole_magnitude(product as nat, power as nat);
            power2::lemma2_to64();
            assert(product >= 0x80_0000) by (nonlinear_arith)
                requires
                    product == significand * scale,
                    significand >= 0x80_0000,
                    scale >= 1,
            ;
        }
        if shift >= 9 {
            proof {
                if shift > 9 {
                    power2::lemma_pow2_strictly_increases(9, shift as nat);
                }
                let t = power2::pow2(shift as nat);
                assert(product * t >= 0x80_0000 * 512) by (nonlinear_arith)
                    requires
                        product >= 0x80_0000,
                        t >= 512,
                ;
            }
            return None;
        }
        let t: u64 = power_of_two(shift);
        proof {
            power2::lemma_pow2_strictly_increases(shift as nat, 9);
            assert(product * t <= 0x100_0000 * 1024 * 512) by (nonlinear_arith)
                requires
                    product <= 0x100_0000 * 1024,
                    t <= 512,
            ;
        }
        Some(product * t)
    } else {
        let shift: u32 = BIAS - power;
        proof {
            lemma_fraction_magnitude(product as nat, power as nat);
            power2::lemma2_to64();
        }
        if shift >= 37 {
            proof {
                if shift > 37 {
                    power2::lemma_pow2_strictly_increases(37, shift as nat);
                }
                power2::lemma2_to64_rest();
                let t = power2::pow2(shift as nat);
                vstd::arithmetic::div_mod::lemma_basic_div((2 * product + t) as int, (2 * t) as int);
            }
            return Some(0);
        }
        let t: u64 = power_of_two(shift);
        proof {
            power2::lemma2_to64_rest();
            power2::lemma_pow2_strictly_increases(shift as nat, 37);
            power2::lemma_pow2_pos(shift as nat);
        }
        Some((2 * product + t) / (2 * t))
    }
}

/// `value × scale` rounded to an integer, halves away from zero. `None` for a
/// value that is not finite or leaves the range of `i32`: such a value is not
/// sent.
pub fn scaled(value: F32Bits, scale: u32) -> (r: Option<i32>)
    requires
        1 <= scale <= 1024,
    ensures
        match (r, fixed_point(value, scale as nat)) {
            (Some(a), Some(b)) => a == b,
            (None, None) => true,
            _ => false,
        },
{
    if value.0 / 0x80_0000 % 256 == 255 {
        return None;
    }
    let magnitude: u64 = match magnitude(value, scale) {
        Some(m) => m,
        None => {
            return None;
        },
    };
    if value.0 >= 0x8000_0000 {
        if magnitude <= 0x8000_0000 {
            Some((-(magnitude as i64)) as i32)
        } else {
            None
        }
    } else if magnitude <= 0x7FFF_FFFF {
        Some(magnitude as i32)
    } else {
        None
    }
}

/// Fixed point is the nearest integer to the scaled number, halves away from
/// zero, with the sign of the number; what is not finite has none, and nor has
/// what rounds to outside of 32 bits. The number is read off its encoding: 23
/// bits of fraction, eight of exponent, one of sign.
pub proof fn fixed_point_is_nearest(x: F32Bits, scale: nat)
    ensures
        ({
            let e = x.0 as int / 0x80_0000 % 256;
            let fraction = x.0 as int % 0x80_0000;
            let significand = if e == 0 {
                fraction
            } else {
                0x80_0000 + fraction
            };
            let power = if e == 0 {
                1
            } else {
                e
            };
            let num = significand * scale * power2::pow2(power as nat);
            let den = power2::pow2(150) as int;
            &&& e == 255 ==> fixed_point(x, scale) is None
            &&& fixed_point(x, scale) matches Some(v) ==> {
                let magnitude = if x.0 >= 0x8000_0000 {
                    -v
                } else {
                    v
                };
                &&& magnitude >= 0
                &&& -0x8000_0000 <= v <= 0x7FFF_FFFF
                &&& 2 * magnitude * den <= 2 * num + den < 2 * (magnitude + 1) * den
            }
            &&& e != 255 && fixed_point(x, scale) is None ==> 2 * num + den >= 2 * 0x8000_0000 * den
        }),
{
    let den = power2::pow2(150);
    power2::lemma_pow2_pos(150);
    let num = x.significand() * scale * power2::pow2(x.power());
    let m = scaled_magnitude(x, scale);
    let q = (2 * num + den) as int;
    let d = (2 * den) as int;
    vstd::arithmetic::div_mod::lemma_fundamental_div_mod(q, d);
    vstd::arithmetic::div_mod::lemma_mod_bound(q, d);
    assert(m == q / d);
    assert(d * (q / d) == 2 * m * den) by (nonlinear_arith)
        requires
            m == q / d,
            d == 2 * den,
    ;
    assert(2 * (m + 1) * den == 2 * m * den + 2 * den) by (nonlinear_arith);
    if m >= 0x8000_0000 {
        assert(2 * m * den >= 2 * 0x8000_0000 * den) by (nonlinear_arith)
            requires
                m >= 0x8000_0000,
                den >= 0,
        ;
    }
}

} // verus!
