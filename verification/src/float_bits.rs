//! Exact meaning of IEEE-754 single-precision encodings.
//!
//! A note length reaches the library as the 32 bits of an `f32`. This module
//! says which real number (or infinity, or NaN) those bits denote, what the
//! IEEE comparisons `<`, `>` and `==` against an exact rational answer, and
//! proves that the cheap bit tests used by the layout decisions answer the same.

use vstd::prelude::*;
use vstd::arithmetic::power2::{
    pow2,
    lemma_pow2_pos,
    lemma_pow2_adds,
    lemma_pow2_strictly_increases,
};

verus! {

/// Encoding of `0.0`.
pub const F32_ZERO: u32 = 0x0000_0000;

/// Encoding of `1.0`.
pub const F32_ONE: u32 = 0x3F80_0000;

/// Encoding of `2.0`.
pub const F32_TWO: u32 = 0x4000_0000;

/// Encoding of `4.0`.
pub const F32_FOUR: u32 = 0x4080_0000;

/// Number of fraction bits of a single-precision float.
pub open spec fn fraction_unit() -> int {
    0x80_0000
}

/// The sign bit.
pub open spec fn f32_sign(bits: u32) -> bool {
    bits >= 0x8000_0000
}

/// The biased exponent field (0 to 255).
pub open spec fn f32_biased_exponent(bits: u32) -> int {
    (bits as int % 0x8000_0000) / fraction_unit()
}

/// The fraction field (0 to 2^23 - 1).
pub open spec fn f32_fraction(bits: u32) -> int {
    bits as int % fraction_unit()
}

pub open spec fn f32_is_nan(bits: u32) -> bool {
    f32_biased_exponent(bits) == 255 && f32_fraction(bits) != 0
}

pub open spec fn f32_is_infinite(bits: u32) -> bool {
    f32_biased_exponent(bits) == 255 && f32_fraction(bits) == 0
}

pub open spec fn f32_is_finite(bits: u32) -> bool {
    f32_biased_exponent(bits) < 255
}

/// The significand of a finite encoding, hidden bit included for normal numbers.
pub open spec fn f32_significand(bits: u32) -> int {
    if f32_biased_exponent(bits) == 0 {
        f32_fraction(bits)
    } else {
        f32_fraction(bits) + fraction_unit()
    }
}

/// The power of two that scales the significand of a finite encoding.
pub open spec fn f32_scale(bits: u32) -> int {
    if f32_biased_exponent(bits) == 0 {
        -149
    } else {
        f32_biased_exponent(bits) - 150
    }
}

/// A finite encoding denotes `(-1)^sign * significand * 2^scale`; this is the
/// numerator of that value written over `f32_denominator`.
pub open spec fn f32_numerator(bits: u32) -> int {
    let m = if f32_sign(bits) {
        -f32_significand(bits)
    } else {
        f32_significand(bits)
    };
    if f32_scale(bits) >= 0 {
        m * pow2(f32_scale(bits) as nat)
    } else {
        m
    }
}

/// The (positive) denominator of the value of a finite encoding.
pub open spec fn f32_denominator(bits: u32) -> int {
    if f32_scale(bits) >= 0 {
        1
    } else {
        pow2((-f32_scale(bits)) as nat) as int
    }
}

/// IEEE `x < p / q` for the float `x` encoded by `bits` (`q > 0`).
pub open spec fn f32_less_than(bits: u32, p: int, q: int) -> bool {
    if f32_is_nan(bits) {
        false
    } else if f32_is_infinite(bits) {
        f32_sign(bits)
    } else {
        f32_numerator(bits) * q < p * f32_denominator(bits)
    }
}

/// IEEE `x > p / q` for the float `x` encoded by `bits` (`q > 0`).
pub open spec fn f32_greater_than(bits: u32, p: int, q: int) -> bool {
    if f32_is_nan(bits) {
        false
    } else if f32_is_infinite(bits) {
        !f32_sign(bits)
    } else {
        f32_numerator(bits) * q > p * f32_denominator(bits)
    }
}

/// IEEE `x == p / q` for the float `x` encoded by `bits` (`q > 0`).
pub open spec fn f32_equals(bits: u32, p: int, q: int) -> bool {
    f32_is_finite(bits) && f32_numerator(bits) * q == p * f32_denominator(bits)
}

/// Numerator of `2^k` written as a fraction.
pub open spec fn pow2_num(k: int) -> int {
    if k >= 0 {
        pow2(k as nat) as int
    } else {
        1
    }
}

/// Denominator of `2^k` written as a fraction.
pub open spec fn pow2_den(k: int) -> int {
    if k >= 0 {
        1
    } else {
        pow2((-k) as nat) as int
    }
}

/// IEEE `x == 2^k`.
pub open spec fn f32_is_pow2(bits: u32, k: int) -> bool {
    f32_equals(bits, pow2_num(k), pow2_den(k))
}

/// The encoding of `2^k` for a normal exponent `k`.
pub open spec fn pow2_encoding(k: int) -> int {
    (k + 127) * fraction_unit()
}

proof fn lemma_fields(bits: u32)
    ensures
        0 <= f32_biased_exponent(bits) <= 255,
        0 <= f32_fraction(bits) < fraction_unit(),
        bits as int == (if f32_sign(bits) { 0x8000_0000int } else { 0int })
            + f32_biased_exponent(bits) * fraction_unit() + f32_fraction(bits),
{
}

/// `m * 2^a == 2^b` with a positive `m` forces `a <= b` and `m == 2^(b - a)`.
proof fn lemma_mul_pow2_is_pow2(m: int, a: nat, b: nat)
    requires
        m > 0,
        m * pow2(a) == pow2(b),
    ensures
        a <= b,
        m == pow2((b - a) as nat),
{
    lemma_pow2_pos(a);
    lemma_pow2_pos(b);
    if a > b {
        let d = (a - b) as nat;
        lemma_pow2_adds(b, d);
        assert(a == b + d);
        lemma_pow2_strictly_increases(0, d);
        assert(pow2(0) == 1) by {
            vstd::arithmetic::power2::lemma2_to64();
        }
        let pd = pow2(d) as int;
        let pb = pow2(b) as int;
        assert(m * (pb * pd) == pb);
        assert(m * pd >= 2) by (nonlinear_arith)
            requires
                m >= 1,
                pd >= 2,
        ;
        assert((m * pd) * pb >= 2 * pb) by (nonlinear_arith)
            requires
                m * pd >= 2,
                pb > 0,
        ;
        assert(m * (pb * pd) == (m * pd) * pb) by (nonlinear_arith);
        assert(false);
    } else {
        let d = (b - a) as nat;
        lemma_pow2_adds(a, d);
        assert(b == a + d);
        let pa = pow2(a) as int;
        let pd = pow2(d) as int;
        assert(m * pa == pa * pd);
        assert(m == pd) by (nonlinear_arith)
            requires
                m * pa == pa * pd,
                pa > 0,
        ;
    }
}

/// A power of two between `2^23` (inclusive) and `2^24` (exclusive) is `2^23`.
proof fn lemma_pow2_in_binade(j: nat)
    requires
        fraction_unit() <= pow2(j) < 2 * fraction_unit(),
    ensures
        j == 23,
{
    vstd::arithmetic::power2::lemma2_to64();
    if j < 23 {
        lemma_pow2_strictly_increases(j, 23);
    } else if j > 23 {
        if j > 24 {
            lemma_pow2_strictly_increases(24, j);
        }
    }
}

/// The encodings of `2^k` for normal exponents are exactly the bit patterns
/// `(k + 127) << 23`: no other finite, infinite or NaN encoding compares equal.
pub proof fn lemma_f32_is_pow2(bits: u32, k: int)
    requires
        -126 <= k <= 127,
    ensures
        f32_is_pow2(bits, k) <==> bits as int == pow2_encoding(k),
{
    lemma_fields(bits);
    let e = f32_scale(bits);
    let sig = f32_significand(bits);
    let ae: nat = if e >= 0 { e as nat } else { 0 };
    let be: nat = if e >= 0 { 0 } else { (-e) as nat };
    let ak: nat = if k >= 0 { k as nat } else { 0 };
    let bk: nat = if k >= 0 { 0 } else { (-k) as nat };
    vstd::arithmetic::power2::lemma2_to64();
    lemma_pow2_pos(ae);
    lemma_pow2_pos(be);
    lemma_pow2_pos(ak);
    lemma_pow2_pos(bk);
    assert(pow2_num(k) == pow2(ak) && pow2_den(k) == pow2(bk));
    assert(f32_denominator(bits) == pow2(be));
    if f32_is_pow2(bits, k) {
        // the right-hand side is positive, so the value is positive
        assert(pow2(ak) * pow2(be) > 0) by (nonlinear_arith)
            requires
                pow2(ak) > 0,
                pow2(be) > 0,
        ;
        let num = f32_numerator(bits);
        assert(num * pow2(bk) == pow2(ak) * pow2(be));
        assert(num > 0) by (nonlinear_arith)
            requires
                num * pow2(bk) > 0,
                pow2(bk) > 0,
        ;
        assert(!f32_sign(bits)) by {
            if f32_sign(bits) {
                if e >= 0 {
                    assert(-sig * pow2(ae) <= 0) by (nonlinear_arith)
                        requires
                            sig >= 0,
                            pow2(ae) > 0,
                    ;
                }
            }
        }
        assert(num == sig * pow2(ae));
        assert(sig > 0) by (nonlinear_arith)
            requires
                sig * pow2(ae) > 0,
                pow2(ae) > 0,
        ;
        lemma_pow2_adds(ae, bk);
        lemma_pow2_adds(ak, be);
        assert(sig * pow2(ae + bk) == pow2(ak + be)) by (nonlinear_arith)
            requires
                sig * pow2(ae) * pow2(bk) == pow2(ak) * pow2(be),
                pow2(ae + bk) == pow2(ae) * pow2(bk),
                pow2(ak + be) == pow2(ak) * pow2(be),
        ;
        lemma_mul_pow2_is_pow2(sig, ae + bk, ak + be);
        let j = (ak + be - (ae + bk)) as nat;
        assert(j == k - e);
        if f32_biased_exponent(bits) == 0 {
            // a subnormal significand is below 2^23, but j >= 23 here
            assert(j >= 23);
            if j > 23 {
                lemma_pow2_strictly_increases(23, j);
            }
            assert(false);
        } else {
            lemma_pow2_in_binade(j);
        }
    } else if bits as int == pow2_encoding(k) {
        assert(!f32_sign(bits));
        assert(f32_biased_exponent(bits) == k + 127);
        assert(f32_fraction(bits) == 0);
        assert(sig == pow2(23));
        assert(e == k - 23);
        lemma_pow2_adds(23, ae);
        lemma_pow2_adds(23 + ae, bk);
        lemma_pow2_adds(ak, be);
        assert(23 + ae + bk == ak + be);
        assert(f32_numerator(bits) == pow2(23) * pow2(ae));
        assert(f32_numerator(bits) * pow2(bk) == pow2(ak) * pow2(be)) by (nonlinear_arith)
            requires
                f32_numerator(bits) == pow2(23) * pow2(ae),
                pow2(23 + ae) == pow2(23) * pow2(ae),
                pow2(23 + ae + bk) == pow2(23 + ae) * pow2(bk),
                pow2(ak + be) == pow2(ak) * pow2(be),
                23 + ae + bk == ak + be,
        ;
        assert(f32_is_pow2(bits, k));
    }
}

/// IEEE `0 < x && x < 2` holds exactly for the encodings strictly between
/// `0x0000_0000` and `0x4000_0000`.
pub proof fn lemma_f32_between_zero_and_two(bits: u32)
    ensures
        (f32_greater_than(bits, 0, 1) && f32_less_than(bits, 2, 1)) <==> (0 < bits
            && bits < F32_TWO),
{
    lemma_fields(bits);
    vstd::arithmetic::power2::lemma2_to64();
    let ex = f32_biased_exponent(bits);
    let e = f32_scale(bits);
    let sig = f32_significand(bits);
    let num = f32_numerator(bits);
    let den = f32_denominator(bits);
    if f32_is_finite(bits) {
        if e >= 0 {
            lemma_pow2_pos(e as nat);
            assert(sig >= fraction_unit());
            assert(sig * pow2(e as nat) >= fraction_unit()) by (nonlinear_arith)
                requires
                    sig >= fraction_unit(),
                    pow2(e as nat) >= 1,
            ;
            if f32_sign(bits) {
                assert(-sig * pow2(e as nat) < 0) by (nonlinear_arith)
                    requires
                        sig * pow2(e as nat) > 0,
                ;
            }
        } else {
            let d = (-e) as nat;
            lemma_pow2_pos(d);
            assert(den == pow2(d));
            if ex == 0 {
                lemma_pow2_strictly_increases(23, 149);
                assert(d == 149);
            } else if ex <= 127 {
                if d > 23 {
                    lemma_pow2_strictly_increases(23, d);
                }
                assert(d >= 23);
            } else {
                assert(d <= 22);
                if d < 22 {
                    lemma_pow2_strictly_increases(d, 22);
                }
            }
        }
    }
}

} // verus!
