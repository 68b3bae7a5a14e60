//! Integer readings of IEEE-754 single-precision values held as their bit
//! patterns: sign, finiteness, rounding to the nearest integer (ties away
//! from zero) and truncation toward zero, as `f32::round` and `as` casts do.
use vstd::prelude::*;

verus! {

/// `2^n`.
pub open spec fn pow2(n: nat) -> nat
    decreases n,
{
    if n == 0 {
        1
    } else {
        2 * pow2((n - 1) as nat)
    }
}

/// The biased exponent field.
pub open spec fn f32_exp(b: u32) -> nat {
    ((b as nat / 8388608) % 256) as nat
}

/// The fraction field.
pub open spec fn f32_frac(b: u32) -> nat {
    (b as nat % 8388608) as nat
}

/// Whether the sign bit is set.
pub open spec fn f32_negative(b: u32) -> bool {
    b >= 0x8000_0000
}

/// Whether the value is neither infinite nor NaN.
pub open spec fn f32_finite(b: u32) -> bool {
    f32_exp(b) != 255
}

/// Whether the value is NaN.
pub open spec fn f32_nan(b: u32) -> bool {
    f32_exp(b) == 255 && f32_frac(b) != 0
}

/// The significand: the magnitude is `f32_mant(b) * 2^(f32_scale(b) - 150)`.
pub open spec fn f32_mant(b: u32) -> nat {
    if f32_exp(b) == 0 {
        f32_frac(b)
    } else {
        f32_frac(b) + 8388608
    }
}

/// The exponent of the significand's unit, offset by 150.
pub open spec fn f32_scale(b: u32) -> nat {
    if f32_exp(b) == 0 {
        1
    } else {
        f32_exp(b)
    }
}

/// The magnitude of a finite value rounded to the nearest integer, ties
/// away from zero.
pub open spec fn f32_round_mag(b: u32) -> nat {
    if f32_scale(b) >= 150 {
        f32_mant(b) * pow2((f32_scale(b) - 150) as nat)
    } else {
        (2 * f32_mant(b) + pow2((150 - f32_scale(b)) as nat)) / pow2((151 - f32_scale(b)) as nat)
    }
}

/// The magnitude of a finite value truncated toward zero.
pub open spec fn f32_trunc_mag(b: u32) -> nat {
    if f32_scale(b) >= 150 {
        f32_mant(b) * pow2((f32_scale(b) - 150) as nat)
    } else {
        f32_mant(b) / pow2((150 - f32_scale(b)) as nat)
    }
}

/// Whether the value is a number greater than zero.
pub open spec fn f32_positive(b: u32) -> bool {
    !f32_negative(b) && !f32_nan(b) && b != 0
}

pub(crate) proof fn lemma_pow2_pos(n: nat)
    ensures
        pow2(n) >= 1,
    decreases n,
{
    if n > 0 {
        lemma_pow2_pos((n - 1) as nat);
    }
}

pub(crate) proof fn lemma_pow2_mono(a: nat, b: nat)
    requires
        a <= b,
    ensures
        pow2(a) <= pow2(b),
    decreases b,
{
    if a < b {
        lemma_pow2_mono(a, (b - 1) as nat);
        lemma_pow2_pos((b - 1) as nat);
    }
}

/// `2^n` for small `n`.
pub(crate) fn pow2_u128(n: u32) -> (r: u128)
    requires
        n <= 127,
    ensures
        r == pow2(n as nat),
{
    let mut p: u128 = 1;
    let mut i: u32 = 0;
    proof {
        lemma_pow2_pos(127);
        lemma_pow2_127();
    }
    while i < n
        invariant
            i <= n,
            n <= 127,
            p == pow2(i as nat),
            p <= pow2(127),
            pow2(127) < 0x1_0000_0000_0000_0000_0000_0000_0000_0000,
        decreases n - i,
    {
        proof {
            lemma_pow2_mono((i + 1) as nat, 127);
            assert(pow2((i + 1) as nat) == 2 * pow2(i as nat));
        }
        p = p * 2;
        i = i + 1;
    }
    p
}

proof fn lemma_pow2_add(a: nat, b: nat)
    ensures
        pow2(a + b) == pow2(a) * pow2(b),
    decreases b,
{
    if b == 0 {
        assert(a + b == a);
        assert(pow2(0) == 1);
    } else {
        lemma_pow2_add(a, (b - 1) as nat);
        assert((a + (b - 1) as nat) as nat == (a + b - 1) as nat);
        assert(pow2(a + b) == 2 * pow2((a + b - 1) as nat));
        assert(pow2(a) * pow2(b) == pow2(a) * (2 * pow2((b - 1) as nat)));
        assert(pow2(a) * (2 * pow2((b - 1) as nat)) == 2 * (pow2(a) * pow2((b - 1) as nat)))
            by (nonlinear_arith);
    }
}

proof fn lemma_pow2_127()
    ensures
        pow2(127) < 0x1_0000_0000_0000_0000_0000_0000_0000_0000,
        pow2(104) * 16777216 <= 0x1_0000_0000_0000_0000_0000_0000_0000_0000,
{
    reveal_with_fuel(pow2, 9);
    assert(pow2(8) == 256);
    lemma_pow2_add(8, 8);
    assert(pow2(16) == 65536);
    lemma_pow2_add(16, 8);
    lemma_pow2_add(16, 16);
    assert(pow2(32) == 0x1_0000_0000);
    lemma_pow2_add(32, 32);
    assert(pow2(64) == 0x1_0000_0000_0000_0000);
    lemma_pow2_add(64, 32);
    lemma_pow2_add(96, 8);
    lemma_pow2_add(104, 23);
    lemma_pow2_add(104, 24);
    lemma_pow2_add(64, 64);
    assert(pow2(24) == 16777216);
    assert(pow2(128) == 0x1_0000_0000_0000_0000_0000_0000_0000_0000);
    lemma_pow2_add(127, 1);
    reveal_with_fuel(pow2, 2);
}

/// The exponent field, the significand and its scale.
pub(crate) fn f32_parts(b: u32) -> (r: (u32, u128, u32))
    ensures
        r.0 == f32_exp(b),
        r.1 == f32_mant(b),
        r.2 == f32_scale(b),
        r.1 < 16777216,
        1 <= r.2 <= 255,
{
    let exp = (b / 8388608) % 256;
    let frac = b % 8388608;
    if exp == 0 {
        (exp, frac as u128, 1)
    } else {
        (exp, frac as u128 + 8388608, exp)
    }
}

/// The magnitude of a finite value rounded to the nearest integer, ties away
/// from zero.
pub fn f32_bits_round_mag(b: u32) -> (r: u128)
    requires
        f32_finite(b),
    ensures
        r == f32_round_mag(b),
{
    let (_exp, mant, scale) = f32_parts(b);
    if scale >= 150 {
        let shift = scale - 150;
        let p = pow2_u128(shift);
        proof {
            lemma_pow2_127();
            lemma_pow2_mono(shift as nat, 104);
            lemma_pow2_pos(shift as nat);
            assert(mant * p < 16777216 * pow2(104)) by (nonlinear_arith)
                requires
                    mant < 16777216,
                    1 <= p <= pow2(104),
            ;
        }
        mant * p
    } else {
        let k = 150 - scale;
        if k >= 26 {
            proof {
                lemma_pow2_mono(26, k as nat);
                reveal_with_fuel(pow2, 27);
                assert(pow2((k + 1) as nat) == 2 * pow2(k as nat));
                assert(((2 * mant + pow2(k as nat)) as int) / (pow2((k + 1) as nat) as int) == 0) by (nonlinear_arith)
                    requires
                        2 * mant + pow2(k as nat) < pow2((k + 1) as nat),
                        2 * mant + pow2(k as nat) >= 0,
                ;
            }
            0
        } else {
            let pk = pow2_u128(k);
            let pk1 = pow2_u128(k + 1);
            proof {
                lemma_pow2_mono(k as nat, 26);
                reveal_with_fuel(pow2, 27);
                lemma_pow2_pos((k + 1) as nat);
            }
            (2 * mant + pk) / pk1
        }
    }
}

/// The magnitude of a finite value truncated toward zero.
pub fn f32_bits_trunc_mag(b: u32) -> (r: u128)
    requires
        f32_finite(b),
    ensures
        r == f32_trunc_mag(b),
{
    let (_exp, mant, scale) = f32_parts(b);
    if scale >= 150 {
        let shift = scale - 150;
        let p = pow2_u128(shift);
        proof {
            lemma_pow2_127();
            lemma_pow2_mono(shift as nat, 104);
            lemma_pow2_pos(shift as nat);
            assert(mant * p < 16777216 * pow2(104)) by (nonlinear_arith)
                requires
                    mant < 16777216,
                    1 <= p <= pow2(104),
            ;
        }
        mant * p
    } else {
        let k = 150 - scale;
        if k >= 25 {
            proof {
                lemma_pow2_mono(25, k as nat);
                reveal_with_fuel(pow2, 26);
                assert((mant as int) / (pow2(k as nat) as int) == 0) by (nonlinear_arith)
                    requires
                        mant < pow2(k as nat),
                ;
            }
            0
        } else {
            let pk = pow2_u128(k);
            proof {
                lemma_pow2_pos(k as nat);
            }
            mant / pk
        }
    }
}

/// Whether the value is finite.
pub fn f32_bits_finite(b: u32) -> (r: bool)
    ensures
        r == f32_finite(b),
{
    (b / 8388608) % 256 != 255
}

/// Whether the value is a number greater than zero.
pub fn f32_bits_positive(b: u32) -> (r: bool)
    ensures
        r == f32_positive(b),
{
    let nan = (b / 8388608) % 256 == 255 && b % 8388608 != 0;
    b < 0x8000_0000 && !nan && b != 0
}

} // verus!

verus! {

/// Whether the value is zero of either sign.
pub open spec fn f32_zero(b: u32) -> bool {
    b == 0 || b == 0x8000_0000
}

/// Whether the value is NaN.
pub fn f32_bits_nan(b: u32) -> (r: bool)
    ensures
        r == f32_nan(b),
{
    (b / 8388608) % 256 == 255 && b % 8388608 != 0
}

} // verus!

verus! {

/// IEEE-754 `a < b` on single-precision bit patterns: false when either is
/// NaN, zeros of either sign are equal, negative values order by
/// decreasing bits and non-negative ones by increasing bits.
pub open spec fn f32_lt(a: u32, b: u32) -> bool {
    &&& !f32_nan(a)
    &&& !f32_nan(b)
    &&& !(f32_zero(a) && f32_zero(b))
    &&& if f32_negative(a) && f32_negative(b) {
        a > b
    } else if f32_negative(a) {
        true
    } else if f32_negative(b) {
        false
    } else {
        a < b
    }
}

/// IEEE-754 `a < b` on single-precision bit patterns.
pub fn f32_bits_lt(a: u32, b: u32) -> (r: bool)
    ensures
        r == f32_lt(a, b),
{
    if f32_bits_nan(a) || f32_bits_nan(b) {
        return false;
    }
    let az = a == 0 || a == 0x8000_0000;
    let bz = b == 0 || b == 0x8000_0000;
    if az && bz {
        return false;
    }
    let an = a >= 0x8000_0000;
    let bn = b >= 0x8000_0000;
    if an && bn {
        a > b
    } else if an {
        true
    } else if bn {
        false
    } else {
        a < b
    }
}

} // verus!

verus! {

/// IEEE-754 `a == b` on single-precision bit patterns: false when either is
/// NaN, true for equal patterns and for zeros of either sign.
pub open spec fn f32_eq(a: u32, b: u32) -> bool {
    !f32_nan(a) && !f32_nan(b) && (a == b || (f32_zero(a) && f32_zero(b)))
}

/// IEEE-754 `a == b` on single-precision bit patterns.
pub fn f32_bits_eq(a: u32, b: u32) -> (r: bool)
    ensures
        r == f32_eq(a, b),
{
    !f32_bits_nan(a) && !f32_bits_nan(b) && (a == b || ((a == 0 || a == 0x8000_0000) && (b == 0
        || b == 0x8000_0000)))
}

/// Whether a finite value is a whole number.
pub open spec fn f32_integral(b: u32) -> bool {
    f32_scale(b) >= 150 || f32_mant(b) % pow2((150 - f32_scale(b)) as nat) == 0
}

/// Whether a finite value is a whole number.
pub fn f32_bits_integral(b: u32) -> (r: bool)
    ensures
        r == f32_integral(b),
{
    let (_exp, mant, scale) = f32_parts(b);
    if scale >= 150 {
        return true;
    }
    let k = 150 - scale;
    if k >= 25 {
        proof {
            lemma_pow2_mono(25, k as nat);
            assert(pow2(25) == 33554432) by {
                reveal_with_fuel(pow2, 26);
            }
            let p = pow2(k as nat);
            let mm = mant as nat;
            assert(mm % p == mm) by (nonlinear_arith)
                requires
                    mm < p,
            ;
        }
        mant == 0
    } else {
        let pk = pow2_u128(k);
        proof {
            lemma_pow2_pos(k as nat);
        }
        mant % pk == 0
    }
}

} // verus!
