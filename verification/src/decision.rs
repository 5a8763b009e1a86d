//! The float-to-token decision rule.
//!
//! A finite IEEE-754 value decomposes as `(-1)^neg * mfull * 2^exp2` with an
//! integer mantissa `mfull` and an integer exponent `exp2`.  The policy
//! renders the value as a plain decimal integer token exactly when it is a
//! whole number that survives a round trip through a signed 64-bit cast:
//! magnitudes up to `i64::MAX` (and `2^63` itself, which the saturating cast
//! maps onto the nearest representable endpoint) fold to integers, everything
//! else stays a float literal.

use vstd::prelude::*;
use vstd::arithmetic::power2::{
    pow2, lemma2_to64, lemma2_to64_rest, lemma_pow2_pos, lemma_pow2_adds,
    lemma_pow2_strictly_increases,
};
use vstd::arithmetic::div_mod::{
    lemma_small_mod, lemma_mod_breakdown, lemma_div_denominator, lemma_mod_multiples_basic,
    lemma_div_by_multiple,
};
use vstd::bits::{
    lemma_u64_shl_is_mul, lemma_u64_shr_is_div, lemma_u64_pow2_no_overflow,
    lemma_u64_low_bits_mask_is_mod, low_bits_mask,
};

verus! {

/// How a floating-point value is rendered as a JSON number token: as the
/// plain decimal representation of an integer, or as an ordinary JSON
/// float literal produced by the base formatter.
#[derive(Clone, Copy, Debug, PartialEq, Eq, Structural)]
pub enum NumberToken {
    Int(i64),
    Float,
}

/// The magnitude `mfull * 2^exp2` is a whole number.
pub open spec fn mag_is_integral(mfull: nat, exp2: int) -> bool {
    exp2 >= 0 || mfull % pow2((-exp2) as nat) == 0
}

/// The whole-number magnitude `mfull * 2^exp2`; meaningful when the
/// magnitude is integral (otherwise the fractional part is truncated).
pub open spec fn mag_int(mfull: nat, exp2: int) -> nat {
    if exp2 >= 0 {
        mfull * pow2(exp2 as nat)
    } else {
        mfull / pow2((-exp2) as nat)
    }
}

/// The token for a whole-number magnitude `mag` with sign `neg`: the signed
/// integer itself while it fits in `i64`.  A magnitude of exactly `2^63`
/// saturates: the platform cast clamps it to `i64::MAX` or `i64::MIN`, and
/// for `-2^63` the clamp is exact while for `+2^63` the clamped integer
/// still compares equal to the value after rounding back, so both ends
/// fold to an integer token.  Any larger magnitude stays a float literal.
pub open spec fn mag_token(neg: bool, mag: nat) -> NumberToken {
    if mag <= 0x7fff_ffff_ffff_ffff {
        NumberToken::Int(if neg { (-(mag as int)) as i64 } else { mag as i64 })
    } else if mag == 0x8000_0000_0000_0000 {
        NumberToken::Int(if neg { i64::MIN } else { i64::MAX })
    } else {
        NumberToken::Float
    }
}

/// The decision for a finite value `(-1)^neg * mfull * 2^exp2`: an integer
/// token exactly when the value is a whole number whose rounded signed
/// 64-bit cast compares equal to the value itself; a float literal otherwise.
pub open spec fn token_decision(neg: bool, mfull: nat, exp2: int) -> NumberToken {
    if mag_is_integral(mfull, exp2) {
        mag_token(neg, mag_int(mfull, exp2))
    } else {
        NumberToken::Float
    }
}

fn finish_mag(neg: bool, mag: u64) -> (t: NumberToken)
    ensures
        t == mag_token(neg, mag as nat),
{
    if !neg {
        if mag <= 0x7fff_ffff_ffff_ffff {
            NumberToken::Int(mag as i64)
        } else if mag == 0x8000_0000_0000_0000 {
            NumberToken::Int(i64::MAX)
        } else {
            NumberToken::Float
        }
    } else {
        if mag <= 0x7fff_ffff_ffff_ffff {
            NumberToken::Int(-(mag as i64))
        } else if mag == 0x8000_0000_0000_0000 {
            NumberToken::Int(i64::MIN)
        } else {
            NumberToken::Float
        }
    }
}

/// Decides the token for one finite decomposed value.  This is the pure,
/// stateless core shared by the single- and double-precision entry points.
pub(crate) fn decide_mag(neg: bool, mfull: u64, exp2: i32) -> (t: NumberToken)
    requires
        mfull < pow2(53),
        -1074 <= exp2 <= 63,
        exp2 >= 0 ==> mfull * pow2(exp2 as nat) < pow2(64),
    ensures
        t == token_decision(neg, mfull as nat, exp2 as int),
{
    if exp2 >= 0 {
        let sh: u64 = exp2 as u64;
        proof {
            lemma2_to64();
            lemma2_to64_rest();
            lemma_u64_shl_is_mul(mfull, sh);
        }
        let mag: u64 = mfull << sh;
        finish_mag(neg, mag)
    } else {
        let s32: i32 = -exp2;
        let s: u64 = s32 as u64;
        if s >= 53 {
            proof {
                lemma2_to64();
                lemma2_to64_rest();
                if s > 53 {
                    lemma_pow2_strictly_increases(53, s as nat);
                }
                lemma_pow2_pos(s as nat);
                lemma_small_mod(mfull as nat, pow2(s as nat));
            }
            if mfull == 0 {
                NumberToken::Int(0)
            } else {
                NumberToken::Float
            }
        } else {
            proof {
                lemma2_to64();
                lemma2_to64_rest();
                lemma_u64_pow2_no_overflow(s as nat);
                lemma_u64_shl_is_mul(1u64, s);
                lemma_u64_low_bits_mask_is_mod(mfull, s as nat);
                lemma_u64_shr_is_div(mfull, s);
                lemma_pow2_pos(s as nat);
            }
            let mask: u64 = (1u64 << s) - 1;
            assert(mask == low_bits_mask(s as nat));
            if mfull & mask == 0 {
                finish_mag(neg, mfull >> s)
            } else {
                NumberToken::Float
            }
        }
    }
}

/// The sign bit of a double-precision bit pattern.
pub open spec fn double_sign(bits: u64) -> bool {
    (bits >> 63) == 1
}

/// The biased exponent field of a double-precision bit pattern.
pub open spec fn double_exp_field(bits: u64) -> u64 {
    (bits >> 52) & 0x7ff
}

/// The fraction field of a double-precision bit pattern.
pub open spec fn double_frac_field(bits: u64) -> u64 {
    bits & 0x000f_ffff_ffff_ffff
}

/// The bit pattern encodes a finite value (not an infinity, not a NaN).
pub open spec fn double_is_finite(bits: u64) -> bool {
    double_exp_field(bits) != 0x7ff
}

/// The integer mantissa of a finite double-precision value: the fraction
/// field, with the implicit leading bit added for normal numbers.
pub open spec fn double_mfull(bits: u64) -> nat {
    if double_exp_field(bits) == 0 {
        double_frac_field(bits) as nat
    } else {
        double_frac_field(bits) as nat + 0x10_0000_0000_0000
    }
}

/// The power-of-two scale of a finite double-precision value: the encoded
/// magnitude is `double_mfull(bits) * 2^double_exp2(bits)`.
pub open spec fn double_exp2(bits: u64) -> int {
    if double_exp_field(bits) == 0 {
        -1074
    } else {
        double_exp_field(bits) - 1075
    }
}

/// The token the policy chooses for a double-precision bit pattern.
/// Non-finite patterns are never folded; they are left to the base float
/// formatter (the driving encoder rejects them before this policy runs).
pub open spec fn double_token(bits: u64) -> NumberToken {
    if double_is_finite(bits) {
        token_decision(double_sign(bits), double_mfull(bits), double_exp2(bits))
    } else {
        NumberToken::Float
    }
}

/// Decides how a double-precision value, given by its bit pattern, is
/// rendered: as a plain decimal integer token, or as a float literal.
pub fn decide_double_bits(bits: u64) -> (t: NumberToken)
    ensures
        t == double_token(bits),
{
    let neg: bool = (bits >> 63) == 1;
    let exp: u64 = (bits >> 52) & 0x7ff;
    let frac: u64 = bits & 0x000f_ffff_ffff_ffff;
    proof {
        assert(exp <= 0x7ff && frac <= 0x000f_ffff_ffff_ffff) by (bit_vector)
            requires
                exp == (bits >> 52) & 0x7ff,
                frac == bits & 0x000f_ffff_ffff_ffff,
        ;
        lemma2_to64();
        lemma2_to64_rest();
    }
    if exp == 0x7ff {
        NumberToken::Float
    } else if exp == 0 {
        decide_mag(neg, frac, -1074)
    } else if exp >= 1087 {
        proof {
            lemma_too_big(double_mfull(bits), double_exp2(bits), 52, 12);
        }
        NumberToken::Float
    } else {
        let mfull: u64 = frac + 0x0010_0000_0000_0000;
        let e2: i32 = (exp as i32) - 1075;
        proof {
            if e2 >= 0 {
                lemma_mag_fits(mfull as nat, e2 as nat, 53, 11);
            }
        }
        decide_mag(neg, mfull, e2)
    }
}

/// The sign bit of a single-precision bit pattern.
pub open spec fn single_sign(bits: u32) -> bool {
    (bits >> 31) == 1
}

/// The biased exponent field of a single-precision bit pattern.
pub open spec fn single_exp_field(bits: u32) -> u32 {
    (bits >> 23) & 0xff
}

/// The fraction field of a single-precision bit pattern.
pub open spec fn single_frac_field(bits: u32) -> u32 {
    bits & 0x007f_ffff
}

/// The bit pattern encodes a finite value (not an infinity, not a NaN).
pub open spec fn single_is_finite(bits: u32) -> bool {
    single_exp_field(bits) != 0xff
}

/// The integer mantissa of a finite single-precision value.
pub open spec fn single_mfull(bits: u32) -> nat {
    if single_exp_field(bits) == 0 {
        single_frac_field(bits) as nat
    } else {
        single_frac_field(bits) as nat + 0x0080_0000
    }
}

/// The power-of-two scale of a finite single-precision value: the encoded
/// magnitude is `single_mfull(bits) * 2^single_exp2(bits)`.
pub open spec fn single_exp2(bits: u32) -> int {
    if single_exp_field(bits) == 0 {
        -149
    } else {
        single_exp_field(bits) - 150
    }
}

/// The token the policy chooses for a single-precision bit pattern.
pub open spec fn single_token(bits: u32) -> NumberToken {
    if single_is_finite(bits) {
        token_decision(single_sign(bits), single_mfull(bits), single_exp2(bits))
    } else {
        NumberToken::Float
    }
}

/// Decides how a single-precision value, given by its bit pattern, is
/// rendered.  The comparison against the rounded integer is made at
/// single precision, so the saturation endpoint is the same `2^63` as in
/// the double-precision rule.
pub fn decide_single_bits(bits: u32) -> (t: NumberToken)
    ensures
        t == single_token(bits),
{
    let neg: bool = (bits >> 31) == 1;
    let exp: u32 = (bits >> 23) & 0xff;
    let frac: u32 = bits & 0x007f_ffff;
    proof {
        assert(exp <= 0xff && frac <= 0x007f_ffff) by (bit_vector)
            requires
                exp == (bits >> 23) & 0xff,
                frac == bits & 0x007f_ffff,
        ;
        lemma2_to64();
        lemma2_to64_rest();
    }
    if exp == 0xff {
        NumberToken::Float
    } else if exp == 0 {
        decide_mag(neg, frac as u64, -149)
    } else if exp >= 191 {
        proof {
            lemma_too_big(single_mfull(bits), single_exp2(bits), 23, 41);
        }
        NumberToken::Float
    } else {
        let mfull: u64 = (frac as u64) + 0x0080_0000;
        let e2: i32 = (exp as i32) - 150;
        proof {
            if e2 >= 0 {
                lemma_mag_fits(mfull as nat, e2 as nat, 24, 40);
            }
        }
        decide_mag(neg, mfull, e2)
    }
}

/// A mantissa below `2^mcap` scaled by at most `2^ecap` stays below
/// `2^(mcap + ecap)`.
proof fn lemma_mag_fits(mfull: nat, e2: nat, mcap: nat, ecap: nat)
    requires
        mfull < pow2(mcap),
        e2 <= ecap,
    ensures
        mfull * pow2(e2) < pow2((mcap + ecap) as nat),
{
    lemma_pow2_adds(mcap, ecap);
    if e2 < ecap {
        lemma_pow2_strictly_increases(e2, ecap);
    }
    lemma_pow2_pos(e2);
    lemma_pow2_pos(ecap);
    assert(mfull * pow2(e2) < pow2(mcap) * pow2(ecap)) by (nonlinear_arith)
        requires
            mfull < pow2(mcap),
            pow2(e2) <= pow2(ecap),
            pow2(e2) >= 1,
            pow2(ecap) >= 1,
    ;
}

/// A mantissa of at least `2^mlow` scaled by at least `2^elow`, with
/// `mlow + elow == 64`, gives a whole-number magnitude too large to fold:
/// the decision is always the float literal.
proof fn lemma_too_big(mfull: nat, exp2: int, mlow: nat, elow: nat)
    requires
        mfull >= pow2(mlow),
        exp2 >= elow,
        mlow + elow == 64,
    ensures
        forall|neg: bool| token_decision(neg, mfull, exp2) == NumberToken::Float,
{
    lemma_pow2_adds(mlow, elow);
    lemma2_to64();
    lemma2_to64_rest();
    if exp2 > elow {
        lemma_pow2_strictly_increases(elow, exp2 as nat);
    }
    lemma_pow2_pos(elow);
    assert(mfull * pow2(exp2 as nat) >= pow2(mlow) * pow2(elow)) by (nonlinear_arith)
        requires
            mfull >= pow2(mlow),
            pow2(exp2 as nat) >= pow2(elow),
            pow2(mlow) >= 0,
            pow2(elow) >= 1,
    ;
    assert(mag_int(mfull, exp2) >= pow2(64));
}

/// The encoded double-precision value is a whole number.
pub open spec fn double_is_integer(bits: u64) -> bool {
    double_is_finite(bits) && mag_is_integral(double_mfull(bits), double_exp2(bits))
}

/// The signed whole-number value of an integral double-precision pattern.
pub open spec fn double_int_value(bits: u64) -> int {
    if double_sign(bits) {
        -(mag_int(double_mfull(bits), double_exp2(bits)) as int)
    } else {
        mag_int(double_mfull(bits), double_exp2(bits)) as int
    }
}

/// Law: every finite double-precision value that equals a whole number in
/// signed 64-bit range is rendered as the plain decimal integer token of
/// exactly that number.
pub proof fn lemma_integer_in_range_folds(bits: u64)
    requires
        double_is_integer(bits),
        -0x8000_0000_0000_0000 <= double_int_value(bits) <= 0x7fff_ffff_ffff_ffff,
    ensures
        double_token(bits) == NumberToken::Int(double_int_value(bits) as i64),
{
}

/// Law: every other finite double-precision value is rendered as a float
/// literal.  The one input left out is the value `2^63` itself: there the
/// saturating 64-bit cast clamps the rounded value to `i64::MAX`, which
/// still compares equal to `2^63` after rounding back, so that single
/// out-of-range value folds to the integer token `i64::MAX`.
pub proof fn lemma_other_finite_stays_float(bits: u64)
    requires
        double_is_finite(bits),
        !(double_is_integer(bits)
            && -0x8000_0000_0000_0000 <= double_int_value(bits) <= 0x7fff_ffff_ffff_ffff),
        !(double_is_integer(bits)
            && !double_sign(bits)
            && mag_int(double_mfull(bits), double_exp2(bits)) == 0x8000_0000_0000_0000),
    ensures
        double_token(bits) == NumberToken::Float,
{
}

/// Law: the decision does not depend on how a magnitude is decomposed into
/// mantissa and exponent.  Two decompositions of the same magnitude give
/// the same token; this is why the single- and double-precision rules agree
/// on every value that both widths can represent.
pub proof fn lemma_token_width_independent(neg: bool, m1: nat, e1: int, m2: nat, e2: int)
    requires
        e1 <= e2,
        m1 == m2 * pow2((e2 - e1) as nat),
    ensures
        token_decision(neg, m1, e1) == token_decision(neg, m2, e2),
{
    let d = (e2 - e1) as nat;
    lemma_pow2_pos(d);
    if e1 >= 0 {
        lemma_pow2_adds(d, e1 as nat);
        assert(m1 * pow2(e1 as nat) == m2 * pow2(e2 as nat)) by (nonlinear_arith)
            requires
                m1 == m2 * pow2(d),
                pow2(e2 as nat) == pow2(d) * pow2(e1 as nat),
        ;
    } else if e2 >= 0 {
        let s1 = (-e1) as nat;
        lemma_pow2_adds((d - s1) as nat, s1);
        lemma_pow2_pos(s1);
        lemma_pow2_pos((d - s1) as nat);
        assert(m1 == (m2 * pow2((d - s1) as nat)) * pow2(s1)) by (nonlinear_arith)
            requires
                m1 == m2 * pow2(d),
                pow2(d) == pow2((d - s1) as nat) * pow2(s1),
        ;
        lemma_mod_multiples_basic(
            (m2 * pow2((d - s1) as nat)) as int,
            pow2(s1) as int,
        );
        lemma_div_by_multiple(
            (m2 * pow2((d - s1) as nat)) as int,
            pow2(s1) as int,
        );
        assert(mag_int(m1, e1) == m2 * pow2((d - s1) as nat));
        assert(d - s1 == e2);
    } else {
        let s1 = (-e1) as nat;
        let s2 = (-e2) as nat;
        lemma_pow2_adds(d, s2);
        lemma_pow2_pos(s1);
        lemma_pow2_pos(s2);
        lemma_mod_breakdown(m1 as int, pow2(d) as int, pow2(s2) as int);
        lemma_mod_multiples_basic(m2 as int, pow2(d) as int);
        lemma_div_by_multiple(m2 as int, pow2(d) as int);
        assert(m1 as int % (pow2(s1) as int) == pow2(d) * (m2 as int % (pow2(s2) as int))) by {
            assert(m1 as int % (pow2(d) as int * pow2(s2) as int)
                == pow2(d) * ((m1 as int / pow2(d) as int) % pow2(s2) as int)
                    + m1 as int % pow2(d) as int);
            assert(m1 as int % pow2(d) as int == 0);
            assert(m1 as int / pow2(d) as int == m2);
        }
        assert(mag_is_integral(m1, e1) == mag_is_integral(m2, e2)) by {
            assert(m1 as int % (pow2(s1) as int) == 0 <==> m2 as int % (pow2(s2) as int) == 0)
                by (nonlinear_arith)
                requires
                    m1 as int % (pow2(s1) as int) == pow2(d) * (m2 as int % (pow2(s2) as int)),
                    pow2(d) >= 1,
                    m2 as int % (pow2(s2) as int) >= 0,
            ;
        }
        if mag_is_integral(m2, e2) {
            lemma_div_denominator(m1 as int, pow2(d) as int, pow2(s2) as int);
            assert(m1 as int / pow2(s1) as int
                == (m1 as int / pow2(d) as int) / pow2(s2) as int);
            assert(mag_int(m1, e1) == mag_int(m2, e2));
        }
    }
}

/// Law: a single-precision pattern and a double-precision pattern that
/// decompose to the same sign and the same magnitude get the same token
/// (width independence of the policy).
pub proof fn lemma_single_double_agree(b32: u32, b64: u64)
    requires
        single_is_finite(b32),
        double_is_finite(b64),
        single_sign(b32) == double_sign(b64),
        double_exp2(b64) <= single_exp2(b32),
        double_mfull(b64) == single_mfull(b32)
            * pow2((single_exp2(b32) - double_exp2(b64)) as nat),
    ensures
        single_token(b32) == double_token(b64),
{
    lemma_token_width_independent(
        single_sign(b32),
        double_mfull(b64),
        double_exp2(b64),
        single_mfull(b32),
        single_exp2(b32),
    );
}

} // verus!
