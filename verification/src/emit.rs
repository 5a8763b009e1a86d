//! Emission of the integer tokens the policy folds to.
//!
//! The decimal text of the folded integer is written by the base
//! formatter of the JSON engine; its output is pinned down here, byte for
//! byte, by a spec of the plain decimal representation.

use vstd::prelude::*;
use crate::decision::{NumberToken, double_token, single_token, decide_double_bits,
    decide_single_bits, double_is_integer, double_int_value, lemma_integer_in_range_folds};

verus! {

/// The ASCII decimal digits of `n`, most significant first.
pub open spec fn dec_digits(n: nat) -> Seq<u8>
    decreases n,
{
    if n < 10 {
        seq![(48 + n) as u8]
    } else {
        dec_digits(n / 10).push((48 + n % 10) as u8)
    }
}

/// The decimal token of a signed integer: a minus sign for a negative
/// number, then the digits of the magnitude.
pub open spec fn dec_token(n: int) -> Seq<u8> {
    if n < 0 {
        seq![45u8] + dec_digits((-n) as nat)
    } else {
        dec_digits(n as nat)
    }
}

/// Relies on `serde_json::ser::Formatter::write_i64` (the default method,
/// shared by `CompactFormatter` and `PrettyFormatter`): it writes the plain
/// decimal representation of the integer, such as `-123`, to the writer,
/// and writing into a `Vec<u8>` cannot fail.
#[verifier::external_body]
fn append_i64_decimal(out: &mut Vec<u8>, n: i64)
    ensures
        final(out)@ == old(out)@ + dec_token(n as int),
{
    let mut base = serde_json::ser::CompactFormatter;
    let _ = serde_json::ser::Formatter::write_i64(&mut base, out, n);
}

/// Appends the number token chosen for a double-precision bit pattern:
/// the plain decimal integer token when the policy folds the value, and
/// nothing when the value is left to the base float formatter.  Returns
/// whether an integer token was written.
pub fn render_double_int(out: &mut Vec<u8>, bits: u64) -> (wrote: bool)
    ensures
        (double_token(bits) matches NumberToken::Int(n)
            ==> wrote && final(out)@ == old(out)@ + dec_token(n as int)),
        (double_token(bits) is Float ==> !wrote && final(out)@ == old(out)@),
{
    match decide_double_bits(bits) {
        NumberToken::Int(n) => {
            append_i64_decimal(out, n);
            true
        },
        NumberToken::Float => false,
    }
}

/// Appends the number token chosen for a single-precision bit pattern,
/// in the same way as for double precision.
pub fn render_single_int(out: &mut Vec<u8>, bits: u32) -> (wrote: bool)
    ensures
        (single_token(bits) matches NumberToken::Int(n)
            ==> wrote && final(out)@ == old(out)@ + dec_token(n as int)),
        (single_token(bits) is Float ==> !wrote && final(out)@ == old(out)@),
{
    match decide_single_bits(bits) {
        NumberToken::Int(n) => {
            append_i64_decimal(out, n);
            true
        },
        NumberToken::Float => false,
    }
}

proof fn lemma_dec_digits_ascii(n: nat)
    ensures
        dec_digits(n).len() >= 1,
        forall|i: int| 0 <= i < dec_digits(n).len()
            ==> 48 <= #[trigger] dec_digits(n)[i] <= 57,
    decreases n,
{
    if n >= 10 {
        lemma_dec_digits_ascii(n / 10);
    }
}

/// Law: an integer token is plain decimal text: an optional leading minus
/// sign followed only by digits.  In particular it never contains a
/// decimal point, an exponent marker, or any other byte.
pub proof fn lemma_dec_token_plain(n: int)
    ensures
        dec_token(n).len() >= 1,
        forall|i: int| 0 <= i < dec_token(n).len()
            ==> (#[trigger] dec_token(n)[i] == 45 || 48 <= dec_token(n)[i] <= 57),
        forall|i: int| 1 <= i < dec_token(n).len()
            ==> 48 <= #[trigger] dec_token(n)[i] <= 57,
{
    if n < 0 {
        lemma_dec_digits_ascii((-n) as nat);
    } else {
        lemma_dec_digits_ascii(n as nat);
    }
}

/// Law: every finite double-precision value that equals a whole number in
/// signed 64-bit range is emitted as the plain decimal integer token of
/// that number: an optional minus sign followed only by digits, never a
/// decimal point or an exponent marker.
pub proof fn lemma_integral_double_emits_plain_decimal(bits: u64)
    requires
        double_is_integer(bits),
        -0x8000_0000_0000_0000 <= double_int_value(bits) <= 0x7fff_ffff_ffff_ffff,
    ensures
        double_token(bits) == NumberToken::Int(double_int_value(bits) as i64),
        dec_token(double_int_value(bits)).len() >= 1,
        forall|i: int| 0 <= i < dec_token(double_int_value(bits)).len()
            ==> (#[trigger] dec_token(double_int_value(bits))[i] == 45
                || 48 <= dec_token(double_int_value(bits))[i] <= 57),
{
    lemma_integer_in_range_folds(bits);
    lemma_dec_token_plain(double_int_value(bits));
}

} // verus!
