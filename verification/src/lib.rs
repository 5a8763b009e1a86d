//! A JSON serialization policy in the style of a JavaScript runtime: a
//! floating-point number that is mathematically equal to an integer in
//! signed 64-bit range is emitted as a plain decimal integer token, and
//! every other number as an ordinary JSON float literal.
//!
//! Floating-point values are handled through their IEEE-754 bit patterns,
//! so the decision rule is ordinary integer arithmetic and is verified
//! against a mathematical model of the encoded magnitude.

use vstd::prelude::*;

pub mod decision;
pub mod emit;

verus! {

/// Marker for the compact policy: JSON with no extra whitespace, with
/// integral floats folded to plain integer tokens.  The decision rule it
/// stands for is [`decision::decide_double_bits`] and
/// [`decision::decide_single_bits`]; the callback plumbing that feeds
/// float values to the rule lives with the serializer entry points,
/// outside the verified library.
#[derive(Clone, Debug)]
pub struct CompactV8Formatter;

} // verus!
