//! 64-bit floats as their IEEE 754 bits: order, arithmetic, text.

use vstd::prelude::*;
use arrow::datatypes::ArrowPrimitiveType;
use arrow::datatypes::Float64Type;

verus! {

/// The weight of the sign bit.
pub open spec fn sign_weight() -> int {
    0x8000_0000_0000_0000
}

/// The bits without the sign.
pub open spec fn magnitude(a: u64) -> int {
    if a as int >= sign_weight() { a - sign_weight() } else { a as int }
}

/// The bits are those of a NaN.
pub open spec fn is_nan(a: u64) -> bool {
    magnitude(a) > 0x7ff0_0000_0000_0000
}

/// The bits are those of a zero, of either sign.
pub open spec fn is_zero(a: u64) -> bool {
    magnitude(a) == 0
}

/// Equal bits, or two NaNs.
pub open spec fn same_float(a: u64, b: u64) -> bool {
    a == b || (is_nan(a) && is_nan(b))
}

/// Where a number stands among all numbers; the two zeros share a place.
pub open spec fn place(a: u64) -> int {
    if a as int >= sign_weight() { sign_weight() - a } else { a as int }
}

/// Where the bits stand in IEEE 754's total order, in which no two share a place.
pub open spec fn total_place(a: u64) -> int {
    if a as int >= sign_weight() { sign_weight() - a - 1 } else { a as int }
}

/// Whether the bits are those of a NaN.
pub fn float_is_nan(a: u64) -> (r: bool)
    ensures
        r == is_nan(a),
{
    if a >= 0x8000_0000_0000_0000 {
        a - 0x8000_0000_0000_0000 > 0x7ff0_0000_0000_0000
    } else {
        a > 0x7ff0_0000_0000_0000
    }
}

/// Whether the number `a` is less than the number `b`, zeros being equal.
pub fn float_below(a: u64, b: u64) -> (r: bool)
    ensures
        r == (place(a) < place(b)),
{
    if a >= 0x8000_0000_0000_0000 {
        if b >= 0x8000_0000_0000_0000 {
            a > b
        } else {
            !(a == 0x8000_0000_0000_0000 && b == 0)
        }
    } else {
        b < 0x8000_0000_0000_0000 && a < b
    }
}

/// Whether the bits `a` stand before the bits `b` in the total order.
pub fn total_below(a: u64, b: u64) -> (r: bool)
    ensures
        r == (total_place(a) < total_place(b)),
{
    if a >= 0x8000_0000_0000_0000 {
        b < 0x8000_0000_0000_0000 || a > b
    } else {
        b < 0x8000_0000_0000_0000 && a < b
    }
}

/// The total order agrees with the order of numbers, but for zeros of different sign.
pub proof fn lemma_total_place(a: u64, b: u64)
    requires
        !(is_zero(a) && is_zero(b) && a != b),
    ensures
        place(a) < place(b) <==> total_place(a) < total_place(b),
        place(a) == place(b) <==> total_place(a) == total_place(b),
        total_place(a) == total_place(b) <==> a == b,
{
}

/// The bits that stand for every NaN that the engine itself computes.
pub const QUIET_NAN: u64 = 0x7ff8_0000_0000_0000;

/// The bits, with [`QUIET_NAN`] for any NaN.
pub open spec fn settled(a: u64) -> u64 {
    if is_nan(a) { QUIET_NAN } else { a }
}

/// Puts [`QUIET_NAN`] for any NaN.
pub fn settle(a: u64) -> (r: u64)
    ensures
        r == settled(a),
{
    if float_is_nan(a) { QUIET_NAN } else { a }
}

/// The sum of two floats.
pub uninterp spec fn float_sum(a: u64, b: u64) -> u64;

/// The difference of two floats.
pub uninterp spec fn float_difference(a: u64, b: u64) -> u64;

/// The product of two floats.
pub uninterp spec fn float_product(a: u64, b: u64) -> u64;

/// The quotient of two floats.
pub uninterp spec fn float_quotient(a: u64, b: u64) -> u64;

/// The float nearest to an integer.
pub uninterp spec fn float_of_int(n: i64) -> u64;

/// The float that a text is read as, where it is one.
pub uninterp spec fn float_of_text(s: Seq<char>) -> Option<u64>;

/// How a float is written.
pub uninterp spec fn text_of_float(a: u64) -> Seq<char>;

/// `+` of std's 64-bit float, on bits. Which NaN comes out is left open.
#[verifier::external_body]
pub(crate) fn float_plus(a: u64, b: u64) -> (r: u64)
    ensures
        same_float(r, float_sum(a, b)),
{
    (<Float64Type as ArrowPrimitiveType>::Native::from_bits(a)
        + <Float64Type as ArrowPrimitiveType>::Native::from_bits(b)).to_bits()
}

/// `-` of std's 64-bit float, on bits. Which NaN comes out is left open.
#[verifier::external_body]
pub(crate) fn float_minus(a: u64, b: u64) -> (r: u64)
    ensures
        same_float(r, float_difference(a, b)),
{
    (<Float64Type as ArrowPrimitiveType>::Native::from_bits(a)
        - <Float64Type as ArrowPrimitiveType>::Native::from_bits(b)).to_bits()
}

/// `*` of std's 64-bit float, on bits. Which NaN comes out is left open.
#[verifier::external_body]
pub(crate) fn float_times(a: u64, b: u64) -> (r: u64)
    ensures
        same_float(r, float_product(a, b)),
{
    (<Float64Type as ArrowPrimitiveType>::Native::from_bits(a)
        * <Float64Type as ArrowPrimitiveType>::Native::from_bits(b)).to_bits()
}

/// `/` of std's 64-bit float, on bits. Which NaN comes out is left open.
#[verifier::external_body]
pub(crate) fn float_over(a: u64, b: u64) -> (r: u64)
    ensures
        same_float(r, float_quotient(a, b)),
{
    (<Float64Type as ArrowPrimitiveType>::Native::from_bits(a)
        / <Float64Type as ArrowPrimitiveType>::Native::from_bits(b)).to_bits()
}

/// The cast of an integer to std's 64-bit float: a number, never NaN.
#[verifier::external_body]
pub(crate) fn int_to_float(n: i64) -> (r: u64)
    ensures
        r == float_of_int(n),
        !is_nan(r),
{
    (n as <Float64Type as ArrowPrimitiveType>::Native).to_bits()
}

/// `parse` of std's 64-bit float. Which NaN is read from a text that names one is left open.
#[verifier::external_body]
pub(crate) fn text_to_float(s: &str) -> (r: Option<u64>)
    ensures
        match r {
            Some(v) => float_of_text(s@) is Some && same_float(v, float_of_text(s@)->Some_0),
            None => float_of_text(s@) is None,
        },
{
    s.parse::<<Float64Type as ArrowPrimitiveType>::Native>().ok().map(|v| v.to_bits())
}

/// `Display` of std's 64-bit float.
#[verifier::external_body]
pub(crate) fn float_to_text(a: u64) -> (r: String)
    ensures
        r@ == text_of_float(a),
{
    format!("{}", <Float64Type as ArrowPrimitiveType>::Native::from_bits(a))
}

} // verus!
