//! The ordering of `f32` values, computed on their IEEE-754 bit patterns.
//!
//! Stop positions and sample points are carried as the raw bits of an `f32`
//! (`f32::to_bits`), so that the ordering logic of the gradient can be
//! verified on integers. Two orderings are provided:
//!
//! * the partial order of `f32` (`PartialOrd for f32`): NaN is unordered,
//!   `-0.0 == +0.0`;
//! * the total order used for sorting stops (`emath::OrderedFloat`): like the
//!   partial order, except that every NaN is equal to every other NaN and
//!   greater than every other value.

use vstd::prelude::*;

verus! {

/// The bit pattern of the sign bit of an `f32`.
pub const SIGN_BIT: u32 = 0x8000_0000u32;

/// The bit pattern of positive infinity, the largest non-NaN magnitude.
pub const INFINITY_BITS: u32 = 0x7f80_0000u32;

/// The result of comparing two ordered values.
#[derive(Clone, Copy, Debug, PartialEq, Eq, Structural)]
pub enum FloatOrder {
    Less,
    Equal,
    Greater,
}

/// The magnitude bits of `b` (all bits but the sign bit).
pub open spec fn magnitude(b: u32) -> int {
    if b < SIGN_BIT {
        b as int
    } else {
        b - SIGN_BIT
    }
}

/// `b` encodes a NaN: all exponent bits set and a non-zero mantissa.
pub open spec fn is_nan_bits(b: u32) -> bool {
    magnitude(b) > INFINITY_BITS
}

/// The position of a non-NaN `f32` on the integer line: equal ranks for equal
/// values (so `-0.0` and `+0.0` share rank 0), larger ranks for larger values.
pub open spec fn value_rank(b: u32) -> int {
    if b < SIGN_BIT {
        b as int
    } else {
        SIGN_BIT - b
    }
}

/// What `a.partial_cmp(&b)` gives for the `f32` values with bits `a` and `b`.
pub open spec fn spec_compare(a: u32, b: u32) -> Option<FloatOrder> {
    if is_nan_bits(a) || is_nan_bits(b) {
        None
    } else if value_rank(a) < value_rank(b) {
        Some(FloatOrder::Less)
    } else if value_rank(a) == value_rank(b) {
        Some(FloatOrder::Equal)
    } else {
        Some(FloatOrder::Greater)
    }
}

/// `a <= b` in the partial order of `f32` (false when either is NaN).
pub open spec fn float_le(a: u32, b: u32) -> bool {
    !is_nan_bits(a) && !is_nan_bits(b) && value_rank(a) <= value_rank(b)
}

/// The key of `b` in the total order of `OrderedFloat<f32>`: NaNs above
/// everything, all NaNs equal.
pub open spec fn total_rank(b: u32) -> int {
    if is_nan_bits(b) {
        SIGN_BIT as int
    } else {
        value_rank(b)
    }
}

/// `b` encodes a NaN.
pub fn is_nan(b: u32) -> (r: bool)
    ensures
        r == is_nan_bits(b),
{
    if b < SIGN_BIT {
        b > INFINITY_BITS
    } else {
        b - SIGN_BIT > INFINITY_BITS
    }
}

/// `a.partial_cmp(&b)` for the `f32` values with bits `a` and `b`.
pub fn compare_bits(a: u32, b: u32) -> (r: Option<FloatOrder>)
    ensures
        r == spec_compare(a, b),
{
    if is_nan(a) || is_nan(b) {
        return None;
    }
    let ra = signed_rank(a);
    let rb = signed_rank(b);
    if ra < rb {
        Some(FloatOrder::Less)
    } else if ra == rb {
        Some(FloatOrder::Equal)
    } else {
        Some(FloatOrder::Greater)
    }
}

/// The rank of a value, as computed by `value_rank`.
fn signed_rank(b: u32) -> (r: i64)
    ensures
        r == value_rank(b),
{
    if b < SIGN_BIT {
        b as i64
    } else {
        SIGN_BIT as i64 - b as i64
    }
}

/// The sort key of the value with bits `b` under `OrderedFloat`'s total order.
pub fn total_order_key(b: u32) -> (k: i64)
    ensures
        k == total_rank(b),
{
    if is_nan(b) {
        SIGN_BIT as i64
    } else {
        signed_rank(b)
    }
}

/// The total order refines the partial order: where two values are ordered,
/// their sort keys are ordered the same way, and a NaN sorts after every
/// value that is not a NaN.
pub proof fn lemma_total_order_extends_partial(a: u32, b: u32)
    ensures
        spec_compare(a, b) == Some(FloatOrder::Less) ==> total_rank(a) < total_rank(b),
        spec_compare(a, b) == Some(FloatOrder::Equal) ==> total_rank(a) == total_rank(b),
        spec_compare(a, b) == Some(FloatOrder::Greater) ==> total_rank(a) > total_rank(b),
        is_nan_bits(a) && !is_nan_bits(b) ==> total_rank(b) < total_rank(a),
        is_nan_bits(a) && is_nan_bits(b) ==> total_rank(a) == total_rank(b),
{
}

} // verus!
