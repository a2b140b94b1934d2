//! Floating-point numbers, held by their IEEE 754 bit patterns.
//!
//! A number is never computed with here; it is only compared. Comparison needs no
//! more than the sign, the exponent and the fraction of each side, so a number is
//! kept as the unsigned integer with the same bits.

use vstd::prelude::*;

verus! {

/// How the first of two numbers stands to the second.
#[derive(Clone, Copy, Debug, PartialEq, Eq, Structural)]
pub enum Order {
    Less,
    Equal,
    Greater,
}

/// The order of two integers.
pub open spec fn order_of(a: int, b: int) -> Order {
    if a < b {
        Order::Less
    } else if a == b {
        Order::Equal
    } else {
        Order::Greater
    }
}

/// A double is not a number when its exponent is all ones and its fraction is not zero.
pub open spec fn is_nan(bits: u64) -> bool {
    (bits & 0x7fff_ffff_ffff_ffff) > 0x7ff0_0000_0000_0000
}

/// The place of a double on the number line: its magnitude, negated under a set sign
/// bit. Both zeros stand at 0. Meaningful for every double that is a number.
pub open spec fn rank(bits: u64) -> int {
    let magnitude = (bits & 0x7fff_ffff_ffff_ffff) as int;
    if bits & 0x8000_0000_0000_0000 != 0 {
        -magnitude
    } else {
        magnitude
    }
}

/// Equality of doubles: never for what is not a number, else by place on the number line.
pub open spec fn numbers_equal(a: u64, b: u64) -> bool {
    !is_nan(a) && !is_nan(b) && rank(a) == rank(b)
}

/// The partial order of doubles: none where either side is not a number.
pub open spec fn partial_order(a: u64, b: u64) -> Option<Order> {
    if is_nan(a) || is_nan(b) {
        None
    } else {
        Some(order_of(rank(a), rank(b)))
    }
}

/// The total order of doubles used for sorting: what is not a number stands above
/// every number and level with itself.
pub open spec fn total_order(a: u64, b: u64) -> Order {
    if is_nan(a) && is_nan(b) {
        Order::Equal
    } else if is_nan(b) {
        Order::Less
    } else if is_nan(a) {
        Order::Greater
    } else {
        order_of(rank(a), rank(b))
    }
}

/// A single is not a number when its exponent is all ones and its fraction is not zero.
pub open spec fn is_nan32(bits: u32) -> bool {
    (bits & 0x7fff_ffff) > 0x7f80_0000
}

/// The place of a single on the number line.
pub open spec fn rank32(bits: u32) -> int {
    let magnitude = (bits & 0x7fff_ffff) as int;
    if bits & 0x8000_0000 != 0 {
        -magnitude
    } else {
        magnitude
    }
}

/// Equality of singles.
pub open spec fn singles_equal(a: u32, b: u32) -> bool {
    !is_nan32(a) && !is_nan32(b) && rank32(a) == rank32(b)
}

/// The partial order of singles.
pub open spec fn partial_order32(a: u32, b: u32) -> Option<Order> {
    if is_nan32(a) || is_nan32(b) {
        None
    } else {
        Some(order_of(rank32(a), rank32(b)))
    }
}

/// Whether a double is not a number.
pub fn number_is_nan(bits: u64) -> (nan: bool)
    ensures
        nan == is_nan(bits),
{
    (bits & 0x7fff_ffff_ffff_ffff) > 0x7ff0_0000_0000_0000
}

/// The place of a double on the number line.
pub fn number_rank(bits: u64) -> (place: i64)
    ensures
        place == rank(bits),
{
    let magnitude: u64 = bits & 0x7fff_ffff_ffff_ffff;
    assert(magnitude <= 0x7fff_ffff_ffff_ffff) by (bit_vector)
        requires
            magnitude == bits & 0x7fff_ffff_ffff_ffff,
    ;
    if bits & 0x8000_0000_0000_0000 != 0 {
        -(magnitude as i64)
    } else {
        magnitude as i64
    }
}

/// The order of two integers.
pub fn order_places(a: i64, b: i64) -> (order: Order)
    ensures
        order == order_of(a as int, b as int),
{
    if a < b {
        Order::Less
    } else if a == b {
        Order::Equal
    } else {
        Order::Greater
    }
}

/// Compares two doubles for equality.
pub fn number_eq(a: u64, b: u64) -> (equal: bool)
    ensures
        equal == numbers_equal(a, b),
{
    !number_is_nan(a) && !number_is_nan(b) && number_rank(a) == number_rank(b)
}

/// Compares two doubles in their partial order.
pub fn number_partial_order(a: u64, b: u64) -> (order: Option<Order>)
    ensures
        order == partial_order(a, b),
{
    if number_is_nan(a) || number_is_nan(b) {
        None
    } else {
        Some(order_places(number_rank(a), number_rank(b)))
    }
}

/// Compares two doubles in the total order used for sorting.
pub fn number_total_order(a: u64, b: u64) -> (order: Order)
    ensures
        order == total_order(a, b),
{
    let a_nan = number_is_nan(a);
    let b_nan = number_is_nan(b);
    if a_nan && b_nan {
        Order::Equal
    } else if b_nan {
        Order::Less
    } else if a_nan {
        Order::Greater
    } else {
        order_places(number_rank(a), number_rank(b))
    }
}

/// Whether a single is not a number.
pub fn single_is_nan(bits: u32) -> (nan: bool)
    ensures
        nan == is_nan32(bits),
{
    (bits & 0x7fff_ffff) > 0x7f80_0000
}

/// The place of a single on the number line.
pub fn single_rank(bits: u32) -> (place: i64)
    ensures
        place == rank32(bits),
{
    let magnitude: u32 = bits & 0x7fff_ffff;
    if bits & 0x8000_0000 != 0 {
        -(magnitude as i64)
    } else {
        magnitude as i64
    }
}

/// Compares two singles for equality.
pub fn single_eq(a: u32, b: u32) -> (equal: bool)
    ensures
        equal == singles_equal(a, b),
{
    !single_is_nan(a) && !single_is_nan(b) && single_rank(a) == single_rank(b)
}

/// Compares two singles in their partial order.
pub fn single_partial_order(a: u32, b: u32) -> (order: Option<Order>)
    ensures
        order == partial_order32(a, b),
{
    if single_is_nan(a) || single_is_nan(b) {
        None
    } else {
        Some(order_places(single_rank(a), single_rank(b)))
    }
}

/// In the total order, what is not a number stands above every number and level
/// with whatever else is not a number.
pub proof fn lemma_nan_is_greatest(nan: u64, other: u64)
    requires
        is_nan(nan),
    ensures
        is_nan(other) ==> total_order(nan, other) == Order::Equal && total_order(other, nan)
            == Order::Equal,
        !is_nan(other) ==> total_order(nan, other) == Order::Greater && total_order(other, nan)
            == Order::Less,
{
}

/// Between numbers the total order is the partial order.
pub proof fn lemma_total_order_extends_partial(a: u64, b: u64)
    requires
        !is_nan(a),
        !is_nan(b),
    ensures
        partial_order(a, b) == Some(total_order(a, b)),
{
}

} // verus!
