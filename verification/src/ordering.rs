//! The order of values.
//!
//! Numbers, groups of four numbers and strings have an order; no other pair of
//! values has one, and asking for it is a fault that the caller can report.

use vstd::prelude::*;
use crate::fault::ValueError;
use crate::number::{
    number_partial_order, number_total_order, partial_order, partial_order32,
    single_partial_order, total_order, Order,
};
use crate::text::chars_of;
use crate::value::{Value, Vec4};

verus! {

/// The order of two texts: that of the first character in which they differ, by its
/// code point, and else that of their lengths.
pub open spec fn text_order(a: Seq<char>, b: Seq<char>) -> Order
    decreases a.len(),
{
    if a.len() == 0 || b.len() == 0 {
        if a.len() < b.len() {
            Order::Less
        } else if a.len() == b.len() {
            Order::Equal
        } else {
            Order::Greater
        }
    } else if a[0] != b[0] {
        if (a[0] as u32) < (b[0] as u32) {
            Order::Less
        } else {
            Order::Greater
        }
    } else {
        text_order(a.drop_first(), b.drop_first())
    }
}

/// The order of a pair whose first parts have the order `first` and whose other parts
/// have the order `rest`: that of the first parts unless they are equal.
pub open spec fn and_then_order(first: Option<Order>, rest: Option<Order>) -> Option<Order> {
    match first {
        Some(Order::Equal) => rest,
        _ => first,
    }
}

/// The partial order of four singles: that of the first place in which they are not
/// equal, and none where the numbers in that place have none.
pub open spec fn vec4_partial_order(a: Vec4, b: Vec4) -> Option<Order> {
    and_then_order(
        partial_order32(a.x, b.x),
        and_then_order(
            partial_order32(a.y, b.y),
            and_then_order(partial_order32(a.z, b.z), partial_order32(a.w, b.w)),
        ),
    )
}

/// The partial order of two values: defined between two numbers, two groups of four
/// numbers and two strings, a fault for every other pair.
pub open spec fn partial_order_of<F>(a: Value<F>, b: Value<F>) -> Result<Option<Order>, ValueError> {
    match (a, b) {
        (Value::Number(x), Value::Number(y)) => Ok(partial_order(x, y)),
        (Value::Vec4(x), Value::Vec4(y)) => Ok(vec4_partial_order(x, y)),
        (Value::Str(x), Value::Str(y)) => Ok(Some(text_order(x@, y@))),
        _ => Err(ValueError::UnsupportedComparison),
    }
}

/// The total order of two values, used for sorting: defined between two numbers and
/// two strings, a fault for every other pair.
pub open spec fn total_order_of<F>(a: Value<F>, b: Value<F>) -> Result<Order, ValueError> {
    match (a, b) {
        (Value::Number(x), Value::Number(y)) => Ok(total_order(x, y)),
        (Value::Str(x), Value::Str(y)) => Ok(text_order(x@, y@)),
        _ => Err(ValueError::UnsupportedComparison),
    }
}

/// The order of two texts does not change when a common start is left out.
proof fn lemma_text_order_skip(a: Seq<char>, b: Seq<char>, n: int)
    requires
        0 <= n <= a.len(),
        n <= b.len(),
        forall|k: int| 0 <= k < n ==> a[k] == b[k],
    ensures
        text_order(a, b) == text_order(a.skip(n), b.skip(n)),
    decreases n,
{
    if n == 0 {
        assert(a.skip(0) =~= a);
        assert(b.skip(0) =~= b);
    } else {
        lemma_text_order_skip(a.drop_first(), b.drop_first(), n - 1);
        assert(a.drop_first().skip(n - 1) =~= a.skip(n));
        assert(b.drop_first().skip(n - 1) =~= b.skip(n));
    }
}

/// Compares two texts.
pub fn order_texts(a: &str, b: &str) -> (order: Order)
    ensures
        order == text_order(a@, b@),
{
    let x = chars_of(a);
    let y = chars_of(b);
    let mut i: usize = 0;
    while i < x.len() && i < y.len() && x[i] == y[i]
        invariant
            i <= x.len(),
            i <= y.len(),
            forall|k: int| 0 <= k < i ==> x@[k] == y@[k],
        decreases x.len() - i,
    {
        i += 1;
    }
    proof {
        lemma_text_order_skip(x@, y@, i as int);
    }
    if i < x.len() && i < y.len() {
        if (x[i] as u32) < (y[i] as u32) {
            Order::Less
        } else {
            Order::Greater
        }
    } else if x.len() < y.len() {
        Order::Less
    } else if x.len() == y.len() {
        Order::Equal
    } else {
        Order::Greater
    }
}

/// Compares two groups of four singles in their partial order.
pub fn order_vec4(a: &Vec4, b: &Vec4) -> (order: Option<Order>)
    ensures
        order == vec4_partial_order(*a, *b),
{
    match single_partial_order(a.x, b.x) {
        Some(Order::Equal) => match single_partial_order(a.y, b.y) {
            Some(Order::Equal) => match single_partial_order(a.z, b.z) {
                Some(Order::Equal) => single_partial_order(a.w, b.w),
                other => other,
            },
            other => other,
        },
        other => other,
    }
}

/// Compares two values in their partial order.
pub fn partial_compare<F>(a: &Value<F>, b: &Value<F>) -> (out: Result<Option<Order>, ValueError>)
    ensures
        out == partial_order_of(*a, *b),
{
    match (a, b) {
        (Value::Number(x), Value::Number(y)) => Ok(number_partial_order(*x, *y)),
        (Value::Vec4(x), Value::Vec4(y)) => Ok(order_vec4(x, y)),
        (Value::Str(x), Value::Str(y)) => Ok(Some(order_texts(x.as_str(), y.as_str()))),
        _ => Err(ValueError::UnsupportedComparison),
    }
}

/// Compares two values in the total order used for sorting.
pub fn total_compare<F>(a: &Value<F>, b: &Value<F>) -> (out: Result<Order, ValueError>)
    ensures
        out == total_order_of(*a, *b),
{
    match (a, b) {
        (Value::Number(x), Value::Number(y)) => Ok(number_total_order(*x, *y)),
        (Value::Str(x), Value::Str(y)) => Ok(order_texts(x.as_str(), y.as_str())),
        _ => Err(ValueError::UnsupportedComparison),
    }
}

} // verus!
