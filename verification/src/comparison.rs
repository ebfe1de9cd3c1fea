//! How two numbers stand to each other, as the three-way result that the
//! comparisons of this library return.

use std::cmp::Ordering;
use vstd::prelude::*;

verus! {

/// How the natural number `a` stands to `b`.
pub open spec fn ordering_of_nats(a: nat, b: nat) -> Ordering {
    if a < b {
        Ordering::Less
    } else if a == b {
        Ordering::Equal
    } else {
        Ordering::Greater
    }
}

/// How the integer `a` stands to `b`.
pub open spec fn ordering_of_ints(a: int, b: int) -> Ordering {
    if a < b {
        Ordering::Less
    } else if a == b {
        Ordering::Equal
    } else {
        Ordering::Greater
    }
}

/// The result of the comparison with the sides exchanged.
pub open spec fn reversed(o: Ordering) -> Ordering {
    match o {
        Ordering::Less => Ordering::Greater,
        Ordering::Equal => Ordering::Equal,
        Ordering::Greater => Ordering::Less,
    }
}

/// Returns the result of the comparison with the sides exchanged.
pub fn reverse_ordering(o: Ordering) -> (r: Ordering)
    ensures
        r == reversed(o),
{
    match o {
        Ordering::Less => Ordering::Greater,
        Ordering::Equal => Ordering::Equal,
        Ordering::Greater => Ordering::Less,
    }
}

/// Turns the sign of a difference into the result of a comparison.
pub fn ordering_of_sign(sign: i8) -> (r: Ordering)
    ensures
        sign < 0 ==> r == Ordering::Less,
        sign == 0 ==> r == Ordering::Equal,
        sign > 0 ==> r == Ordering::Greater,
{
    if sign < 0 {
        Ordering::Less
    } else if sign == 0 {
        Ordering::Equal
    } else {
        Ordering::Greater
    }
}

/// The place of a comparison result among the three: -1, 0 or 1.
pub open spec fn ordering_rank(o: Ordering) -> int {
    match o {
        Ordering::Less => -1,
        Ordering::Equal => 0,
        Ordering::Greater => 1,
    }
}

/// Compares two comparison results: `Less` comes before `Equal`, and
/// `Equal` before `Greater`.
pub fn compare_orderings(a: Ordering, b: Ordering) -> (r: Ordering)
    ensures
        r == ordering_of_ints(ordering_rank(a), ordering_rank(b)),
{
    match (a, b) {
        (Ordering::Less, Ordering::Less) => Ordering::Equal,
        (Ordering::Less, _) => Ordering::Less,
        (Ordering::Equal, Ordering::Less) => Ordering::Greater,
        (Ordering::Equal, Ordering::Equal) => Ordering::Equal,
        (Ordering::Equal, Ordering::Greater) => Ordering::Less,
        (Ordering::Greater, Ordering::Greater) => Ordering::Equal,
        (Ordering::Greater, _) => Ordering::Greater,
    }
}

/// Whether a comparison found the two sides equal.
pub fn is_equal(o: Ordering) -> (r: bool)
    ensures
        r == (o == Ordering::Equal),
{
    match o {
        Ordering::Equal => true,
        _ => false,
    }
}

} // verus!
