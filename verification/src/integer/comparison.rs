//! Three-way comparisons of integers, and of their absolute values with
//! machine words.

use crate::comparison::{ordering_of_ints, ordering_of_nats, ordering_of_sign, reverse_ordering};
use crate::integer::order::{magnitude_of_i32, nat_of_u32, sign_of_scaled_abs_difference};
use crate::integer::Integer;
use std::cmp::Ordering;
use vstd::prelude::*;

verus! {

impl Integer {
    /// How the integer stands to zero.
    pub fn sign_ordering(&self) -> (r: Ordering)
        requires
            self.wf(),
        ensures
            r == ordering_of_ints(self@, 0),
    {
        ordering_of_sign(self.signum())
    }

    /// Compares two integers.
    pub fn cmp(&self, other: &Integer) -> (r: Ordering)
        requires
            self.wf(),
            other.wf(),
        ensures
            r == ordering_of_ints(self@, other@),
    {
        ordering_of_sign(self.sign_of_difference(other))
    }

    /// Compares two integers; the result is never `None`.
    pub fn partial_cmp(&self, other: &Integer) -> (r: Option<Ordering>)
        requires
            self.wf(),
            other.wf(),
        ensures
            r == Some(ordering_of_ints(self@, other@)),
    {
        Some(self.cmp(other))
    }

    /// Compares the absolute value of the integer with an unsigned word.
    pub fn partial_cmp_abs_u32(&self, other: u32) -> (r: Option<Ordering>)
        requires
            self.wf(),
        ensures
            r == Some(ordering_of_nats(self.abs@, nat_of_u32(other))),
    {
        Some(ordering_of_sign(self.sign_of_abs_difference_u32(other)))
    }

    /// Compares the absolute value of the integer with that of a signed
    /// word.
    pub fn partial_cmp_abs_i32(&self, other: i32) -> (r: Option<Ordering>)
        requires
            self.wf(),
        ensures
            r == Some(ordering_of_nats(self.abs@, magnitude_of_i32(other))),
    {
        Some(ordering_of_sign(self.sign_of_abs_difference_i32(other)))
    }
}

impl Integer {
    /// Compares the absolute value of the integer with `mantissa *
    /// 2^exponent`, the absolute value of a binary floating-point number.
    pub fn partial_cmp_abs_scaled(&self, mantissa: u64, exponent: i64) -> (r: Option<Ordering>)
        requires
            self.wf(),
        ensures
            r == Some(
                ordering_of_ints(sign_of_scaled_abs_difference(self@, mantissa, exponent), 0),
            ),
    {
        Some(ordering_of_sign(self.sign_of_abs_difference_scaled(mantissa, exponent)))
    }
}

/// Compares an unsigned word with the absolute value of an integer.
pub fn u32_partial_cmp_abs(x: u32, other: &Integer) -> (r: Option<Ordering>)
    requires
        other.wf(),
    ensures
        r == Some(ordering_of_nats(nat_of_u32(x), other.abs@)),
{
    Some(reverse_ordering(ordering_of_sign(other.sign_of_abs_difference_u32(x))))
}

/// Compares the absolute value of a signed word with that of an integer.
pub fn i32_partial_cmp_abs(x: i32, other: &Integer) -> (r: Option<Ordering>)
    requires
        other.wf(),
    ensures
        r == Some(ordering_of_nats(magnitude_of_i32(x), other.abs@)),
{
    Some(reverse_ordering(ordering_of_sign(other.sign_of_abs_difference_i32(x))))
}

} // verus!
