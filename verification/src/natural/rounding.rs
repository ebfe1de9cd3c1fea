//! Rounding operations of natural numbers with the result of the comparison
//! between the rounded and the exact value.

use crate::comparison::{ordering_of_nats, ordering_of_sign};
use crate::natural::Natural;
use crate::rounding_modes::{
    can_div_round_nat, can_round_to_multiple_nat, div_round_nat, round_to_multiple_nat,
    RoundingMode,
};
use std::cmp::Ordering;
use vstd::prelude::*;

verus! {

impl Natural {
    /// Divides by a nonzero number and rounds the quotient as the mode says.
    /// The ordering says whether the rounded quotient is less than, equal to
    /// or greater than the exact one.
    pub fn div_round(&self, other: &Natural, rm: RoundingMode) -> (r: (Natural, Ordering))
        requires
            self.wf(),
            other.wf(),
            can_div_round_nat(self@, other@, rm),
        ensures
            r.0.wf(),
            r.0@ == div_round_nat(self@, other@, rm),
            r.1 == ordering_of_nats(r.0@ * other@, self@),
    {
        let (q, s) = self.div_round_and_sign(other, rm);
        (q, ordering_of_sign(s))
    }

    /// Rounds to a multiple of `other` as the mode says. The ordering says
    /// whether the multiple is less than, equal to or greater than `self`.
    pub fn round_to_multiple(&self, other: &Natural, rm: RoundingMode) -> (r: (
        Natural,
        Ordering,
    ))
        requires
            self.wf(),
            other.wf(),
            can_round_to_multiple_nat(self@, other@, rm),
        ensures
            r.0.wf(),
            r.0@ == round_to_multiple_nat(self@, other@, rm),
            r.1 == ordering_of_nats(r.0@, self@),
    {
        let (m, s) = self.round_to_multiple_and_sign(other, rm);
        (m, ordering_of_sign(s))
    }
}

} // verus!
