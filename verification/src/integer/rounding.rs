//! Rounding an integer to a multiple of another, with the result of the
//! comparison between the multiple and the integer.

use crate::comparison::{ordering_of_ints, ordering_of_sign};
use crate::integer::Integer;
use crate::rounding_modes::{
    can_div_round, can_round_to_multiple, div_round_signed_spec, magnitude,
    round_to_multiple_spec, RoundingMode,
};
use std::cmp::Ordering;
use vstd::prelude::*;

verus! {

/// Zero is the only multiple of zero. Under `Down` a negative integer is
/// rounded to it, and is the smaller of the two; zero is rounded to itself.
pub proof fn lemma_round_down_to_multiple_of_zero(x: int)
    requires
        x <= 0,
    ensures
        can_round_to_multiple(x, 0, RoundingMode::Down),
        round_to_multiple_spec(x, 0, RoundingMode::Down) == 0,
        x < 0 ==> ordering_of_ints(round_to_multiple_spec(x, 0, RoundingMode::Down), x)
            == Ordering::Greater,
        x == 0 ==> ordering_of_ints(round_to_multiple_spec(x, 0, RoundingMode::Down), x)
            == Ordering::Equal,
{
}

impl Integer {
    /// Divides by a nonzero integer and rounds the quotient as the mode
    /// says. The ordering says whether the rounded quotient is less than,
    /// equal to or greater than the exact one.
    pub fn div_round(&self, other: &Integer, rm: RoundingMode) -> (r: (Integer, Ordering))
        requires
            self.wf(),
            other.wf(),
            can_div_round(self@, other@, rm),
        ensures
            r.0.wf(),
            r.0@ == div_round_signed_spec(self@, other@, rm),
            r.1 == ordering_of_ints(
                r.0@ * magnitude(other@),
                if other@ > 0 {
                    self@
                } else {
                    -self@
                },
            ),
    {
        let (q, s) = self.div_round_and_sign(other, rm);
        (q, ordering_of_sign(s))
    }

    /// Rounds to a multiple of `other` as the mode says. The ordering says
    /// whether the multiple is less than, equal to or greater than `self`.
    pub fn round_to_multiple(&self, other: &Integer, rm: RoundingMode) -> (r: (Integer, Ordering))
        requires
            self.wf(),
            other.wf(),
            can_round_to_multiple(self@, other@, rm),
        ensures
            r.0.wf(),
            r.0@ == round_to_multiple_spec(self@, other@, rm),
            r.1 == ordering_of_ints(r.0@, self@),
    {
        let (n, s) = self.round_to_multiple_and_sign(other, rm);
        (n, ordering_of_sign(s))
    }

    /// Replaces the integer by the multiple of `other` that it rounds to as
    /// the mode says. The ordering says whether the multiple is less than,
    /// equal to or greater than the integer was.
    pub fn round_to_multiple_assign(&mut self, other: &Integer, rm: RoundingMode) -> (r: Ordering)
        requires
            old(self).wf(),
            other.wf(),
            can_round_to_multiple(old(self)@, other@, rm),
        ensures
            final(self).wf(),
            final(self)@ == round_to_multiple_spec(old(self)@, other@, rm),
            r == ordering_of_ints(final(self)@, old(self)@),
    {
        let (n, s) = self.round_to_multiple_and_sign(other, rm);
        *self = n;
        ordering_of_sign(s)
    }
}

} // verus!
