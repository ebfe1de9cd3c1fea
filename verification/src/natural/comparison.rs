//! The three-way comparison of natural numbers.

use crate::comparison::{ordering_of_nats, ordering_of_sign};
use crate::natural::Natural;
use std::cmp::Ordering;
use vstd::prelude::*;

verus! {

impl Natural {
    /// Compares two numbers.
    pub fn cmp(&self, other: &Natural) -> (r: Ordering)
        requires
            self.wf(),
            other.wf(),
        ensures
            r == ordering_of_nats(self@, other@),
    {
        ordering_of_sign(self.sign_of_difference(other))
    }

    /// Compares two numbers; the result is never `None`.
    pub fn partial_cmp(&self, other: &Natural) -> (r: Option<Ordering>)
        requires
            self.wf(),
            other.wf(),
        ensures
            r == Some(ordering_of_nats(self@, other@)),
    {
        Some(self.cmp(other))
    }
}

} // verus!
