//! Which of two natural numbers is the smaller.

use crate::natural::limbs::{
    lemma_limb_weight_increases, lemma_limbs_value_bound, lemma_limbs_value_decided_at,
    lemma_limbs_value_lower_bound, limbs_trimmed, limbs_value, Limb,
};
use crate::natural::Natural;
use vstd::prelude::*;

verus! {

/// The sign of `a - b`: -1, 0 or 1.
pub open spec fn sign_of_difference(a: nat, b: nat) -> int {
    if a < b {
        -1
    } else if a == b {
        0
    } else {
        1
    }
}

/// Returns the sign of the difference of the numbers that two trimmed limb
/// sequences stand for: the longer one is the larger, and between two of one
/// length the most significant limb that differs decides.
pub fn limbs_sign_of_difference(xs: &[Limb], ys: &[Limb]) -> (r: i8)
    requires
        limbs_trimmed(xs@),
        limbs_trimmed(ys@),
    ensures
        r == sign_of_difference(limbs_value(xs@), limbs_value(ys@)),
{
    proof {
        lemma_limbs_value_bound(xs@);
        lemma_limbs_value_bound(ys@);
    }
    if xs.len() < ys.len() {
        proof {
            lemma_limbs_value_lower_bound(ys@);
            lemma_limb_weight_increases(xs@.len(), (ys@.len() - 1) as nat);
        }
        return -1;
    }
    if xs.len() > ys.len() {
        proof {
            lemma_limbs_value_lower_bound(xs@);
            lemma_limb_weight_increases(ys@.len(), (xs@.len() - 1) as nat);
        }
        return 1;
    }
    let mut i: usize = xs.len();
    while i > 0
        invariant
            i <= xs@.len(),
            xs@.len() == ys@.len(),
            forall|j: int| i <= j < xs@.len() ==> xs@[j] == ys@[j],
        decreases i,
    {
        i -= 1;
        if xs[i] < ys[i] {
            proof {
                lemma_limbs_value_decided_at(xs@, ys@, i as int);
            }
            return -1;
        }
        if xs[i] > ys[i] {
            proof {
                lemma_limbs_value_decided_at(ys@, xs@, i as int);
            }
            return 1;
        }
    }
    assert(xs@ =~= ys@);
    0
}

impl Natural {
    /// The sign of `self - other`: -1, 0 or 1.
    pub fn sign_of_difference(&self, other: &Natural) -> (r: i8)
        requires
            self.wf(),
            other.wf(),
        ensures
            r == sign_of_difference(self@, other@),
    {
        proof {
            self.lemma_limbs();
            other.lemma_limbs();
        }
        match (self, other) {
            (Natural::Small(x), Natural::Small(y)) => {
                if *x < *y {
                    -1
                } else if *x == *y {
                    0
                } else {
                    1
                }
            },
            (Natural::Small(_), Natural::Large(_)) => -1,
            (Natural::Large(_), Natural::Small(_)) => 1,
            (Natural::Large(xs), Natural::Large(ys)) => limbs_sign_of_difference(
                xs.as_slice(),
                ys.as_slice(),
            ),
        }
    }

    /// Whether the two numbers are equal.
    pub fn equals(&self, other: &Natural) -> (r: bool)
        requires
            self.wf(),
            other.wf(),
        ensures
            r == (self@ == other@),
    {
        self.sign_of_difference(other) == 0
    }

    /// Whether `self` is less than `other`.
    pub fn less_than(&self, other: &Natural) -> (r: bool)
        requires
            self.wf(),
            other.wf(),
        ensures
            r == (self@ < other@),
    {
        self.sign_of_difference(other) < 0
    }

    /// Whether `self` is at most `other`.
    pub fn at_most(&self, other: &Natural) -> (r: bool)
        requires
            self.wf(),
            other.wf(),
        ensures
            r == (self@ <= other@),
    {
        self.sign_of_difference(other) <= 0
    }
}

} // verus!
