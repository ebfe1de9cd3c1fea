//! Natural numbers of any size.
//!
//! A [`Natural`] is either one machine word or, when it does not fit, a
//! vector of limbs with no zero in the most significant place.

use crate::natural::limbs::{
    lemma_limb_weight, lemma_limb_weight_increases, lemma_limbs_trimmed_unique,
    lemma_limbs_value_drop_zero, lemma_limbs_value_lower_bound, lemma_limbs_value_one,
    lemma_limbs_value_push, limb_base, limbs_trimmed, limbs_value, split_wide, Limb,
};
use vstd::prelude::*;

pub mod add;
pub mod bits;
pub mod comparison;
pub mod div;
pub mod divisible;
pub mod exhaustive;
pub mod limbs;
pub mod log_base_2;
pub mod logic;
pub mod mul;
pub mod order;
pub mod random;
pub mod rounding;
pub mod rounding_sign;
pub mod string;
pub mod sub;

verus! {

/// A non-negative integer.
#[derive(Debug)]
pub enum Natural {
    /// A number below `2^32`, held in one word.
    Small(Limb),
    /// A number of at least `2^32`, held as limbs, least significant first.
    Large(Vec<Limb>),
}

impl View for Natural {
    type V = nat;

    open spec fn view(&self) -> nat {
        match self {
            Natural::Small(x) => *x as nat,
            Natural::Large(xs) => limbs_value(xs@),
        }
    }
}

impl Natural {
    /// The representation is the only one that the value has: what fits in a
    /// word is held in a word, and the limbs of a larger number end in a
    /// nonzero limb.
    pub open spec fn wf(&self) -> bool {
        match self {
            Natural::Small(_) => true,
            Natural::Large(xs) => xs@.len() >= 2 && xs@.last() != 0,
        }
    }

    /// The trimmed limbs of the value: none for zero.
    pub open spec fn limbs(&self) -> Seq<Limb> {
        match self {
            Natural::Small(x) => if *x == 0 {
                Seq::empty()
            } else {
                seq![*x]
            },
            Natural::Large(xs) => xs@,
        }
    }

    /// The limbs of a well-formed number are trimmed and stand for its value.
    pub proof fn lemma_limbs(&self)
        requires
            self.wf(),
        ensures
            limbs_trimmed(self.limbs()),
            limbs_value(self.limbs()) == self@,
            self@ < limb_base() <==> self is Small,
    {
        match self {
            Natural::Small(x) => {
                if *x != 0 {
                    lemma_limbs_value_one(*x);
                }
            },
            Natural::Large(xs) => {
                lemma_limbs_value_lower_bound(xs@);
                lemma_limb_weight(0);
                lemma_limb_weight_increases(1, (xs@.len() - 1) as nat);
            },
        }
    }

    /// Two well-formed numbers with one value have the same limbs.
    pub proof fn lemma_value_decides(&self, other: &Natural)
        requires
            self.wf(),
            other.wf(),
            self@ == other@,
        ensures
            self.limbs() == other.limbs(),
            self is Small <==> other is Small,
    {
        self.lemma_limbs();
        other.lemma_limbs();
        lemma_limbs_trimmed_unique(self.limbs(), other.limbs());
    }

    /// Whether the representation is the one that the value must have.
    pub fn is_valid(&self) -> (r: bool)
        ensures
            r == self.wf(),
    {
        match self {
            Natural::Small(_) => true,
            Natural::Large(xs) => xs.len() >= 2 && xs[xs.len() - 1] != 0,
        }
    }

    /// Zero.
    pub fn zero() -> (r: Natural)
        ensures
            r.wf(),
            r@ == 0,
    {
        Natural::Small(0)
    }

    /// One.
    pub fn one() -> (r: Natural)
        ensures
            r.wf(),
            r@ == 1,
    {
        Natural::Small(1)
    }

    /// The number that a word holds.
    pub fn from_u32(x: u32) -> (r: Natural)
        ensures
            r.wf(),
            r@ == x,
    {
        Natural::Small(x)
    }

    /// The number that a double word holds.
    pub fn from_u64(x: u64) -> (r: Natural)
        ensures
            r.wf(),
            r@ == x,
    {
        let (lo, hi) = split_wide(x);
        if hi == 0 {
            Natural::Small(lo)
        } else {
            let mut limbs: Vec<Limb> = Vec::new();
            limbs.push(lo);
            limbs.push(hi);
            proof {
                lemma_limbs_value_one(lo);
                lemma_limbs_value_push(seq![lo], hi);
                lemma_limb_weight(0);
            }
            Natural::Large(limbs)
        }
    }

    /// The number that limbs stand for, least significant first. Zeros in the
    /// most significant places are dropped.
    pub fn from_owned_limbs_asc(limbs: Vec<Limb>) -> (r: Natural)
        ensures
            r.wf(),
            r@ == limbs_value(limbs@),
    {
        let ghost given = limbs@;
        let mut limbs = limbs;
        while limbs.len() > 0 && limbs[limbs.len() - 1] == 0
            invariant
                limbs_value(limbs@) == limbs_value(given),
            decreases limbs.len(),
        {
            proof {
                lemma_limbs_value_drop_zero(limbs@);
            }
            limbs.pop();
        }
        if limbs.len() == 0 {
            Natural::Small(0)
        } else if limbs.len() == 1 {
            proof {
                assert(limbs@ =~= seq![limbs@[0]]);
                lemma_limbs_value_one(limbs@[0]);
            }
            Natural::Small(limbs[0])
        } else {
            Natural::Large(limbs)
        }
    }

    /// The number that limbs stand for, least significant first.
    pub fn from_limbs_asc(limbs: &[Limb]) -> (r: Natural)
        ensures
            r.wf(),
            r@ == limbs_value(limbs@),
    {
        Natural::from_owned_limbs_asc(vstd::slice::slice_to_vec(limbs))
    }

    /// The limbs of the number, least significant first, ending in a nonzero
    /// limb; zero has none.
    pub fn to_limbs_asc(&self) -> (r: Vec<Limb>)
        requires
            self.wf(),
        ensures
            r@ == self.limbs(),
            limbs_trimmed(r@),
            limbs_value(r@) == self@,
    {
        proof {
            self.lemma_limbs();
        }
        match self {
            Natural::Small(x) => {
                let mut out: Vec<Limb> = Vec::new();
                if *x != 0 {
                    out.push(*x);
                }
                out
            },
            Natural::Large(xs) => xs.clone(),
        }
    }

    /// The limbs of the number, as [`Natural::to_limbs_asc`] gives them,
    /// without a copy.
    pub fn into_limbs_asc(self) -> (r: Vec<Limb>)
        requires
            self.wf(),
        ensures
            r@ == self.limbs(),
            limbs_trimmed(r@),
            limbs_value(r@) == self@,
    {
        proof {
            self.lemma_limbs();
        }
        match self {
            Natural::Small(x) => {
                let mut out: Vec<Limb> = Vec::new();
                if x != 0 {
                    out.push(x);
                }
                out
            },
            Natural::Large(xs) => xs,
        }
    }

    /// The number of limbs that the number takes; none for zero.
    pub fn limb_count(&self) -> (r: usize)
        requires
            self.wf(),
        ensures
            r == self.limbs().len(),
    {
        match self {
            Natural::Small(x) => if *x == 0 {
                0
            } else {
                1
            },
            Natural::Large(xs) => xs.len(),
        }
    }

    /// Whether the number is zero.
    pub fn is_zero(&self) -> (r: bool)
        requires
            self.wf(),
        ensures
            r == (self@ == 0),
    {
        proof {
            self.lemma_limbs();
        }
        match self {
            Natural::Small(x) => *x == 0,
            Natural::Large(_) => false,
        }
    }
}

impl Clone for Natural {
    fn clone(&self) -> (r: Natural)
        ensures
            r@ == self@,
            r.wf() == self.wf(),
            r.limbs() == self.limbs(),
    {
        match self {
            Natural::Small(x) => Natural::Small(*x),
            Natural::Large(xs) => {
                let ys: Vec<Limb> = xs.clone();
                Natural::Large(ys)
            },
        }
    }
}

} // verus!
