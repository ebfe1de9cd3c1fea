//! Subtraction of natural numbers, limb by limb with a borrow. The
//! difference of a smaller and a larger number does not exist here.

use crate::natural::limbs::{
    lemma_limb_weight, lemma_limbs_value_bound, lemma_limbs_value_push, lemma_prefix_value_step,
    limb_at, limb_base, limb_or_zero, limb_weight, limbs_value, prefix_value, Limb,
};
use crate::natural::Natural;
use vstd::prelude::*;

verus! {

/// What one step of the borrow loop keeps true.
proof fn lemma_sub_step(
    out: nat,
    borrow: nat,
    w: nat,
    px: nat,
    py: nat,
    x: nat,
    y: nat,
    d: nat,
    next_borrow: nat,
)
    requires
        out + py == px + borrow * w,
        d + y + borrow == x + limb_base() * next_borrow,
    ensures
        (out + w * d) + (py + w * y) == (px + w * x) + next_borrow * (limb_base() * w),
{
    assert(w * d + w * y + borrow * w == w * (d + y + borrow)) by (nonlinear_arith);
    assert(w * (x + limb_base() * next_borrow) == w * x + next_borrow * (limb_base() * w))
        by (nonlinear_arith);
}

/// Subtracts limb by limb. The limbs returned are as many as the longer
/// argument has. The flag says whether a borrow was left, which is the case
/// exactly when the first number is the smaller; the limbs then stand for the
/// difference increased by `2^(32 n)`.
pub fn limbs_sub(xs: &[Limb], ys: &[Limb]) -> (r: (Vec<Limb>, bool))
    ensures
        r.0@.len() == xs@.len() || r.0@.len() == ys@.len(),
        r.0@.len() >= xs@.len(),
        r.0@.len() >= ys@.len(),
        r.1 == (limbs_value(xs@) < limbs_value(ys@)),
        !r.1 ==> limbs_value(r.0@) == limbs_value(xs@) - limbs_value(ys@),
        r.1 ==> limbs_value(r.0@) == limbs_value(xs@) + limb_weight(r.0@.len()) - limbs_value(ys@),
{
    let n: usize = if xs.len() >= ys.len() {
        xs.len()
    } else {
        ys.len()
    };
    let mut out: Vec<Limb> = Vec::new();
    let mut borrow: Limb = 0;
    let mut i: usize = 0;
    proof {
        lemma_prefix_value_step(xs@, 0);
        lemma_prefix_value_step(ys@, 0);
    }
    while i < n
        invariant
            i <= n,
            n >= xs@.len(),
            n >= ys@.len(),
            n == xs@.len() || n == ys@.len(),
            out@.len() == i,
            borrow <= 1,
            limbs_value(out@) + prefix_value(ys@, i as int) == prefix_value(xs@, i as int) + borrow
                * limb_weight(i as nat),
        decreases n - i,
    {
        let x: u64 = limb_or_zero(xs, i) as u64;
        let taken: u64 = limb_or_zero(ys, i) as u64 + borrow as u64;
        let d: Limb;
        let next_borrow: Limb;
        if x >= taken {
            d = (x - taken) as Limb;
            next_borrow = 0;
        } else {
            d = (x + 0x1_0000_0000 - taken) as Limb;
            next_borrow = 1;
        }
        proof {
            lemma_prefix_value_step(xs@, i as int);
            lemma_prefix_value_step(ys@, i as int);
            lemma_limbs_value_push(out@, d);
            lemma_limb_weight(i as nat);
            lemma_sub_step(
                limbs_value(out@),
                borrow as nat,
                limb_weight(i as nat),
                prefix_value(xs@, i as int),
                prefix_value(ys@, i as int),
                limb_at(xs@, i as int) as nat,
                limb_at(ys@, i as int) as nat,
                d as nat,
                next_borrow as nat,
            );
        }
        out.push(d);
        borrow = next_borrow;
        i += 1;
    }
    proof {
        lemma_prefix_value_step(xs@, i as int);
        lemma_prefix_value_step(ys@, i as int);
        lemma_limbs_value_bound(out@);
    }
    (out, borrow != 0)
}

impl Natural {
    /// The difference of two numbers, where there is one: `None` when `other`
    /// is the larger.
    pub fn checked_sub(&self, other: &Natural) -> (r: Option<Natural>)
        requires
            self.wf(),
            other.wf(),
        ensures
            r is Some <==> self@ >= other@,
            r matches Some(d) ==> d.wf() && d@ == self@ - other@,
    {
        match (self, other) {
            (Natural::Small(x), Natural::Small(y)) => {
                if *x >= *y {
                    Some(Natural::Small(*x - *y))
                } else {
                    None
                }
            },
            _ => {
                let xs: Vec<Limb> = self.to_limbs_asc();
                let ys: Vec<Limb> = other.to_limbs_asc();
                let (limbs, borrow) = limbs_sub(xs.as_slice(), ys.as_slice());
                if borrow {
                    None
                } else {
                    Some(Natural::from_owned_limbs_asc(limbs))
                }
            },
        }
    }

    /// The difference of two numbers, the second of which is not the larger.
    pub fn sub(&self, other: &Natural) -> (r: Natural)
        requires
            self.wf(),
            other.wf(),
            self@ >= other@,
        ensures
            r.wf(),
            r@ == self@ - other@,
    {
        match self.checked_sub(other) {
            Some(d) => d,
            None => Natural::Small(0),
        }
    }
}

} // verus!
