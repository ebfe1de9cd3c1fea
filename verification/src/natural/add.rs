//! Addition of natural numbers, limb by limb with a carry.

use crate::natural::limbs::{
    lemma_limb_weight, lemma_limbs_value_push, lemma_prefix_value_step, limb_base, limb_or_zero,
    limb_weight, limbs_value, prefix_value, split_wide, Limb,
};
use crate::natural::Natural;
use vstd::prelude::*;

verus! {

/// What one step of the carry loop keeps true.
proof fn lemma_add_step(
    out: nat,
    carry: nat,
    w: nat,
    px: nat,
    py: nat,
    x: nat,
    y: nat,
    lo: nat,
    hi: nat,
)
    requires
        out + carry * w == px + py,
        x + y + carry == lo + limb_base() * hi,
    ensures
        (out + w * lo) + hi * (limb_base() * w) == (px + w * x) + (py + w * y),
{
    assert(w * lo + hi * (limb_base() * w) == w * (lo + limb_base() * hi)) by (nonlinear_arith);
    assert(w * (x + y + carry) == w * x + w * y + carry * w) by (nonlinear_arith);
}

/// Returns limbs that stand for the sum of the two numbers. The result is as
/// long as the longer argument, or one limb longer.
pub fn limbs_add(xs: &[Limb], ys: &[Limb]) -> (out: Vec<Limb>)
    ensures
        limbs_value(out@) == limbs_value(xs@) + limbs_value(ys@),
        out@.len() >= xs@.len(),
        out@.len() >= ys@.len(),
        out@.len() <= xs@.len() + 1 || out@.len() <= ys@.len() + 1,
        out@.len() > xs@.len() && out@.len() > ys@.len() ==> out@.last() == 1,
{
    let n: usize = if xs.len() >= ys.len() {
        xs.len()
    } else {
        ys.len()
    };
    let mut out: Vec<Limb> = Vec::new();
    let mut carry: Limb = 0;
    let mut i: usize = 0;
    proof {
        lemma_prefix_value_step(xs@, 0);
        lemma_prefix_value_step(ys@, 0);
    }
    while i < n
        invariant
            i <= n,
            n >= xs@.len(),
            n >= ys@.len(),
            n == xs@.len() || n == ys@.len(),
            out@.len() == i,
            carry <= 1,
            limbs_value(out@) + carry * limb_weight(i as nat) == prefix_value(xs@, i as int)
                + prefix_value(ys@, i as int),
        decreases n - i,
    {
        let x: Limb = limb_or_zero(xs, i);
        let y: Limb = limb_or_zero(ys, i);
        let sum: u64 = x as u64 + y as u64 + carry as u64;
        let (lo, hi) = split_wide(sum);
        proof {
            lemma_prefix_value_step(xs@, i as int);
            lemma_prefix_value_step(ys@, i as int);
            lemma_limbs_value_push(out@, lo);
            lemma_limb_weight(i as nat);
            lemma_add_step(
                limbs_value(out@),
                carry as nat,
                limb_weight(i as nat),
                prefix_value(xs@, i as int),
                prefix_value(ys@, i as int),
                x as nat,
                y as nat,
                lo as nat,
                hi as nat,
            );
        }
        out.push(lo);
        carry = hi;
        i += 1;
    }
    proof {
        lemma_prefix_value_step(xs@, i as int);
        lemma_prefix_value_step(ys@, i as int);
        lemma_limbs_value_push(out@, carry);
        assert(carry * limb_weight(i as nat) == limb_weight(i as nat) * carry) by (nonlinear_arith);
    }
    if carry != 0 {
        out.push(carry);
    }
    out
}

impl Natural {
    /// The sum of two numbers.
    pub fn add(&self, other: &Natural) -> (r: Natural)
        requires
            self.wf(),
            other.wf(),
        ensures
            r.wf(),
            r@ == self@ + other@,
    {
        match (self, other) {
            (Natural::Small(x), Natural::Small(y)) => {
                let sum: u64 = *x as u64 + *y as u64;
                Natural::from_u64(sum)
            },
            _ => {
                let xs: Vec<Limb> = self.to_limbs_asc();
                let ys: Vec<Limb> = other.to_limbs_asc();
                Natural::from_owned_limbs_asc(limbs_add(xs.as_slice(), ys.as_slice()))
            },
        }
    }

    /// The sum of a number and a limb.
    pub fn add_limb(&self, other: Limb) -> (r: Natural)
        requires
            self.wf(),
        ensures
            r.wf(),
            r@ == self@ + other,
    {
        self.add(&Natural::Small(other))
    }
}

} // verus!
