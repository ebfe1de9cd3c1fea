//! Multiplication of natural numbers: every limb of one factor times every
//! limb of the other, each product added in at its weight.

use crate::natural::limbs::{
    lemma_limb_weight, lemma_limb_weight_adds, lemma_limbs_value_push, lemma_limbs_value_update,
    lemma_limbs_value_zeros, lemma_prefix_value_step, limb_base, limb_weight, limbs_value,
    prefix_value, split_wide, Limb,
};
use crate::natural::Natural;
use vstd::prelude::*;

verus! {

/// What one step of the inner loop keeps true.
proof fn lemma_mul_step(
    out: nat,
    next_out: nat,
    carry: nat,
    wi: nat,
    wj: nat,
    acc: nat,
    xi: nat,
    pyj: nat,
    yj: nat,
    limb: nat,
    lo: nat,
    hi: nat,
)
    requires
        out + carry * (wi * wj) == acc + xi * wi * pyj,
        limb + xi * yj + carry == lo + limb_base() * hi,
        next_out + (wi * wj) * limb == out + (wi * wj) * lo,
    ensures
        next_out + hi * (limb_base() * (wi * wj)) == acc + xi * wi * (pyj + wj * yj),
{
    let wk = wi * wj;
    assert(wk * lo + hi * (limb_base() * wk) == wk * (lo + limb_base() * hi)) by (nonlinear_arith);
    assert(wk * (limb + xi * yj + carry) == wk * limb + wk * (xi * yj) + carry * wk)
        by (nonlinear_arith);
    assert(wk * (xi * yj) + xi * wi * pyj == xi * wi * (pyj + wj * yj)) by (nonlinear_arith)
        requires
            wk == wi * wj,
    ;
}

/// What one pass of the outer loop keeps true.
proof fn lemma_mul_row(next_out: nat, carry: nat, w_top: nat, pxi: nat, vy: nat, xi: nat, wi: nat)
    requires
        next_out == pxi * vy + xi * wi * vy,
    ensures
        next_out == (pxi + wi * xi) * vy,
{
    assert((pxi + wi * xi) * vy == pxi * vy + xi * wi * vy) by (nonlinear_arith);
}

/// The product of two limbs and two more limbs fits in a double word.
proof fn lemma_mul_fits(limb: Limb, x: Limb, y: Limb, carry: Limb)
    ensures
        limb + x * y + carry <= u64::MAX,
        x * y <= u64::MAX,
{
    assert(x * y <= 0xffff_ffff * 0xffff_ffff) by (nonlinear_arith)
        requires
            0 <= x <= 0xffff_ffff,
            0 <= y <= 0xffff_ffff,
    ;
}

/// Returns `n` zero limbs.
pub fn limbs_zeros(n: usize) -> (out: Vec<Limb>)
    ensures
        out@.len() == n,
        forall|k: int| 0 <= k < n ==> out@[k] == 0,
        limbs_value(out@) == 0,
{
    let mut out: Vec<Limb> = Vec::new();
    while out.len() < n
        invariant
            out@.len() <= n,
            forall|k: int| 0 <= k < out@.len() ==> out@[k] == 0,
        decreases n - out@.len(),
    {
        out.push(0);
    }
    proof {
        lemma_limbs_value_zeros(out@);
    }
    out
}

/// What one step of the loop over one factor keeps true.
proof fn lemma_mul_limb_step(
    out: nat,
    carry: nat,
    w: nat,
    px: nat,
    m: nat,
    a: nat,
    x: nat,
    lo: nat,
    hi: nat,
)
    requires
        out + carry * w == px * m + a,
        x * m + carry == lo + limb_base() * hi,
    ensures
        (out + w * lo) + hi * (limb_base() * w) == (px + w * x) * m + a,
{
    assert(w * lo + hi * (limb_base() * w) == w * (lo + limb_base() * hi)) by (nonlinear_arith);
    assert(w * (x * m + carry) + px * m == (px + w * x) * m + carry * w) by (nonlinear_arith);
}

/// Returns limbs that stand for the number times the limb `m`, plus the
/// limb `a`.
pub fn limbs_mul_limb_add(xs: &[Limb], m: Limb, a: Limb) -> (out: Vec<Limb>)
    ensures
        limbs_value(out@) == limbs_value(xs@) * m + a,
        xs@.len() <= out@.len() <= xs@.len() + 1,
        out@.len() > xs@.len() ==> out@.last() != 0,
{
    let mut out: Vec<Limb> = Vec::new();
    let mut carry: Limb = a;
    let mut i: usize = 0;
    proof {
        lemma_prefix_value_step(xs@, 0);
        lemma_limb_weight(0);
    }
    while i < xs.len()
        invariant
            i <= xs@.len(),
            out@.len() == i,
            limbs_value(out@) + carry * limb_weight(i as nat) == prefix_value(xs@, i as int) * m
                + a,
        decreases xs@.len() - i,
    {
        proof {
            lemma_mul_fits(0, xs@[i as int], m, carry);
        }
        let t: u64 = (xs[i] as u64) * (m as u64) + carry as u64;
        let (lo, hi) = split_wide(t);
        proof {
            lemma_prefix_value_step(xs@, i as int);
            lemma_limbs_value_push(out@, lo);
            lemma_limb_weight(i as nat);
            lemma_mul_limb_step(
                limbs_value(out@),
                carry as nat,
                limb_weight(i as nat),
                prefix_value(xs@, i as int),
                m as nat,
                a as nat,
                xs@[i as int] as nat,
                lo as nat,
                hi as nat,
            );
        }
        out.push(lo);
        carry = hi;
        i += 1;
    }
    proof {
        lemma_prefix_value_step(xs@, i as int);
        lemma_limbs_value_push(out@, carry);
        assert(carry * limb_weight(i as nat) == limb_weight(i as nat) * carry) by (nonlinear_arith);
    }
    if carry != 0 {
        out.push(carry);
    }
    out
}

/// Returns limbs that stand for the product of the two numbers, as many as
/// both arguments have together.
pub fn limbs_mul(xs: &[Limb], ys: &[Limb]) -> (out: Vec<Limb>)
    ensures
        limbs_value(out@) == limbs_value(xs@) * limbs_value(ys@),
        out@.len() == xs@.len() + ys@.len(),
{
    let mut out: Vec<Limb> = limbs_zeros(ys.len());
    let ghost vy: nat = limbs_value(ys@);
    let mut i: usize = 0;
    proof {
        lemma_prefix_value_step(xs@, 0);
        assert(prefix_value(xs@, 0) * vy == 0) by (nonlinear_arith)
            requires
                prefix_value(xs@, 0) == 0,
        ;
    }
    while i < xs.len()
        invariant
            i <= xs@.len(),
            vy == limbs_value(ys@),
            out@.len() == i + ys@.len(),
            limbs_value(out@) == prefix_value(xs@, i as int) * vy,
        decreases xs@.len() - i,
    {
        let x: Limb = xs[i];
        let ghost row_start: nat = limbs_value(out@);
        proof {
            lemma_limbs_value_push(out@, 0);
            lemma_prefix_value_step(ys@, 0);
        }
        out.push(0);
        let top: usize = out.len() - 1;
        let mut carry: Limb = 0;
        let mut j: usize = 0;
        while j < ys.len()
            invariant
                j <= ys@.len(),
                i < xs@.len(),
                x == xs@[i as int],
                vy == limbs_value(ys@),
                out@.len() == i + ys@.len() + 1,
                top == i + ys@.len(),
                out@[i + ys@.len()] == 0,
                row_start == prefix_value(xs@, i as int) * vy,
                limbs_value(out@) + carry * limb_weight((i + j) as nat) == row_start + x
                    * limb_weight(i as nat) * prefix_value(ys@, j as int),
            decreases ys@.len() - j,
        {
            let y: Limb = ys[j];
            let limb: Limb = out[i + j];
            proof {
                lemma_mul_fits(limb, x, y, carry);
            }
            let t: u64 = limb as u64 + (x as u64) * (y as u64) + carry as u64;
            let (lo, hi) = split_wide(t);
            proof {
                lemma_limbs_value_update(out@, (i + j) as int, lo);
                lemma_limb_weight_adds(i as nat, j as nat);
                lemma_limb_weight((i + j) as nat);
                lemma_prefix_value_step(ys@, j as int);
                lemma_mul_step(
                    limbs_value(out@),
                    limbs_value(out@.update((i + j) as int, lo)),
                    carry as nat,
                    limb_weight(i as nat),
                    limb_weight(j as nat),
                    row_start,
                    x as nat,
                    prefix_value(ys@, j as int),
                    y as nat,
                    limb as nat,
                    lo as nat,
                    hi as nat,
                );
            }
            out[i + j] = lo;
            carry = hi;
            j += 1;
        }
        proof {
            lemma_limbs_value_update(out@, (i + ys@.len()) as int, carry);
            lemma_prefix_value_step(ys@, j as int);
            lemma_prefix_value_step(xs@, i as int);
            assert(limb_weight((i + j) as nat) * carry == carry * limb_weight((i + j) as nat))
                by (nonlinear_arith);
            lemma_mul_row(
                limbs_value(out@.update((i + ys@.len()) as int, carry)),
                carry as nat,
                limb_weight((i + j) as nat),
                prefix_value(xs@, i as int),
                vy,
                x as nat,
                limb_weight(i as nat),
            );
        }
        out[top] = carry;
        i += 1;
    }
    proof {
        lemma_prefix_value_step(xs@, i as int);
    }
    out
}

impl Natural {
    /// The product of two numbers.
    pub fn mul(&self, other: &Natural) -> (r: Natural)
        requires
            self.wf(),
            other.wf(),
        ensures
            r.wf(),
            r@ == self@ * other@,
    {
        match (self, other) {
            (Natural::Small(x), Natural::Small(y)) => {
                proof {
                    lemma_mul_fits(0, *x, *y, 0);
                }
                let product: u64 = (*x as u64) * (*y as u64);
                Natural::from_u64(product)
            },
            _ => {
                let xs: Vec<Limb> = self.to_limbs_asc();
                let ys: Vec<Limb> = other.to_limbs_asc();
                Natural::from_owned_limbs_asc(limbs_mul(xs.as_slice(), ys.as_slice()))
            },
        }
    }
}

} // verus!
