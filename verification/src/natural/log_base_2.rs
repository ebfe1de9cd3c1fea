//! Base-2 logarithms of natural numbers.

use crate::log_base_2::{
    ceiling_log_base_2_spec, checked_log_base_2, floor_log_base_2_spec, is_power_of_two,
    lemma_floor_and_ceiling_log_base_2, lemma_floor_log_base_2_bounds,
    lemma_floor_log_base_2_of_pow2, lemma_floor_log_base_2_unique,
};
use crate::natural::bits::lemma_limbs_significant_bits;
use crate::natural::limbs::{
    lemma_limb_weight, lemma_limbs_value_bound, lemma_limbs_value_injective,
    lemma_limbs_value_push, lemma_limbs_value_zeros, limb_weight, limbs_value, Limb,
};
use crate::natural::Natural;
use vstd::arithmetic::power2::{lemma_pow2_adds, pow2};
use vstd::prelude::*;

verus! {

/// Limbs that stand for zero are all zero.
pub proof fn lemma_limbs_value_zero_means_zeros(xs: Seq<Limb>)
    requires
        limbs_value(xs) == 0,
    ensures
        forall|i: int| 0 <= i < xs.len() ==> xs[i] == 0,
{
    let zeros = Seq::new(xs.len(), |i: int| 0u32);
    lemma_limbs_value_zeros(zeros);
    lemma_limbs_value_injective(xs, zeros);
}

/// Trimmed limbs stand for a power of two exactly when the top limb is a
/// power of two and the limbs below it stand for zero.
pub proof fn lemma_limbs_power_of_two(xs: Seq<Limb>)
    requires
        xs.len() > 0,
        xs.last() != 0,
    ensures
        is_power_of_two(limbs_value(xs)) <==> (is_power_of_two(xs.last() as nat) && limbs_value(
            xs.drop_last(),
        ) == 0),
{
    let n = (xs.len() - 1) as nat;
    let t = xs.last() as nat;
    let low = limbs_value(xs.drop_last());
    let w = limb_weight(n);
    let v = limbs_value(xs);
    let f = floor_log_base_2_spec(t);
    assert(xs =~= xs.drop_last().push(xs.last()));
    lemma_limbs_value_push(xs.drop_last(), xs.last());
    lemma_limbs_value_bound(xs.drop_last());
    lemma_limb_weight(n);
    lemma_floor_log_base_2_bounds(t);
    lemma_pow2_adds(32 * n, f);
    lemma_pow2_adds(32 * n, f + 1);
    if is_power_of_two(t) && low == 0 {
        let k = choose|k: nat| t == pow2(k);
        lemma_pow2_adds(32 * n, k);
    }
    if is_power_of_two(v) {
        let k = choose|k: nat| v == pow2(k);
        assert(w * pow2(f) <= w * t) by (nonlinear_arith)
            requires
                pow2(f) <= t,
        ;
        assert(w * (t + 1) <= w * pow2(f + 1)) by (nonlinear_arith)
            requires
                t + 1 <= pow2(f + 1),
        ;
        assert(w * (t + 1) == w * t + w) by (nonlinear_arith);
        lemma_floor_log_base_2_unique(v, 32 * n + f);
        lemma_floor_log_base_2_of_pow2(k);
        assert(low == 0 && t == pow2(f)) by (nonlinear_arith)
            requires
                low + w * t == w * pow2(f),
                0 <= low < w,
                pow2(f) <= t,
        ;
    }
}

impl Natural {
    /// The floor of the base-2 logarithm of a positive number: the index of
    /// its highest set bit. Where the index does not fit in 64 bits, the
    /// largest index that does, less one.
    pub fn floor_log_base_2(&self) -> (r: u64)
        requires
            self.wf(),
            self@ != 0,
        ensures
            floor_log_base_2_spec(self@) < u64::MAX ==> r == floor_log_base_2_spec(self@),
            floor_log_base_2_spec(self@) >= u64::MAX ==> r == u64::MAX - 1,
    {
        self.significant_bits() - 1
    }

    /// The base-2 logarithm of a positive number that is a power of two, if
    /// 64 bits hold it; `None` for any other number.
    pub fn checked_log_base_2(&self) -> (r: Option<u64>)
        requires
            self.wf(),
            self@ != 0,
        ensures
            r is Some <==> is_power_of_two(self@) && floor_log_base_2_spec(self@) < u64::MAX,
            r matches Some(k) ==> self@ == pow2(k as nat),
    {
        match self {
            Natural::Small(x) => {
                proof {
                    if is_power_of_two(self@) {
                        let k = choose|k: nat| self@ == pow2(k);
                        lemma_floor_log_base_2_of_pow2(k);
                        lemma_floor_log_base_2_bounds(self@);
                        crate::natural::bits::lemma_small_log(self@);
                    }
                }
                checked_log_base_2(*x as u64)
            },
            Natural::Large(xs) => {
                let n: usize = xs.len();
                proof {
                    lemma_limbs_power_of_two(xs@);
                    lemma_limbs_significant_bits(xs@);
                }
                let top: u64 = match checked_log_base_2(xs[n - 1] as u64) {
                    Some(top) => top,
                    None => {
                        return None;
                    },
                };
                let mut i: usize = 0;
                while i < n - 1
                    invariant
                        i <= n - 1,
                        n == xs@.len(),
                        n >= 2,
                        xs@.last() != 0,
                        self@ == limbs_value(xs@),
                        forall|j: int| 0 <= j < i ==> xs@[j] == 0,
                    decreases n - 1 - i,
                {
                    if xs[i] != 0 {
                        proof {
                            lemma_limbs_power_of_two(xs@);
                            if limbs_value(xs@.drop_last()) == 0 {
                                lemma_limbs_value_zero_means_zeros(xs@.drop_last());
                                assert(xs@.drop_last()[i as int] == 0);
                            }
                        }
                        return None;
                    }
                    i += 1;
                }
                proof {
                    lemma_limbs_value_zeros(xs@.drop_last());
                    lemma_floor_log_base_2_of_pow2(top as nat);
                }
                let below: u64 = (n - 1) as u64;
                match below.checked_mul(32) {
                    Some(low_bits) => match low_bits.checked_add(top) {
                        Some(k) => {
                            if k == u64::MAX {
                                return None;
                            }
                            proof {
                                lemma_limb_weight((n - 1) as nat);
                                lemma_pow2_adds(32 * ((n - 1) as nat), top as nat);
                                lemma_limbs_value_push(xs@.drop_last(), xs@.last());
                                assert(xs@ =~= xs@.drop_last().push(xs@.last()));
                                lemma_floor_log_base_2_of_pow2(k as nat);
                            }
                            Some(k)
                        },
                        None => None,
                    },
                    None => None,
                }
            },
        }
    }

    /// The ceiling of the base-2 logarithm of a positive number whose
    /// logarithm 64 bits hold.
    pub fn ceiling_log_base_2(&self) -> (r: u64)
        requires
            self.wf(),
            self@ != 0,
            floor_log_base_2_spec(self@) < u64::MAX - 1,
        ensures
            r == ceiling_log_base_2_spec(self@),
    {
        proof {
            lemma_floor_and_ceiling_log_base_2(self@);
        }
        let floor_log_base_2: u64 = self.floor_log_base_2();
        if self.checked_log_base_2().is_some() {
            floor_log_base_2
        } else {
            floor_log_base_2 + 1
        }
    }
}

} // verus!
