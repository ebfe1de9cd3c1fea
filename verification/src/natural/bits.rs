//! Bit counts, powers of two and reduction modulo a power of two.

use crate::log_base_2::{
    floor_log_base_2_spec, lemma_floor_log_base_2_bounds, lemma_floor_log_base_2_unique,
    significant_bits, significant_bits_spec,
};
use crate::natural::limbs::{
    lemma_limb_weight, lemma_limb_weight_increases, lemma_limbs_value_bound,
    lemma_limbs_value_push, lemma_limbs_value_split, lemma_limbs_value_zeros, limb_base,
    limb_weight, limbs_value, Limb,
};
use crate::natural::Natural;
use vstd::arithmetic::div_mod::lemma_fundamental_div_mod_converse;
use vstd::arithmetic::power2::{lemma2_to64, lemma_pow2_adds, lemma_pow2_pos, pow2};
use vstd::bits::{lemma_u32_pow2_no_overflow, lemma_u32_shl_is_mul};
use vstd::prelude::*;

verus! {

/// The bit count of a number, or the largest count that 64 bits can hold
/// where the number has more bits than that.
pub open spec fn significant_bits_saturating(x: nat) -> nat {
    if significant_bits_spec(x) <= u64::MAX {
        significant_bits_spec(x)
    } else {
        u64::MAX as nat
    }
}

/// The bits of trimmed limbs are those of the top limb and 32 for each limb
/// below it.
pub proof fn lemma_limbs_significant_bits(xs: Seq<Limb>)
    requires
        xs.len() > 0,
        xs.last() != 0,
    ensures
        significant_bits_spec(limbs_value(xs)) == 32 * (xs.len() - 1) + significant_bits_spec(
            xs.last() as nat,
        ),
        limbs_value(xs) > 0,
{
    let n = (xs.len() - 1) as nat;
    let t = xs.last() as nat;
    let w = limb_weight(n);
    let f = floor_log_base_2_spec(t);
    assert(xs =~= xs.drop_last().push(xs.last()));
    lemma_limbs_value_push(xs.drop_last(), xs.last());
    lemma_limbs_value_bound(xs.drop_last());
    lemma_floor_log_base_2_bounds(t);
    lemma_limb_weight(n);
    lemma_pow2_adds(32 * n, f);
    lemma_pow2_adds(32 * n, f + 1);
    assert(w * pow2(f) <= w * t) by (nonlinear_arith)
        requires
            pow2(f) <= t,
    ;
    assert(w * (t + 1) <= w * pow2(f + 1)) by (nonlinear_arith)
        requires
            t + 1 <= pow2(f + 1),
    ;
    assert(w * (t + 1) == w * t + w) by (nonlinear_arith);
    lemma_floor_log_base_2_unique(limbs_value(xs), 32 * n + f);
}

/// `m` zero limbs and then the limb `x` stand for `x` at the weight of `m`.
pub proof fn lemma_limbs_value_shifted_limb(xs: Seq<Limb>)
    requires
        xs.len() > 0,
        forall|i: int| 0 <= i < xs.len() - 1 ==> xs[i] == 0,
    ensures
        limbs_value(xs) == limb_weight((xs.len() - 1) as nat) * xs.last(),
{
    assert(xs =~= xs.drop_last().push(xs.last()));
    lemma_limbs_value_push(xs.drop_last(), xs.last());
    lemma_limbs_value_zeros(xs.drop_last());
}

/// The low `m` limbs and the low `j` bits of the limb at `m` stand for the
/// number reduced modulo `2^(32 m + j)`.
pub proof fn lemma_limbs_value_mod_power_of_two(xs: Seq<Limb>, m: int, j: nat, low_bits: Limb)
    requires
        0 <= m < xs.len(),
        j < 32,
        low_bits == xs[m] % (pow2(j) as Limb),
    ensures
        limbs_value(xs.take(m).push(low_bits)) == limbs_value(xs) % pow2(32 * (m as nat) + j),
{
    let w = limb_weight(m as nat);
    let p = pow2(j);
    lemma_u32_pow2_no_overflow(j);
    lemma_pow2_pos(j);
    lemma_pow2_adds(32 * (m as nat), j);
    lemma_pow2_adds(j, (32 - j) as nat);
    lemma2_to64();
    lemma_limb_weight(m as nat);
    lemma_limbs_value_split(xs, m);
    lemma_limbs_value_bound(xs.take(m));
    lemma_limbs_value_push(xs.take(m), low_bits);
    let low = limbs_value(xs.take(m));
    let high = limbs_value(xs.skip(m).drop_first());
    let x = xs[m] as nat;
    let a = x / p;
    let b = x % p;
    let rest = pow2((32 - j) as nat);
    assert(x == a * p + b) by (nonlinear_arith)
        requires
            a == x / p,
            b == x % p,
            p > 0,
    ;
    let q = a + rest * high;
    let kept = low + w * b;
    assert(w * (x + limb_base() * high) == q * (w * p) + w * b) by (nonlinear_arith)
        requires
            x == a * p + b,
            limb_base() == p * rest,
            q == a + rest * high,
    ;
    assert(w * b <= w * (p - 1)) by (nonlinear_arith)
        requires
            b <= p - 1,
    ;
    assert(w * (p - 1) == w * p - w) by (nonlinear_arith);
    lemma_fundamental_div_mod_converse(
        limbs_value(xs) as int,
        (w * p) as int,
        q as int,
        kept as int,
    );
}

/// A number of at most `m` limbs is its own remainder modulo `2^(32 m + j)`.
pub proof fn lemma_limbs_value_below_power_of_two(xs: Seq<Limb>, m: nat, j: nat)
    requires
        xs.len() <= m,
    ensures
        limbs_value(xs) == limbs_value(xs) % pow2(32 * m + j),
{
    lemma_limbs_value_bound(xs);
    lemma_limb_weight_increases(xs.len(), m);
    lemma_pow2_adds(32 * m, j);
    lemma_pow2_pos(j);
    let w = limb_weight(m);
    let p = pow2(j);
    assert(w <= w * p) by (nonlinear_arith)
        requires
            p >= 1,
            w >= 0,
    ;
    lemma_fundamental_div_mod_converse(
        limbs_value(xs) as int,
        pow2(32 * m + j) as int,
        0,
        limbs_value(xs) as int,
    );
}

/// The logarithm of a number of one limb is below 32.
pub proof fn lemma_small_log(x: nat)
    requires
        0 < x < limb_base(),
    ensures
        floor_log_base_2_spec(x) < 32,
{
    lemma_floor_log_base_2_bounds(x);
    lemma2_to64();
    if floor_log_base_2_spec(x) > 32 {
        vstd::arithmetic::power2::lemma_pow2_strictly_increases(32, floor_log_base_2_spec(x));
    }
}

/// Returns `2^j` for `j` below 32.
fn limb_power_of_2(j: u64) -> (r: Limb)
    requires
        j < 32,
    ensures
        r == pow2(j as nat),
        r > 0,
{
    proof {
        lemma_u32_pow2_no_overflow(j as nat);
        lemma_u32_shl_is_mul(1u32, j as u32);
    }
    1u32 << (j as u32)
}

impl Natural {
    /// The number of bits needed to write the number: none for zero. Where
    /// the count does not fit in 64 bits, the largest count that does.
    pub fn significant_bits(&self) -> (r: u64)
        requires
            self.wf(),
        ensures
            r == significant_bits_saturating(self@),
    {
        match self {
            Natural::Small(x) => significant_bits(*x as u64),
            Natural::Large(xs) => {
                let n: usize = xs.len();
                let top: u64 = significant_bits(xs[n - 1] as u64);
                proof {
                    lemma_limbs_significant_bits(xs@);
                }
                let below: u64 = (n - 1) as u64;
                match below.checked_mul(32) {
                    Some(low_bits) => match low_bits.checked_add(top) {
                        Some(bits) => bits,
                        None => u64::MAX,
                    },
                    None => u64::MAX,
                }
            },
        }
    }

    /// Whether the number is even.
    pub fn is_even(&self) -> (r: bool)
        requires
            self.wf(),
        ensures
            r == (self@ % 2 == 0),
    {
        let low: Limb = match self {
            Natural::Small(x) => *x,
            Natural::Large(xs) => xs[0],
        };
        proof {
            if let Natural::Large(xs) = self {
                let rest = limbs_value(xs@.drop_first());
                assert((xs@[0] + limb_base() * rest) % 2 == xs@[0] % 2) by (nonlinear_arith)
                    requires
                        limb_base() == 2 * 0x8000_0000,
                ;
            }
        }
        low % 2 == 0
    }

    /// `2^k`.
    pub fn power_of_2(k: u64) -> (r: Natural)
        ensures
            r.wf(),
            r@ == pow2(k as nat),
    {
        let m: u64 = k / 32;
        let j: u64 = k % 32;
        let mut limbs: Vec<Limb> = Vec::new();
        let mut count: u64 = 0;
        while count < m
            invariant
                count <= m,
                limbs@.len() == count,
                forall|i: int| 0 <= i < limbs@.len() ==> limbs@[i] == 0,
            decreases m - count,
        {
            limbs.push(0);
            count += 1;
        }
        let top: Limb = limb_power_of_2(j);
        limbs.push(top);
        proof {
            lemma_limbs_value_shifted_limb(limbs@);
            lemma_pow2_adds(32 * (m as nat), j as nat);
        }
        Natural::from_owned_limbs_asc(limbs)
    }

    /// The number times `2^k`.
    pub fn shl(&self, k: u64) -> (r: Natural)
        requires
            self.wf(),
        ensures
            r.wf(),
            r@ == self@ * pow2(k as nat),
    {
        self.mul(&Natural::power_of_2(k))
    }

    /// The remainder of the number modulo `2^k`: its low `k` bits.
    pub fn mod_power_of_two(&self, k: u64) -> (r: Natural)
        requires
            self.wf(),
        ensures
            r.wf(),
            r@ == self@ % pow2(k as nat),
    {
        let m: u64 = k / 32;
        let j: u64 = k % 32;
        let xs: Vec<Limb> = self.to_limbs_asc();
        if xs.len() as u64 <= m {
            proof {
                lemma_limbs_value_below_power_of_two(xs@, m as nat, j as nat);
            }
            return Natural::from_owned_limbs_asc(xs);
        }
        let whole: usize = m as usize;
        let mut out: Vec<Limb> = Vec::new();
        let mut i: usize = 0;
        while i < whole
            invariant
                i <= whole,
                whole < xs@.len(),
                out@ == xs@.take(i as int),
            decreases whole - i,
        {
            out.push(xs[i]);
            i += 1;
        }
        let low_bits: Limb = xs[whole] % limb_power_of_2(j);
        proof {
            lemma_limbs_value_mod_power_of_two(xs@, whole as int, j as nat, low_bits);
        }
        out.push(low_bits);
        Natural::from_owned_limbs_asc(out)
    }

    /// Whether the two numbers are congruent modulo `2^k`: whether their low
    /// `k` bits agree.
    pub fn eq_mod_power_of_two(&self, other: &Natural, k: u64) -> (r: bool)
        requires
            self.wf(),
            other.wf(),
        ensures
            r == (self@ % pow2(k as nat) == other@ % pow2(k as nat)),
    {
        self.mod_power_of_two(k).equals(&other.mod_power_of_two(k))
    }
}

} // verus!
