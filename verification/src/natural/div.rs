//! Division of natural numbers with a remainder.
//!
//! A divisor of one limb is divided by limb from the top. Any other divisor
//! is divided by bit from the top: the remainder is doubled, takes the next
//! bit of the dividend, and gives up the divisor where it has grown to it.

use crate::natural::limbs::{limb_base, limbs_trim, limbs_trimmed, limbs_value, Limb};
use crate::natural::mul::{limbs_mul_limb_add, limbs_zeros};
use crate::natural::order::limbs_sign_of_difference;
use crate::natural::sub::limbs_sub;
use crate::natural::Natural;
use vstd::arithmetic::div_mod::lemma_fundamental_div_mod_converse;
use vstd::arithmetic::power2::{lemma2_to64, lemma_pow2_unfold, pow2};
use vstd::prelude::*;

verus! {

/// What one step of the division by a limb keeps true.
proof fn lemma_div_limb_step(hx: nat, hq: nat, d: nat, r: nat, x: nat, q: nat, next_r: nat)
    requires
        hx == hq * d + r,
        r * limb_base() + x == q * d + next_r,
    ensures
        x + limb_base() * hx == (q + limb_base() * hq) * d + next_r,
{
    assert(limb_base() * (hq * d + r) == (limb_base() * hq) * d + r * limb_base())
        by (nonlinear_arith);
    assert((q + limb_base() * hq) * d == q * d + (limb_base() * hq) * d) by (nonlinear_arith);
}

/// A remainder and one more limb, divided by the divisor, give one limb.
proof fn lemma_div_limb_fits(r: Limb, x: Limb, d: Limb)
    requires
        r < d,
    ensures
        r * limb_base() + x <= u64::MAX,
        (r * limb_base() + x) / (d as int) < limb_base(),
        r * limb_base() == r * 0x1_0000_0000,
{
    let t = r * limb_base() + x;
    assert(r * limb_base() <= (d - 1) * limb_base()) by (nonlinear_arith)
        requires
            r <= d - 1,
    ;
    assert((d - 1) * limb_base() == d * limb_base() - limb_base()) by (nonlinear_arith);
    assert(d * limb_base() <= 0xffff_ffff * limb_base()) by (nonlinear_arith)
        requires
            d <= 0xffff_ffff,
    ;
    assert(t / (d as int) < limb_base()) by (nonlinear_arith)
        requires
            0 <= t < d * limb_base(),
            d > 0,
    ;
}

/// Divides the number that `xs` stands for by the limb `d`. Returns the
/// limbs of the quotient, as many as `xs` has, and the remainder.
pub fn limbs_div_limb(xs: &[Limb], d: Limb) -> (r: (Vec<Limb>, Limb))
    requires
        d != 0,
    ensures
        r.0@.len() == xs@.len(),
        limbs_value(xs@) == limbs_value(r.0@) * d + r.1,
        r.1 < d,
        limbs_value(r.0@) == limbs_value(xs@) / (d as nat),
        r.1 == limbs_value(xs@) % (d as nat),
{
    let n: usize = xs.len();
    let mut quotient: Vec<Limb> = limbs_zeros(n);
    let mut rem: Limb = 0;
    let mut i: usize = n;
    proof {
        assert(0 * d == 0);
    }
    while i > 0
        invariant
            i <= n,
            n == xs@.len(),
            quotient@.len() == n,
            d != 0,
            rem < d,
            limbs_value(xs@.skip(i as int)) == limbs_value(quotient@.skip(i as int)) * d + rem,
        decreases i,
    {
        i -= 1;
        proof {
            lemma_div_limb_fits(rem, xs@[i as int], d);
        }
        let t: u64 = (rem as u64) * 0x1_0000_0000 + xs[i] as u64;
        let q: Limb = (t / (d as u64)) as Limb;
        let next_rem: Limb = (t % (d as u64)) as Limb;
        proof {
            let next = quotient@.update(i as int, q);
            assert(xs@.skip(i as int).drop_first() =~= xs@.skip(i + 1));
            assert(next.skip(i as int).drop_first() =~= quotient@.skip(i + 1));
            assert(t == q * d + next_rem) by (nonlinear_arith)
                requires
                    q == t / (d as u64),
                    next_rem == t % (d as u64),
                    d > 0,
            ;
            lemma_div_limb_step(
                limbs_value(xs@.skip(i + 1)),
                limbs_value(quotient@.skip(i + 1)),
                d as nat,
                rem as nat,
                xs@[i as int] as nat,
                q as nat,
                next_rem as nat,
            );
        }
        quotient[i] = q;
        rem = next_rem;
    }
    proof {
        assert(xs@.skip(0) =~= xs@);
        assert(quotient@.skip(0) =~= quotient@);
        lemma_fundamental_div_mod_converse(
            limbs_value(xs@) as int,
            d as int,
            limbs_value(quotient@) as int,
            rem as int,
        );
    }
    (quotient, rem)
}

/// Returns trimmed limbs that stand for twice the number that `xs` stands
/// for, plus one where `bit` is set.
pub fn limbs_double_plus_bit(xs: &[Limb], bit: bool) -> (out: Vec<Limb>)
    ensures
        limbs_value(out@) == 2 * limbs_value(xs@) + (if bit {
            1nat
        } else {
            0nat
        }),
        limbs_trimmed(out@),
{
    let mut out: Vec<Limb> = limbs_mul_limb_add(
        xs,
        2,
        if bit {
            1
        } else {
            0
        },
    );
    limbs_trim(&mut out);
    out
}

/// What one bit of the long division keeps true.
proof fn lemma_div_bit_step(h: nat, q: nat, d: nat, r: nat, bit: nat, taken: nat)
    requires
        h == q * d + r,
        r < d,
        bit <= 1,
        taken == (if 2 * r + bit >= d {
            1nat
        } else {
            0nat
        }),
    ensures
        2 * h + bit == (2 * q + taken) * d + (2 * r + bit - taken * d),
        2 * r + bit - taken * d < d,
        2 * r + bit >= taken * d,
{
    assert(2 * (q * d + r) == (2 * q) * d + 2 * r) by (nonlinear_arith);
    assert((2 * q + taken) * d == (2 * q) * d + taken * d) by (nonlinear_arith);
}

/// The part of a limb above bit `j` doubles and takes bit `j - 1` when `j`
/// goes down by one.
proof fn lemma_bits_above(x: u64, j: u64)
    requires
        x <= 0xffff_ffff,
        1 <= j <= 32,
    ensures
        ({
            let below: u64 = (j - 1) as u64;
            x >> below == 2 * (x >> j) + ((x >> below) & 1) && ((x >> below) & 1) <= 1
        }),
        x >> 32 == 0,
        x >> 0 == x,
{
    let below: u64 = (j - 1) as u64;
    assert(x >> below == 2 * (x >> j) + ((x >> below) & 1) && ((x >> below) & 1) <= 1)
        by (bit_vector)
        requires
            x <= 0xffff_ffff,
            1 <= j <= 32,
            below == j - 1,
    ;
    assert(x >> 32 == 0) by (bit_vector)
        requires
            x <= 0xffff_ffff,
    ;
    assert(x >> 0 == x) by (bit_vector);
}

/// Divides the number that `xs` stands for by the positive number that the
/// trimmed limbs `ys` stand for. Returns the trimmed limbs of the quotient
/// and of the remainder.
pub fn limbs_div_mod(xs: &[Limb], ys: &[Limb]) -> (r: (Vec<Limb>, Vec<Limb>))
    requires
        limbs_trimmed(ys@),
        limbs_value(ys@) != 0,
    ensures
        limbs_value(xs@) == limbs_value(r.0@) * limbs_value(ys@) + limbs_value(r.1@),
        limbs_value(r.1@) < limbs_value(ys@),
        limbs_value(r.0@) == limbs_value(xs@) / limbs_value(ys@),
        limbs_value(r.1@) == limbs_value(xs@) % limbs_value(ys@),
        limbs_trimmed(r.0@),
        limbs_trimmed(r.1@),
{
    let ghost d: nat = limbs_value(ys@);
    let mut quotient: Vec<Limb> = Vec::new();
    let mut rem: Vec<Limb> = Vec::new();
    let mut i: usize = xs.len();
    while i > 0
        invariant
            i <= xs@.len(),
            d == limbs_value(ys@),
            d != 0,
            limbs_trimmed(ys@),
            limbs_trimmed(quotient@),
            limbs_trimmed(rem@),
            limbs_value(rem@) < d,
            limbs_value(xs@.skip(i as int)) == limbs_value(quotient@) * d + limbs_value(rem@),
        decreases i,
    {
        i -= 1;
        let x: u64 = xs[i] as u64;
        let ghost high: nat = limbs_value(xs@.skip(i + 1));
        let mut j: u64 = 32;
        proof {
            lemma_bits_above(x, 32);
            lemma2_to64();
            assert(high * 1 == high);
        }
        while j > 0
            invariant
                j <= 32,
                x <= 0xffff_ffff,
                d == limbs_value(ys@),
                d != 0,
                limbs_trimmed(ys@),
                limbs_trimmed(quotient@),
                limbs_trimmed(rem@),
                limbs_value(rem@) < d,
                high * pow2((32 - j) as nat) + (x >> j) == limbs_value(quotient@) * d
                    + limbs_value(rem@),
            decreases j,
        {
            let ghost before: nat = (high * pow2((32 - j) as nat) + (x >> j)) as nat;
            let ghost q0: nat = limbs_value(quotient@);
            let ghost r0: nat = limbs_value(rem@);
            proof {
                lemma_bits_above(x, j);
                lemma_pow2_unfold((32 - j + 1) as nat);
            }
            j -= 1;
            let bit: bool = (x >> j) & 1 == 1;
            let ghost b: nat = if bit {
                1
            } else {
                0
            };
            rem = limbs_double_plus_bit(rem.as_slice(), bit);
            let taken: bool = limbs_sign_of_difference(rem.as_slice(), ys) >= 0;
            proof {
                lemma_div_bit_step(before, q0, d, r0, b, if taken {
                    1
                } else {
                    0
                });
                assert(high * pow2((32 - j) as nat) == 2 * (high * pow2((32 - j - 1) as nat)))
                    by (nonlinear_arith)
                    requires
                        pow2((32 - j) as nat) == 2 * pow2((32 - j - 1) as nat),
                ;
            }
            if taken {
                let (mut less, _borrow) = limbs_sub(rem.as_slice(), ys);
                limbs_trim(&mut less);
                rem = less;
            }
            quotient = limbs_double_plus_bit(quotient.as_slice(), taken);
        }
        proof {
            lemma_bits_above(x, 32);
            assert(xs@.skip(i as int).drop_first() =~= xs@.skip(i + 1));
            assert(high * pow2(32) == limb_base() * high) by (nonlinear_arith)
                requires
                    pow2(32) == limb_base(),
            ;
        }
    }
    proof {
        assert(xs@.skip(0) =~= xs@);
        lemma_fundamental_div_mod_converse(
            limbs_value(xs@) as int,
            d as int,
            limbs_value(quotient@) as int,
            limbs_value(rem@) as int,
        );
    }
    (quotient, rem)
}

impl Natural {
    /// The quotient and the remainder of the division by a nonzero number.
    pub fn div_mod(&self, other: &Natural) -> (r: (Natural, Natural))
        requires
            self.wf(),
            other.wf(),
            other@ != 0,
        ensures
            r.0.wf(),
            r.1.wf(),
            r.0@ == self@ / other@,
            r.1@ == self@ % other@,
            self@ == r.0@ * other@ + r.1@,
            r.1@ < other@,
    {
        match other {
            Natural::Small(d) => {
                let xs: Vec<Limb> = self.to_limbs_asc();
                let (quotient, rem) = limbs_div_limb(xs.as_slice(), *d);
                (Natural::from_owned_limbs_asc(quotient), Natural::Small(rem))
            },
            Natural::Large(ys) => {
                let xs: Vec<Limb> = self.to_limbs_asc();
                let (quotient, rem) = limbs_div_mod(xs.as_slice(), ys.as_slice());
                (Natural::from_owned_limbs_asc(quotient), Natural::from_owned_limbs_asc(rem))
            },
        }
    }

    /// The quotient of the division by a nonzero number, rounded down.
    pub fn div(&self, other: &Natural) -> (r: Natural)
        requires
            self.wf(),
            other.wf(),
            other@ != 0,
        ensures
            r.wf(),
            r@ == self@ / other@,
    {
        self.div_mod(other).0
    }

    /// The remainder of the division by a nonzero number.
    pub fn rem(&self, other: &Natural) -> (r: Natural)
        requires
            self.wf(),
            other.wf(),
            other@ != 0,
        ensures
            r.wf(),
            r@ == self@ % other@,
    {
        self.div_mod(other).1
    }
}

} // verus!
