//! Random natural numbers of a given size, each made of the limbs that come
//! next from a source.
//!
//! A number with up to `bits` bits is any number below `2^bits`. A number
//! with exactly `bits` bits has its top bit set and lies in the upper half
//! of that range. The two are made of the same limbs, and differ only in
//! what is done to the top bit.

use crate::natural::limbs::{limbs_value, Limb};
use crate::natural::Natural;
use crate::random::{position_after, RandomLimbs};
use vstd::arithmetic::div_mod::lemma_fundamental_div_mod;
use vstd::arithmetic::power2::{lemma2_to64, lemma_pow2_pos, lemma_pow2_unfold, pow2};
use vstd::prelude::*;

verus! {

/// How many limbs hold `bits` bits.
pub open spec fn limbs_for_bits(bits: nat) -> nat {
    (bits + 31) / 32
}

/// The number with up to `bits` bits that limbs give: the low `bits` bits of
/// the number that the limbs stand for.
pub open spec fn up_to_bits_spec(limbs: Seq<Limb>, bits: nat) -> nat {
    limbs_value(limbs) % pow2(bits)
}

/// The number with exactly `bits` bits that limbs give: the low `bits` bits
/// of the number that the limbs stand for, with the top one of them set.
/// With no bits there is only zero.
pub open spec fn with_bits_spec(limbs: Seq<Limb>, bits: nat) -> nat {
    if bits == 0 {
        0
    } else {
        limbs_value(limbs) % pow2((bits - 1) as nat) + pow2((bits - 1) as nat)
    }
}

/// A number with up to `bits` bits is below `2^bits`; one with exactly
/// `bits` bits is in the upper half of that range.
pub proof fn lemma_random_ranges(limbs: Seq<Limb>, bits: nat)
    ensures
        up_to_bits_spec(limbs, bits) < pow2(bits),
        bits > 0 ==> pow2((bits - 1) as nat) <= with_bits_spec(limbs, bits) < pow2(bits),
{
    lemma_pow2_pos(bits);
    lemma_fundamental_div_mod(limbs_value(limbs) as int, pow2(bits) as int);
    if bits > 0 {
        lemma_pow2_pos((bits - 1) as nat);
        lemma_pow2_unfold(bits);
        lemma_fundamental_div_mod(limbs_value(limbs) as int, pow2((bits - 1) as nat) as int);
    }
}

/// The number of limbs that hold `bits` bits.
pub fn limb_count_for_bits(bits: u64) -> (r: u64)
    ensures
        r == limbs_for_bits(bits as nat),
{
    let remainder_bits: u64 = bits % 32;
    if remainder_bits == 0 {
        bits / 32
    } else {
        bits / 32 + 1
    }
}

/// Makes a number with up to `bits` bits from limbs: what is above the low
/// `bits` bits is cleared, and the top bit is left as it came.
pub fn natural_up_to_bits_from_limbs(limbs: Vec<Limb>, bits: u64) -> (r: Natural)
    ensures
        r.wf(),
        r@ == up_to_bits_spec(limbs@, bits as nat),
{
    Natural::from_owned_limbs_asc(limbs).mod_power_of_two(bits)
}

/// Makes a number with exactly `bits` bits from limbs: what is above the low
/// `bits` bits is cleared, and the top one of them is set.
pub fn natural_with_bits_from_limbs(limbs: Vec<Limb>, bits: u64) -> (r: Natural)
    ensures
        r.wf(),
        r@ == with_bits_spec(limbs@, bits as nat),
{
    if bits == 0 {
        return Natural::zero();
    }
    let low: Natural = Natural::from_owned_limbs_asc(limbs).mod_power_of_two(bits - 1);
    low.add(&Natural::power_of_2(bits - 1))
}

/// Returns a random number with up to `bits` bits, which is a number below
/// `2^bits`. As many limbs are drawn as hold `bits` bits.
pub fn random_natural_up_to_bits(rng: &mut RandomLimbs, bits: u64) -> (r: Natural)
    ensures
        r.wf(),
        r@ == up_to_bits_spec(old(rng).upcoming(limbs_for_bits(bits as nat)), bits as nat),
        r@ < pow2(bits as nat),
        final(rng).seed == old(rng).seed,
        final(rng).position == position_after(old(rng).position, limbs_for_bits(bits as nat)),
{
    if bits == 0 {
        proof {
            lemma2_to64();
        }
        return Natural::zero();
    }
    let limb_count: u64 = limb_count_for_bits(bits);
    let limbs: Vec<Limb> = rng.next_limbs(limb_count);
    proof {
        lemma_random_ranges(limbs@, bits as nat);
    }
    natural_up_to_bits_from_limbs(limbs, bits)
}

/// Returns a random number with up to `bits` bits, which is a number below
/// `2^bits`. As many limbs are drawn as hold `bits` bits.
pub fn get_random_natural_with_up_to_bits(xs: &mut RandomLimbs, bits: u64) -> (r: Natural)
    ensures
        r.wf(),
        r@ == up_to_bits_spec(old(xs).upcoming(limbs_for_bits(bits as nat)), bits as nat),
        r@ < pow2(bits as nat),
        final(xs).seed == old(xs).seed,
        final(xs).position == position_after(old(xs).position, limbs_for_bits(bits as nat)),
{
    random_natural_up_to_bits(xs, bits)
}

/// Returns a random number with exactly `bits` bits, which is zero for no
/// bits and else a number from `2^(bits - 1)` to below `2^bits`. As many
/// limbs are drawn as hold `bits` bits.
pub fn get_random_natural_with_bits(xs: &mut RandomLimbs, bits: u64) -> (r: Natural)
    ensures
        r.wf(),
        r@ == with_bits_spec(old(xs).upcoming(limbs_for_bits(bits as nat)), bits as nat),
        bits == 0 ==> r@ == 0,
        bits > 0 ==> pow2((bits - 1) as nat) <= r@ < pow2(bits as nat),
        final(xs).seed == old(xs).seed,
        final(xs).position == position_after(old(xs).position, limbs_for_bits(bits as nat)),
{
    if bits == 0 {
        return Natural::zero();
    }
    let limb_count: u64 = limb_count_for_bits(bits);
    let limbs: Vec<Limb> = xs.next_limbs(limb_count);
    proof {
        lemma_random_ranges(limbs@, bits as nat);
    }
    natural_with_bits_from_limbs(limbs, bits)
}

} // verus!
