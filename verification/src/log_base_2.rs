//! Base-2 logarithms of machine words, and the mathematical functions that
//! the logarithms of larger numbers are stated with.

use vstd::arithmetic::power2::*;
use vstd::bits::*;
use vstd::prelude::*;
use vstd::std_specs::bits::*;

verus! {

/// `x` is `2^k` for some `k`.
pub open spec fn is_power_of_two(x: nat) -> bool {
    exists|k: nat| x == pow2(k)
}

/// The largest `k` with `2^k <= x`, for positive `x`; 0 for `x = 0`.
pub open spec fn floor_log_base_2_spec(x: nat) -> nat
    decreases x,
{
    if x <= 1 {
        0
    } else {
        1 + floor_log_base_2_spec(x / 2)
    }
}

/// The smallest `k` with `x <= 2^k`.
pub open spec fn ceiling_log_base_2_spec(x: nat) -> nat {
    if x <= 1 {
        0
    } else {
        floor_log_base_2_spec((x - 1) as nat) + 1
    }
}

/// The number of bits needed to write `x`: 0 for 0, else one more than the
/// floor of the logarithm.
pub open spec fn significant_bits_spec(x: nat) -> nat {
    if x == 0 {
        0
    } else {
        floor_log_base_2_spec(x) + 1
    }
}

/// A positive number lies between the power of two that its floor logarithm
/// names and the next one.
pub proof fn lemma_floor_log_base_2_bounds(x: nat)
    requires
        x > 0,
    ensures
        pow2(floor_log_base_2_spec(x)) <= x < pow2(floor_log_base_2_spec(x) + 1),
    decreases x,
{
    lemma2_to64();
    if x > 1 {
        lemma_floor_log_base_2_bounds(x / 2);
        lemma_pow2_unfold(floor_log_base_2_spec(x));
        lemma_pow2_unfold(floor_log_base_2_spec(x) + 1);
    }
}

/// Only one exponent brackets a number between two neighbouring powers of two.
pub proof fn lemma_floor_log_base_2_unique(x: nat, k: nat)
    requires
        pow2(k) <= x < pow2(k + 1),
    ensures
        k == floor_log_base_2_spec(x),
{
    lemma_pow2_pos(k);
    lemma_floor_log_base_2_bounds(x);
    let f = floor_log_base_2_spec(x);
    if k < f {
        if k + 1 < f {
            lemma_pow2_strictly_increases(k + 1, f);
        }
    } else if f < k {
        if f + 1 < k {
            lemma_pow2_strictly_increases(f + 1, k);
        }
    }
}

/// The ceiling logarithm names the first power of two that is not below `x`.
pub proof fn lemma_ceiling_log_base_2_bounds(x: nat)
    requires
        x > 0,
    ensures
        x <= pow2(ceiling_log_base_2_spec(x)),
        ceiling_log_base_2_spec(x) > 0 ==> pow2((ceiling_log_base_2_spec(x) - 1) as nat) < x,
{
    lemma2_to64();
    if x > 1 {
        lemma_floor_log_base_2_bounds((x - 1) as nat);
    }
}

/// Only one exponent names the first power of two that is not below `x`.
pub proof fn lemma_ceiling_log_base_2_unique(x: nat, c: nat)
    requires
        x > 0,
        x <= pow2(c),
        c > 0 ==> pow2((c - 1) as nat) < x,
    ensures
        c == ceiling_log_base_2_spec(x),
{
    lemma2_to64();
    if x <= 1 {
        if c > 0 {
            lemma_pow2_pos((c - 1) as nat);
        }
    } else {
        lemma_floor_log_base_2_unique((x - 1) as nat, (c - 1) as nat);
    }
}

/// The logarithm of a power of two is its exponent.
pub proof fn lemma_floor_log_base_2_of_pow2(k: nat)
    ensures
        floor_log_base_2_spec(pow2(k)) == k,
{
    lemma_pow2_strictly_increases(k, k + 1);
    lemma_floor_log_base_2_unique(pow2(k), k);
}

/// For every positive `x`, the floor logarithm is at most the ceiling
/// logarithm, which is at most one more; the two agree exactly on the powers
/// of two.
pub proof fn lemma_floor_and_ceiling_log_base_2(x: nat)
    requires
        x > 0,
    ensures
        floor_log_base_2_spec(x) <= ceiling_log_base_2_spec(x) <= floor_log_base_2_spec(x) + 1,
        floor_log_base_2_spec(x) == ceiling_log_base_2_spec(x) <==> is_power_of_two(x),
{
    let f = floor_log_base_2_spec(x);
    let c = ceiling_log_base_2_spec(x);
    lemma_floor_log_base_2_bounds(x);
    lemma_ceiling_log_base_2_bounds(x);
    if c < f {
        lemma_pow2_pos(c);
        if c + 1 < f {
            lemma_pow2_strictly_increases(c + 1, f);
        }
        if c < f {
            lemma_pow2_strictly_increases(c, f);
        }
    }
    if c > f + 1 {
        if f + 1 < c - 1 {
            lemma_pow2_strictly_increases(f + 1, (c - 1) as nat);
        }
    }
    if is_power_of_two(x) {
        let k = choose|k: nat| x == pow2(k);
        lemma_floor_log_base_2_of_pow2(k);
        if k > 0 {
            lemma_pow2_strictly_increases((k - 1) as nat, k);
        }
        lemma_ceiling_log_base_2_unique(x, k);
    }
}

/// What `leading_zeros` counts is 63 less the floor logarithm.
proof fn lemma_leading_zeros_is_log(x: u64)
    requires
        x > 0,
    ensures
        u64_leading_zeros(x) == 63 - floor_log_base_2_spec(x as nat),
    decreases x,
{
    reveal(u64_leading_zeros);
    if x > 1 {
        lemma_leading_zeros_is_log(x / 2);
    } else {
        assert(u64_leading_zeros(1u64 / 2) == 64);
    }
}

/// A 64-bit word is a power of two exactly when its leading and trailing
/// zeros leave room for one bit; the trailing zeros then give the exponent.
proof fn lemma_one_bit_between_zeros(x: u64)
    requires
        x > 0,
    ensures
        u64_leading_zeros(x) + u64_trailing_zeros(x) == 63 <==> is_power_of_two(x as nat),
        is_power_of_two(x as nat) ==> x == pow2(u64_trailing_zeros(x) as nat),
{
    axiom_u64_leading_zeros(x);
    axiom_u64_trailing_zeros(x);
    let lz: u64 = u64_leading_zeros(x) as u64;
    let tz: u64 = u64_trailing_zeros(x) as u64;
    if lz + tz == 63 {
        let below: u64 = (64 - tz) as u64;
        let above: u64 = (64 - lz) as u64;
        assert(x == 1u64 << tz) by (bit_vector)
            requires
                tz < 64,
                below == 64 - tz,
                above == tz + 1,
                (x >> tz) & 1u64 == 1u64,
                x << below == 0,
                x >> above == 0,
        ;
        lemma_u64_pow2_no_overflow(tz as nat);
        lemma_u64_shl_is_mul(1u64, tz);
    }
    if is_power_of_two(x as nat) {
        let k = choose|k: nat| x as nat == pow2(k);
        if k >= 64 {
            lemma2_to64_rest();
            if k > 64 {
                lemma_pow2_strictly_increases(64, k);
            }
        }
        let kk: u64 = k as u64;
        lemma_u64_pow2_no_overflow(k);
        lemma_u64_shl_is_mul(1u64, kk);
        let top: u64 = (63 - lz) as u64;
        assert(tz == kk && top == kk) by (bit_vector)
            requires
                kk < 64,
                tz < 64,
                top < 64,
                x == 1u64 << kk,
                (x >> tz) & 1u64 == 1u64,
                (x >> top) & 1u64 != 0u64,
        ;
    }
}

/// The number of bits needed to write `x`.
pub fn significant_bits(x: u64) -> (r: u64)
    ensures
        r == significant_bits_spec(x as nat),
        r <= 64,
{
    proof {
        axiom_u64_leading_zeros(x);
        if x > 0 {
            lemma_leading_zeros_is_log(x);
        }
    }
    64 - (x.leading_zeros() as u64)
}

/// The floor of the base-2 logarithm of a positive word: the index of its
/// highest set bit.
pub fn floor_log_base_2(x: u64) -> (r: u64)
    requires
        x != 0,
    ensures
        r == floor_log_base_2_spec(x as nat),
        pow2(r as nat) <= x < pow2(r as nat + 1),
        r < 64,
{
    proof {
        lemma_floor_log_base_2_bounds(x as nat);
    }
    significant_bits(x) - 1
}

/// The base-2 logarithm of a positive word that is a power of two; `None` for
/// any other word.
pub fn checked_log_base_2(x: u64) -> (r: Option<u64>)
    requires
        x != 0,
    ensures
        r is Some <==> is_power_of_two(x as nat),
        r matches Some(k) ==> x == pow2(k as nat) && k < 64,
{
    proof {
        axiom_u64_leading_zeros(x);
        axiom_u64_trailing_zeros(x);
        lemma_one_bit_between_zeros(x);
    }
    let leading_zeros: u32 = x.leading_zeros();
    let trailing_zeros: u32 = x.trailing_zeros();
    if leading_zeros + trailing_zeros == 63 {
        Some(trailing_zeros as u64)
    } else {
        None
    }
}

/// The ceiling of the base-2 logarithm of a positive word.
pub fn ceiling_log_base_2(x: u64) -> (r: u64)
    requires
        x != 0,
    ensures
        r == ceiling_log_base_2_spec(x as nat),
        x <= pow2(r as nat),
        r > 0 ==> pow2((r - 1) as nat) < x,
        r <= 64,
{
    proof {
        lemma_floor_and_ceiling_log_base_2(x as nat);
        lemma_ceiling_log_base_2_bounds(x as nat);
    }
    let floor_log_base_2: u64 = floor_log_base_2(x);
    if checked_log_base_2(x).is_some() {
        floor_log_base_2
    } else {
        floor_log_base_2 + 1
    }
}

} // verus!
