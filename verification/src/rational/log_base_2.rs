//! The base-2 logarithm of the absolute value of a fraction.

use crate::log_base_2::{
    floor_log_base_2_spec, lemma_floor_log_base_2_bounds, significant_bits_spec,
};
use crate::natural::Natural;
use crate::rational::Rational;
use vstd::arithmetic::power2::{lemma_pow2_adds, lemma_pow2_pos, lemma_pow2_unfold, pow2};
use vstd::prelude::*;

verus! {

/// `e` is the floor of the base-2 logarithm of `n / d`:
/// `2^e <= n / d < 2^(e + 1)`.
pub open spec fn is_floor_log_base_2_of_ratio(n: nat, d: nat, e: int) -> bool {
    if e >= 0 {
        d * pow2(e as nat) <= n < d * pow2((e + 1) as nat)
    } else {
        d <= n * pow2((-e) as nat) && n * pow2((-e - 1) as nat) < d
    }
}

/// The floor of the base-2 logarithm of `n / d`, for positive `n` and `d`.
pub open spec fn floor_log_base_2_of_ratio(n: nat, d: nat) -> int {
    choose|e: int| is_floor_log_base_2_of_ratio(n, d, e)
}

/// Of two exponents, the smaller cannot bracket a fraction that the larger
/// brackets.
proof fn lemma_log_of_ratio_ordered(n: nat, d: nat, e1: int, e2: int)
    requires
        d > 0,
        is_floor_log_base_2_of_ratio(n, d, e1),
        is_floor_log_base_2_of_ratio(n, d, e2),
    ensures
        e1 >= e2,
{
    if e1 < e2 {
        // With a = max(e, 0) and b = max(-e, 0), `e` brackets the fraction when
        // d * 2^a <= n * 2^b < d * 2^(a + 1).
        let a1: nat = if e1 >= 0 {
            e1 as nat
        } else {
            0
        };
        let b1: nat = if e1 >= 0 {
            0
        } else {
            (-e1) as nat
        };
        let a2: nat = if e2 >= 0 {
            e2 as nat
        } else {
            0
        };
        let b2: nat = if e2 >= 0 {
            0
        } else {
            (-e2) as nat
        };
        vstd::arithmetic::power2::lemma2_to64();
        lemma_pow2_unfold(a1 + 1);
        if e1 < 0 {
            lemma_pow2_unfold(b1);
        }
        assert(n * pow2(b1) < d * pow2(a1 + 1)) by {
            if e1 < 0 {
                assert(n * (2 * pow2((b1 - 1) as nat)) == 2 * (n * pow2((b1 - 1) as nat)))
                    by (nonlinear_arith);
            }
        }
        assert(d * pow2(a2) <= n * pow2(b2));
        let left = pow2(a2 + b1);
        let right = pow2(a1 + 1 + b2);
        lemma_pow2_adds(a2, b1);
        lemma_pow2_adds(a1 + 1, b2);
        lemma_pow2_pos(b1);
        lemma_pow2_pos(b2);
        assert(d * left <= (n * pow2(b2)) * pow2(b1)) by (nonlinear_arith)
            requires
                d * pow2(a2) <= n * pow2(b2),
                left == pow2(a2) * pow2(b1),
                pow2(b1) > 0,
        ;
        assert((n * pow2(b1)) * pow2(b2) < d * right) by (nonlinear_arith)
            requires
                n * pow2(b1) < d * pow2(a1 + 1),
                right == pow2(a1 + 1) * pow2(b2),
                pow2(b2) > 0,
        ;
        assert((n * pow2(b2)) * pow2(b1) == (n * pow2(b1)) * pow2(b2)) by (nonlinear_arith);
        assert(left < right) by (nonlinear_arith)
            requires
                d * left < d * right,
                d > 0,
        ;
        if a2 + b1 > a1 + 1 + b2 {
            vstd::arithmetic::power2::lemma_pow2_strictly_increases(a1 + 1 + b2, a2 + b1);
        }
    }
}

/// Only one exponent brackets a fraction between two neighbouring powers
/// of two.
pub proof fn lemma_floor_log_base_2_of_ratio_unique(n: nat, d: nat, e: int)
    requires
        d > 0,
        is_floor_log_base_2_of_ratio(n, d, e),
    ensures
        floor_log_base_2_of_ratio(n, d) == e,
{
    let chosen = floor_log_base_2_of_ratio(n, d);
    lemma_log_of_ratio_ordered(n, d, e, chosen);
    lemma_log_of_ratio_ordered(n, d, chosen, e);
}

/// Where `n` has at least as many bits as `d`, the logarithm of `n / d` is
/// the difference of the bit counts, or one less.
proof fn lemma_log_of_ratio_upper(n: nat, d: nat, e: nat)
    requires
        n > 0,
        d > 0,
        significant_bits_spec(n) == significant_bits_spec(d) + e,
    ensures
        n >= d * pow2(e) ==> is_floor_log_base_2_of_ratio(n, d, e as int),
        n < d * pow2(e) ==> is_floor_log_base_2_of_ratio(n, d, e - 1),
{
    lemma_floor_log_base_2_bounds(n);
    lemma_floor_log_base_2_bounds(d);
    let sn = significant_bits_spec(n);
    let sd = significant_bits_spec(d);
    let p = pow2(e);
    lemma_pow2_pos(e);
    lemma_pow2_adds(sd, e);
    lemma_pow2_adds((sd - 1) as nat, e);
    lemma_pow2_unfold(sn);
    lemma_pow2_unfold(e + 1);
    // d * 2^(e + 1) >= 2^sn > n
    assert(d * (2 * p) >= 2 * (pow2((sd - 1) as nat) * p)) by (nonlinear_arith)
        requires
            d >= pow2((sd - 1) as nat),
            p >= 0,
    ;
    if n < d * p {
        if e >= 1 {
            lemma_pow2_unfold(e);
            let half = pow2((e - 1) as nat);
            // d * 2^(e - 1) < 2^(sn - 1) <= n
            assert(d * half < pow2(sd) * half) by (nonlinear_arith)
                requires
                    d < pow2(sd),
                    half > 0,
            ;
            lemma_pow2_pos((e - 1) as nat);
            lemma_pow2_adds(sd, (e - 1) as nat);
        } else {
            vstd::arithmetic::power2::lemma2_to64();
            assert(d * 1 == d);
            assert(n * pow2(0) == n);
            assert(n * pow2(1) == 2 * n);
        }
    }
}

/// Where `n` has fewer bits than `d`, the logarithm of `n / d` is the
/// negative difference of the bit counts, or one less.
proof fn lemma_log_of_ratio_lower(n: nat, d: nat, e: nat)
    requires
        n > 0,
        d > 0,
        e > 0,
        significant_bits_spec(d) == significant_bits_spec(n) + e,
    ensures
        n * pow2(e) >= d ==> is_floor_log_base_2_of_ratio(n, d, -(e as int)),
        n * pow2(e) < d ==> is_floor_log_base_2_of_ratio(n, d, -(e as int) - 1),
{
    lemma_floor_log_base_2_bounds(n);
    lemma_floor_log_base_2_bounds(d);
    let sn = significant_bits_spec(n);
    let sd = significant_bits_spec(d);
    let p = pow2(e);
    lemma_pow2_pos(e);
    lemma_pow2_adds(sn, e);
    lemma_pow2_adds((sn - 1) as nat, e);
    lemma_pow2_unfold(sd);
    lemma_pow2_unfold(e);
    lemma_pow2_unfold(e + 1);
    let half = pow2((e - 1) as nat);
    lemma_pow2_pos((e - 1) as nat);
    lemma_pow2_adds(sn, (e - 1) as nat);
    // n * 2^(e - 1) < 2^(sd - 1) <= d
    assert(n * half < pow2(sn) * half) by (nonlinear_arith)
        requires
            n < pow2(sn),
            half > 0,
    ;
    // n * 2^(e + 1) >= 2^sd > d
    assert(n * (2 * p) >= 2 * (pow2((sn - 1) as nat) * p)) by (nonlinear_arith)
        requires
            n >= pow2((sn - 1) as nat),
            p >= 0,
    ;
}

/// A fraction whose logarithm is below that of a natural number is below
/// the number, and one whose logarithm is above is above.
pub proof fn lemma_log_decides(n: nat, d: nat, e: int, m: nat, f: nat)
    requires
        d > 0,
        is_floor_log_base_2_of_ratio(n, d, e),
        pow2(f) <= m < pow2(f + 1),
    ensures
        e < f ==> n < m * d,
        e > f ==> n > m * d,
{
    lemma_pow2_pos(f);
    if e < f {
        if e >= 0 {
            if e + 1 < f {
                vstd::arithmetic::power2::lemma_pow2_strictly_increases((e + 1) as nat, f);
            }
            assert(d * pow2((e + 1) as nat) <= m * d) by (nonlinear_arith)
                requires
                    pow2((e + 1) as nat) <= m,
                    d >= 0,
            ;
        } else {
            lemma_pow2_pos((-e - 1) as nat);
            assert(n <= n * pow2((-e - 1) as nat)) by (nonlinear_arith)
                requires
                    pow2((-e - 1) as nat) >= 1,
            ;
            assert(d <= m * d) by (nonlinear_arith)
                requires
                    m >= 1,
                    d >= 0,
            ;
        }
    }
    if e > f {
        if e > f + 1 {
            vstd::arithmetic::power2::lemma_pow2_strictly_increases(f + 1, e as nat);
        }
        assert(d * pow2(e as nat) > m * d) by (nonlinear_arith)
            requires
                pow2(e as nat) > m,
                d > 0,
        ;
    }
}

/// The sign of the difference between the logarithms of `n / d` and of `m`,
/// both rounded down; zero where one of the three numbers has more bits
/// than a signed double word counts.
pub open spec fn sign_of_log_difference_spec(n: nat, d: nat, m: nat) -> int {
    if significant_bits_spec(n) > i64::MAX || significant_bits_spec(d) > i64::MAX
        || significant_bits_spec(m) > i64::MAX {
        0
    } else {
        let e = floor_log_base_2_of_ratio(n, d);
        let f = floor_log_base_2_spec(m) as int;
        if e < f {
            -1
        } else if e > f {
            1
        } else {
            0
        }
    }
}

impl Rational {
    /// The floor of the base-2 logarithm of the absolute value of a nonzero
    /// fraction whose numerator and denominator have bit counts that a
    /// signed double word holds.
    pub fn floor_log_base_2_of_abs(&self) -> (r: i64)
        requires
            self.wf(),
            self.numerator@ != 0,
            significant_bits_spec(self.numerator@) <= i64::MAX,
            significant_bits_spec(self.denominator@) <= i64::MAX,
        ensures
            is_floor_log_base_2_of_ratio(self.numerator@, self.denominator@, r as int),
            r == floor_log_base_2_of_ratio(self.numerator@, self.denominator@),
    {
        proof {
            assert forall|e: int|
                is_floor_log_base_2_of_ratio(
                    self.numerator@,
                    self.denominator@,
                    e,
                ) implies floor_log_base_2_of_ratio(self.numerator@, self.denominator@) == e by {
                lemma_floor_log_base_2_of_ratio_unique(self.numerator@, self.denominator@, e);
            }
        }
        let sn: u64 = self.numerator.significant_bits();
        let sd: u64 = self.denominator.significant_bits();
        if sn >= sd {
            let e: u64 = sn - sd;
            proof {
                lemma_log_of_ratio_upper(self.numerator@, self.denominator@, e as nat);
            }
            let shifted: Natural = self.denominator.shl(e);
            if self.numerator.less_than(&shifted) {
                e as i64 - 1
            } else {
                e as i64
            }
        } else {
            let e: u64 = sd - sn;
            proof {
                lemma_log_of_ratio_lower(self.numerator@, self.denominator@, e as nat);
            }
            let shifted: Natural = self.numerator.shl(e);
            if shifted.less_than(&self.denominator) {
                -(e as i64) - 1
            } else {
                -(e as i64)
            }
        }
    }

    /// The sign of the difference between the logarithm of the absolute value
    /// of a nonzero fraction and that of a positive natural number, both
    /// rounded down: -1, 0 or 1. Where the sign is not zero, it is also how
    /// the fraction stands to the number. Where a bit count does not fit in
    /// a signed double word, the logarithms are not looked at, and the
    /// result is zero.
    pub fn sign_of_log_difference(&self, other: &Natural) -> (r: i8)
        requires
            self.wf(),
            other.wf(),
            self.numerator@ != 0,
            other@ != 0,
        ensures
            r == sign_of_log_difference_spec(self.numerator@, self.denominator@, other@),
            r < 0 ==> self.numerator@ < other@ * self.denominator@,
            r > 0 ==> self.numerator@ > other@ * self.denominator@,
    {
        let limit: u64 = 0x7fff_ffff_ffff_ffff;
        let sn: u64 = self.numerator.significant_bits();
        let sd: u64 = self.denominator.significant_bits();
        let so: u64 = other.significant_bits();
        if sn > limit || sd > limit || so > limit {
            return 0;
        }
        let e: i64 = self.floor_log_base_2_of_abs();
        let f: i64 = (so - 1) as i64;
        proof {
            lemma_floor_log_base_2_bounds(other@);
            lemma_log_decides(self.numerator@, self.denominator@, e as int, other@, f as nat);
        }
        if e < f {
            -1
        } else if e > f {
            1
        } else {
            0
        }
    }
}

} // verus!
