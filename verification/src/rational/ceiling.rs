//! The integers next to a fraction.

use crate::integer::Integer;
use crate::natural::Natural;
use crate::rational::{lemma_coprime_to_one, Rational};
use crate::rounding_modes::{div_round_nat, RoundingMode};
use vstd::arithmetic::div_mod::{lemma_fundamental_div_mod, lemma_fundamental_div_mod_converse};
use vstd::prelude::*;

verus! {

/// The largest integer that is not above `p / q`, for a positive `q`.
pub open spec fn floor_of_ratio(p: int, q: int) -> int {
    p / q
}

/// The smallest integer that is not below `p / q`, for a positive `q`.
pub open spec fn ceiling_of_ratio(p: int, q: int) -> int {
    -((-p) / q)
}

/// The floor is the one integer `f` with `f <= p / q < f + 1`, and the
/// ceiling the one integer `c` with `c - 1 < p / q <= c`.
pub proof fn lemma_floor_and_ceiling_of_ratio(p: int, q: int)
    requires
        q > 0,
    ensures
        floor_of_ratio(p, q) * q <= p < (floor_of_ratio(p, q) + 1) * q,
        (ceiling_of_ratio(p, q) - 1) * q < p <= ceiling_of_ratio(p, q) * q,
{
    lemma_fundamental_div_mod(p, q);
    lemma_fundamental_div_mod(-p, q);
    let f = p / q;
    let g = (-p) / q;
    assert((f + 1) * q == f * q + q && f * q == q * f) by (nonlinear_arith);
    assert((-g - 1) * q == -(q * g) - q && (-g) * q == -(q * g)) by (nonlinear_arith);
}

/// The ceiling of a quotient of natural numbers is the quotient rounded
/// under `Ceiling`, and its floor the quotient rounded down.
proof fn lemma_ceiling_of_naturals(n: nat, d: nat)
    requires
        d > 0,
    ensures
        ceiling_of_ratio(n as int, d as int) == div_round_nat(n, d, RoundingMode::Ceiling),
        floor_of_ratio(-(n as int), d as int) == -(div_round_nat(n, d, RoundingMode::Ceiling)
            as int),
        ceiling_of_ratio(-(n as int), d as int) == -((n / d) as int),
        floor_of_ratio(n as int, d as int) == n / d,
        div_round_nat(n, d, RoundingMode::Ceiling) == 0 <==> n == 0,
{
    let x = n as int;
    let a = d as int;
    lemma_fundamental_div_mod(x, a);
    let q = x / a;
    let r = x % a;
    assert(q >= 0) by (nonlinear_arith)
        requires
            x == a * q + r,
            0 <= r < a,
            x >= 0,
    ;
    if r == 0 {
        assert(-x == (-q) * a + 0) by (nonlinear_arith)
            requires
                x == a * q + r,
                r == 0,
        ;
        lemma_fundamental_div_mod_converse(-x, a, -q, 0);
        assert(q == 0 <==> x == 0) by (nonlinear_arith)
            requires
                x == a * q,
                a > 0,
        ;
    } else {
        assert(-x == (-q - 1) * a + (a - r)) by (nonlinear_arith)
            requires
                x == a * q + r,
        ;
        lemma_fundamental_div_mod_converse(-x, a, -q - 1, a - r);
    }
}

impl Rational {
    /// The smallest integer that is not below the fraction. A fraction that
    /// is not negative has its numerator divided under `Ceiling`; of a
    /// negative one the magnitude is divided and cut off, which is the same.
    pub fn ceiling(&self) -> (r: Integer)
        requires
            self.wf(),
        ensures
            r.wf(),
            r@ == ceiling_of_ratio(self.numer(), self.denom()),
    {
        proof {
            lemma_ceiling_of_naturals(self.numerator@, self.denominator@);
        }
        if self.sign {
            Integer::from_natural(
                self.numerator.div_round_and_sign(&self.denominator, RoundingMode::Ceiling).0,
            )
        } else {
            Integer::from_sign_and_abs(false, self.numerator.div(&self.denominator))
        }
    }

    /// The largest integer that is not above the fraction.
    pub fn floor(&self) -> (r: Integer)
        requires
            self.wf(),
        ensures
            r.wf(),
            r@ == floor_of_ratio(self.numer(), self.denom()),
    {
        proof {
            lemma_ceiling_of_naturals(self.numerator@, self.denominator@);
        }
        if self.sign {
            Integer::from_natural(self.numerator.div(&self.denominator))
        } else {
            Integer::from_sign_and_abs(
                false,
                self.numerator.div_round_and_sign(&self.denominator, RoundingMode::Ceiling).0,
            )
        }
    }

    /// Replaces the fraction by the smallest integer that is not below it.
    /// The denominator is one afterwards.
    pub fn ceiling_assign(&mut self)
        requires
            old(self).wf(),
        ensures
            final(self).wf(),
            final(self).numer() == ceiling_of_ratio(old(self).numer(), old(self).denom()),
            final(self).denom() == 1,
    {
        proof {
            lemma_ceiling_of_naturals(self.numerator@, self.denominator@);
        }
        let mut d: Natural = Natural::one();
        std::mem::swap(&mut self.denominator, &mut d);
        if self.sign {
            self.numerator = self.numerator.div_round_and_sign(&d, RoundingMode::Ceiling).0;
        } else {
            self.numerator = self.numerator.div(&d);
            if !self.sign && self.numerator.is_zero() {
                self.sign = true;
            }
        }
        proof {
            lemma_coprime_to_one(self.numerator@);
        }
    }

    /// Replaces the fraction by the largest integer that is not above it.
    /// The denominator is one afterwards.
    pub fn floor_assign(&mut self)
        requires
            old(self).wf(),
        ensures
            final(self).wf(),
            final(self).numer() == floor_of_ratio(old(self).numer(), old(self).denom()),
            final(self).denom() == 1,
    {
        proof {
            lemma_ceiling_of_naturals(self.numerator@, self.denominator@);
        }
        let mut d: Natural = Natural::one();
        std::mem::swap(&mut self.denominator, &mut d);
        if self.sign {
            self.numerator = self.numerator.div(&d);
        } else {
            self.numerator = self.numerator.div_round_and_sign(&d, RoundingMode::Ceiling).0;
        }
        proof {
            lemma_coprime_to_one(self.numerator@);
        }
    }
}

} // verus!
