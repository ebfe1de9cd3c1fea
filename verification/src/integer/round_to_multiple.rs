//! Rounding an integer to a multiple of another.
//!
//! The sign is taken off first. The magnitude is rounded under the mode as
//! given where the integer is not negative, and with `Floor` and `Ceiling`
//! exchanged where it is; the result of the comparison is reversed with it.

use crate::integer::order::sign_of_int_difference;
use crate::integer::Integer;
use crate::rounding_modes::{
    can_div_round, can_round_to_multiple, div_round_nat, div_round_signed_spec, div_round_spec,
    magnitude, round_to_multiple_spec, RoundingMode,
};
use vstd::arithmetic::div_mod::{lemma_fundamental_div_mod, lemma_fundamental_div_mod_converse};
use vstd::prelude::*;

verus! {

/// The quotient of a negative number by a positive one rounds to the
/// negative of what the quotient of its magnitude rounds to under the mode
/// with `Floor` and `Ceiling` exchanged.
pub proof fn lemma_div_round_of_negative(x: int, a: int, rm: RoundingMode)
    requires
        x < 0,
        a > 0,
    ensures
        can_div_round(x, a, rm) ==> div_round_spec(x, a, rm) == -div_round_spec(
            -x,
            a,
            rm.negated(),
        ),
        x % a == 0 <==> (-x) % a == 0,
{
    lemma_fundamental_div_mod(x, a);
    let q = x / a;
    let r = x % a;
    if r == 0 {
        assert(-x == (-q) * a + 0) by (nonlinear_arith)
            requires
                x == a * q + r,
                r == 0,
        ;
        lemma_fundamental_div_mod_converse(-x, a, -q, 0);
    } else {
        assert(-x == (-q - 1) * a + (a - r)) by (nonlinear_arith)
            requires
                x == a * q + r,
        ;
        lemma_fundamental_div_mod_converse(-x, a, -q - 1, a - r);
    }
}

/// A negative number rounds to the negative of what its magnitude rounds to
/// under the mode with `Floor` and `Ceiling` exchanged, and can be rounded
/// exactly when its magnitude can.
pub proof fn lemma_round_to_multiple_of_negative(x: int, m: int, rm: RoundingMode)
    requires
        x < 0,
    ensures
        can_round_to_multiple(x, m, rm) ==> round_to_multiple_spec(x, m, rm)
            == -round_to_multiple_spec(-x, m, rm.negated()),
        can_round_to_multiple(x, m, rm) <==> can_round_to_multiple(-x, m, rm.negated()),
{
    let a = magnitude(m) as int;
    if a != 0 {
        lemma_div_round_of_negative(x, a, rm);
        let d = div_round_spec(-x, a, rm.negated());
        assert((-d) * a == -(d * a)) by (nonlinear_arith);
    }
}

/// The rounded quotient of a number that is not negative is not negative.
pub proof fn lemma_div_round_nonnegative(x: int, a: int, rm: RoundingMode)
    requires
        x >= 0,
        a > 0,
    ensures
        div_round_spec(x, a, rm) >= 0,
        x == 0 ==> div_round_spec(x, a, rm) == 0,
{
    lemma_fundamental_div_mod(x, a);
    if x == 0 {
        lemma_fundamental_div_mod_converse(x, a, 0, 0);
    }
    let q = x / a;
    assert(q >= 0) by (nonlinear_arith)
        requires
            x >= 0,
            a > 0,
            q == x / a,
    ;
}

/// What a number that is not negative rounds to is not negative.
pub proof fn lemma_round_to_multiple_nonnegative(x: int, m: int, rm: RoundingMode)
    requires
        x >= 0,
    ensures
        round_to_multiple_spec(x, m, rm) >= 0,
{
    let a = magnitude(m) as int;
    if a != 0 {
        lemma_fundamental_div_mod(x, a);
        let q = x / a;
        assert(q >= 0 && q * a >= 0 && (q + 1) * a >= 0) by (nonlinear_arith)
            requires
                x >= 0,
                a > 0,
                q == x / a,
        ;
    }
}

impl Integer {
    /// Whether the quotient by `other` can be rounded under the mode: `other`
    /// is not zero, and under `Exact` it divides `self`.
    pub fn can_div_round_by(&self, other: &Integer, rm: RoundingMode) -> (r: bool)
        requires
            self.wf(),
            other.wf(),
        ensures
            r == can_div_round(self@, other@, rm),
    {
        proof {
            if self@ < 0 && other@ != 0 {
                lemma_div_round_of_negative(self@, magnitude(other@) as int, rm);
            }
        }
        self.abs.can_div_round_by(&other.abs, rm)
    }

    /// Whether `self` can be rounded to a multiple of `other` under the
    /// mode. To a multiple of zero a nonzero integer is rounded only by a
    /// mode that moves it towards zero; under `Exact`, `self` must be a
    /// multiple already.
    pub fn can_round_to_multiple_of(&self, other: &Integer, rm: RoundingMode) -> (r: bool)
        requires
            self.wf(),
            other.wf(),
        ensures
            r == can_round_to_multiple(self@, other@, rm),
    {
        proof {
            if self@ < 0 {
                lemma_round_to_multiple_of_negative(self@, other@, rm);
            }
        }
        if self.sign {
            self.abs.can_round_to_multiple_of(&other.abs, rm)
        } else {
            self.abs.can_round_to_multiple_of(&other.abs, rm.neg())
        }
    }

    /// Divides by a nonzero integer and rounds the quotient as the mode
    /// says. Returns the rounded quotient and the sign of what the rounding
    /// added to the exact one.
    pub fn div_round_and_sign(&self, other: &Integer, rm: RoundingMode) -> (r: (Integer, i8))
        requires
            self.wf(),
            other.wf(),
            can_div_round(self@, other@, rm),
        ensures
            r.0.wf(),
            r.0@ == div_round_signed_spec(self@, other@, rm),
            r.1 == sign_of_int_difference(
                r.0@ * magnitude(other@),
                if other@ > 0 {
                    self@
                } else {
                    -self@
                },
            ),
    {
        let positive: bool = self.sign == other.sign;
        proof {
            let a = magnitude(other@) as int;
            let x = if other@ > 0 {
                self@
            } else {
                -self@
            };
            if self@ < 0 {
                lemma_div_round_of_negative(self@, a, rm);
            }
            if x < 0 {
                lemma_div_round_of_negative(x, a, rm);
            }
            let q = div_round_nat(self.abs@, other.abs@, rm.negated()) as int;
            assert((-q) * a == -(q * a)) by (nonlinear_arith);
            lemma_div_round_nonnegative(magnitude(self@) as int, a, rm);
            lemma_div_round_nonnegative(magnitude(self@) as int, a, rm.negated());
        }
        if positive {
            let (q, s) = self.abs.div_round_and_sign(&other.abs, rm);
            (Integer::from_sign_and_abs(true, q), s)
        } else {
            let (q, s) = self.abs.div_round_and_sign(&other.abs, rm.neg());
            (Integer::from_sign_and_abs(false, q), -s)
        }
    }

    /// Rounds to a multiple of `other` as the mode says. Returns the multiple
    /// and the sign of what the rounding added.
    pub fn round_to_multiple_and_sign(&self, other: &Integer, rm: RoundingMode) -> (r: (
        Integer,
        i8,
    ))
        requires
            self.wf(),
            other.wf(),
            can_round_to_multiple(self@, other@, rm),
        ensures
            r.0.wf(),
            r.0@ == round_to_multiple_spec(self@, other@, rm),
            r.1 == sign_of_int_difference(r.0@, self@),
    {
        proof {
            if self@ < 0 {
                lemma_round_to_multiple_of_negative(self@, other@, rm);
                lemma_round_to_multiple_nonnegative(-self@, other@, rm.negated());
            } else {
                lemma_round_to_multiple_nonnegative(self@, other@, rm);
            }
        }
        if self.sign {
            let (n, s) = self.abs.round_to_multiple_and_sign(&other.abs, rm);
            (Integer::from_sign_and_abs(true, n), s)
        } else {
            let (n, s) = self.abs.round_to_multiple_and_sign(&other.abs, rm.neg());
            (Integer::from_sign_and_abs(false, n), -s)
        }
    }
}

} // verus!
