//! Division that rounds as a mode says, and rounding to a multiple.
//!
//! Each operation returns, beside the rounded value, the sign of what the
//! rounding added: -1 where the value was rounded down, 0 where nothing was
//! rounded off, 1 where it was rounded up.

use crate::natural::order::sign_of_difference;
use crate::natural::Natural;
use crate::rounding_modes::{
    can_div_round_nat, can_round_to_multiple_nat, div_round_nat, round_to_multiple_nat,
    RoundingMode,
};
use vstd::prelude::*;

verus! {

/// Which of the two neighbours a quotient with a remainder goes to: `true`
/// for the one above.
pub open spec fn rounds_up(q: nat, r: nat, d: nat, rm: RoundingMode) -> bool {
    match rm {
        RoundingMode::Down | RoundingMode::Floor | RoundingMode::Exact => false,
        RoundingMode::Up | RoundingMode::Ceiling => true,
        RoundingMode::Nearest => 2 * r > d || (2 * r == d && q % 2 == 1),
    }
}

/// The quotient of natural numbers goes up by one where the mode says so.
proof fn lemma_div_round_nat(x: nat, d: nat, rm: RoundingMode)
    requires
        d > 0,
    ensures
        x % d == 0 ==> div_round_nat(x, d, rm) == x / d,
        x % d != 0 ==> div_round_nat(x, d, rm) == x / d + (if rounds_up(x / d, x % d, d, rm) {
            1nat
        } else {
            0nat
        }),
        x == (x / d) * d + x % d,
        x % d < d,
{
    assert(x == (x / d) * d + x % d && x % d < d && x / d >= 0) by (nonlinear_arith)
        requires
            d > 0,
            x >= 0,
    ;
}

/// The multiple that a natural number goes to is the one below or the one
/// above, as the mode says.
proof fn lemma_round_to_multiple_nat(x: nat, m: nat, rm: RoundingMode)
    requires
        m > 0,
    ensures
        x % m == 0 ==> round_to_multiple_nat(x, m, rm) == x,
        x % m != 0 ==> round_to_multiple_nat(x, m, rm) == x - x % m + (if rounds_up(
            x / m,
            x % m,
            m,
            rm,
        ) {
            m
        } else {
            0nat
        }),
{
    lemma_div_round_nat(x, m, rm);
    let q = x / m;
    assert((q + 1) * m == q * m + m) by (nonlinear_arith);
}

impl Natural {
    /// Whether the quotient by `other` can be rounded under the mode: `other`
    /// is not zero, and under `Exact` it divides `self`.
    pub fn can_div_round_by(&self, other: &Natural, rm: RoundingMode) -> (r: bool)
        requires
            self.wf(),
            other.wf(),
        ensures
            r == can_div_round_nat(self@, other@, rm),
    {
        if other.is_zero() {
            return false;
        }
        match rm {
            RoundingMode::Exact => self.rem(other).is_zero(),
            _ => true,
        }
    }

    /// Whether `self` can be rounded to a multiple of `other` under the
    /// mode. To a multiple of zero a nonzero number is rounded only by a mode
    /// that moves it towards zero; under `Exact`, `self` must be a multiple
    /// already.
    pub fn can_round_to_multiple_of(&self, other: &Natural, rm: RoundingMode) -> (r: bool)
        requires
            self.wf(),
            other.wf(),
        ensures
            r == can_round_to_multiple_nat(self@, other@, rm),
    {
        if other.is_zero() {
            return self.is_zero() || match rm {
                RoundingMode::Down | RoundingMode::Floor | RoundingMode::Nearest => true,
                _ => false,
            };
        }
        match rm {
            RoundingMode::Exact => self.rem(other).is_zero(),
            _ => true,
        }
    }

    /// Divides by a nonzero number and rounds the quotient as the mode says.
    /// Returns the rounded quotient and the sign of what the rounding added.
    pub fn div_round_and_sign(&self, other: &Natural, rm: RoundingMode) -> (r: (Natural, i8))
        requires
            self.wf(),
            other.wf(),
            can_div_round_nat(self@, other@, rm),
        ensures
            r.0.wf(),
            r.0@ == div_round_nat(self@, other@, rm),
            r.1 == sign_of_difference(r.0@ * other@, self@),
    {
        proof {
            lemma_div_round_nat(self@, other@, rm);
        }
        let (q, rem) = self.div_mod(other);
        if rem.is_zero() {
            return (q, 0);
        }
        let up: bool = match rm {
            RoundingMode::Down | RoundingMode::Floor | RoundingMode::Exact => false,
            RoundingMode::Up | RoundingMode::Ceiling => true,
            RoundingMode::Nearest => {
                let twice: Natural = rem.add(&rem);
                let s: i8 = twice.sign_of_difference(other);
                s > 0 || (s == 0 && !q.is_even())
            },
        };
        if up {
            let above: Natural = q.add_limb(1);
            proof {
                let d = other@;
                let qq = q@;
                assert((qq + 1) * d == qq * d + d) by (nonlinear_arith);
            }
            (above, 1)
        } else {
            (q, -1)
        }
    }

    /// Rounds to a multiple of `other` as the mode says. Returns the multiple
    /// and the sign of what the rounding added.
    pub fn round_to_multiple_and_sign(&self, other: &Natural, rm: RoundingMode) -> (r: (
        Natural,
        i8,
    ))
        requires
            self.wf(),
            other.wf(),
            can_round_to_multiple_nat(self@, other@, rm),
        ensures
            r.0.wf(),
            r.0@ == round_to_multiple_nat(self@, other@, rm),
            r.1 == sign_of_difference(r.0@, self@),
    {
        if other.is_zero() {
            if self.is_zero() {
                return (Natural::zero(), 0);
            }
            return (Natural::zero(), -1);
        }
        proof {
            lemma_round_to_multiple_nat(self@, other@, rm);
            lemma_div_round_nat(self@, other@, rm);
        }
        let (q, rem) = self.div_mod(other);
        if rem.is_zero() {
            return (self.clone(), 0);
        }
        let floor: Natural = self.sub(&rem);
        let up: bool = match rm {
            RoundingMode::Down | RoundingMode::Floor | RoundingMode::Exact => false,
            RoundingMode::Up | RoundingMode::Ceiling => true,
            RoundingMode::Nearest => {
                let twice: Natural = rem.add(&rem);
                let s: i8 = twice.sign_of_difference(other);
                s > 0 || (s == 0 && !q.is_even())
            },
        };
        if up {
            (floor.add(other), 1)
        } else {
            (floor, -1)
        }
    }
}

} // verus!
