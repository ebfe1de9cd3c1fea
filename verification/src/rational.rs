//! Fractions of integers of any size, always in lowest terms.

use crate::integer::Integer;
use crate::natural::divisible::{
    is_common_divisor, is_coprime, is_gcd, lemma_reduced_is_coprime,
};
use crate::natural::Natural;
use vstd::prelude::*;

pub mod ceiling;
pub mod comparison;
pub mod log_base_2;
pub mod order;
pub mod string;

verus! {

/// A fraction.
#[derive(Debug)]
pub struct Rational {
    /// `true` for zero and the positive fractions.
    pub sign: bool,
    /// The numerator of the absolute value.
    pub numerator: Natural,
    /// The denominator, which is at least one.
    pub denominator: Natural,
}

/// No number but one divides one.
pub proof fn lemma_coprime_to_one(a: nat)
    ensures
        is_coprime(a, 1),
{
    assert forall|c: nat| #[trigger] is_common_divisor(c, a, 1) implies c == 1 by {
        let k = choose|k: int| 1 == #[trigger] (k * (c as int));
        assert(c == 1) by (nonlinear_arith)
            requires
                1 == k * (c as int),
                c >= 0,
        ;
    }
}

/// Two numbers have no common divisor but one exactly when their greatest
/// common divisor is one.
pub proof fn lemma_coprime_is_gcd_one(a: nat, b: nat, g: nat)
    requires
        is_gcd(g, a, b),
    ensures
        is_coprime(a, b) <==> g == 1,
{
    if g == 1 {
        assert forall|c: nat| #[trigger] is_common_divisor(c, a, b) implies c == 1 by {
            let k = choose|k: int| 1 == #[trigger] (k * (c as int));
            assert(c == 1) by (nonlinear_arith)
                requires
                    1 == k * (c as int),
                    c >= 0,
            ;
        }
    }
}

impl Rational {
    /// The numerator with the sign of the fraction.
    pub open spec fn numer(&self) -> int {
        if self.sign {
            self.numerator@ as int
        } else {
            -(self.numerator@ as int)
        }
    }

    /// The denominator.
    pub open spec fn denom(&self) -> int {
        self.denominator@ as int
    }

    /// The fraction is in lowest terms with a positive denominator, and zero
    /// is not negative.
    pub open spec fn wf(&self) -> bool {
        &&& self.numerator.wf()
        &&& self.denominator.wf()
        &&& self.denominator@ >= 1
        &&& is_coprime(self.numerator@, self.denominator@)
        &&& (self.numerator@ == 0 ==> self.sign)
    }

    /// Whether the representation is the one that the value must have.
    pub fn is_valid(&self) -> (r: bool)
        ensures
            r == self.wf(),
    {
        if !self.numerator.is_valid() || !self.denominator.is_valid() {
            return false;
        }
        if self.denominator.is_zero() {
            return false;
        }
        if !self.sign && self.numerator.is_zero() {
            return false;
        }
        let g: Natural = self.numerator.gcd(&self.denominator);
        proof {
            lemma_coprime_is_gcd_one(self.numerator@, self.denominator@, g@);
        }
        g.equals(&Natural::one())
    }

    /// Zero.
    pub fn zero() -> (r: Rational)
        ensures
            r.wf(),
            r.numer() == 0,
            r.denom() == 1,
    {
        proof {
            lemma_coprime_to_one(0);
        }
        Rational { sign: true, numerator: Natural::zero(), denominator: Natural::one() }
    }

    /// One.
    pub fn one() -> (r: Rational)
        ensures
            r.wf(),
            r.numer() == 1,
            r.denom() == 1,
    {
        proof {
            lemma_coprime_to_one(1);
        }
        Rational { sign: true, numerator: Natural::one(), denominator: Natural::one() }
    }

    /// The fraction of two natural numbers with the given sign, in lowest
    /// terms.
    pub fn from_sign_and_naturals(sign: bool, numerator: &Natural, denominator: &Natural) -> (r:
        Rational)
        requires
            numerator.wf(),
            denominator.wf(),
            denominator@ != 0,
        ensures
            r.wf(),
            r.numerator@ * denominator@ == numerator@ * r.denominator@,
            r.sign == (sign || numerator@ == 0),
    {
        let g: Natural = numerator.gcd(denominator);
        proof {
            lemma_reduced_is_coprime(numerator@, denominator@, g@);
        }
        let n: Natural = numerator.div(&g);
        let d: Natural = denominator.div(&g);
        proof {
            let gg = g@;
            let nn = n@;
            let dd = d@;
            assert(nn * (dd * gg) == (nn * gg) * dd) by (nonlinear_arith);
            assert(dd >= 1) by (nonlinear_arith)
                requires
                    dd * gg != 0,
                    dd >= 0,
            ;
            assert(nn == 0 <==> nn * gg == 0) by (nonlinear_arith)
                requires
                    gg > 0,
                    nn >= 0,
            ;
        }
        let sign: bool = sign || n.is_zero();
        Rational { sign, numerator: n, denominator: d }
    }

    /// The fraction of two natural numbers, in lowest terms.
    pub fn from_naturals(numerator: &Natural, denominator: &Natural) -> (r: Rational)
        requires
            numerator.wf(),
            denominator.wf(),
            denominator@ != 0,
        ensures
            r.wf(),
            r.numer() * denominator@ == numerator@ * r.denom(),
    {
        Rational::from_sign_and_naturals(true, numerator, denominator)
    }

    /// The fraction of two integers, in lowest terms.
    pub fn from_integers(numerator: &Integer, denominator: &Integer) -> (r: Rational)
        requires
            numerator.wf(),
            denominator.wf(),
            denominator@ != 0,
        ensures
            r.wf(),
            r.numer() * denominator@ == numerator@ * r.denom(),
    {
        let r = Rational::from_sign_and_naturals(
            numerator.sign == denominator.sign,
            &numerator.abs,
            &denominator.abs,
        );
        proof {
            let a = r.numerator@ as int;
            let b = denominator.abs@ as int;
            let c = numerator.abs@ as int;
            let d = r.denominator@ as int;
            assert((-a) * b == -(a * b) && a * (-b) == -(a * b) && (-a) * (-b) == a * b && (-c)
                * d == -(c * d)) by (nonlinear_arith);
            assert(c * d == 0 ==> c == 0) by (nonlinear_arith)
                requires
                    d >= 1,
                    c >= 0,
            ;
        }
        r
    }

    /// The fraction of two machine integers, in lowest terms.
    pub fn from_signeds(numerator: i64, denominator: i64) -> (r: Rational)
        requires
            denominator != 0,
        ensures
            r.wf(),
            r.numer() * denominator == numerator * r.denom(),
    {
        Rational::from_integers(&Integer::from_i64(numerator), &Integer::from_i64(denominator))
    }

    /// The fraction that equals an integer.
    pub fn from_integer(x: Integer) -> (r: Rational)
        requires
            x.wf(),
        ensures
            r.wf(),
            r.numer() == x@,
            r.denom() == 1,
    {
        proof {
            lemma_coprime_to_one(x.abs@);
        }
        Rational { sign: x.sign, numerator: x.abs, denominator: Natural::one() }
    }

    /// Whether the fraction is zero.
    pub fn is_zero(&self) -> (r: bool)
        requires
            self.wf(),
        ensures
            r == (self.numer() == 0),
    {
        self.numerator.is_zero()
    }
}

impl Clone for Rational {
    fn clone(&self) -> (r: Rational)
        ensures
            r.sign == self.sign,
            r.numerator@ == self.numerator@,
            r.denominator@ == self.denominator@,
            r.wf() == self.wf(),
    {
        Rational {
            sign: self.sign,
            numerator: self.numerator.clone(),
            denominator: self.denominator.clone(),
        }
    }
}

} // verus!
