//! Which of two fractions is the smaller.

use crate::integer::order::sign_of_int_difference;
use crate::rational::Rational;
use vstd::prelude::*;

verus! {

/// The sign of `n1 / d1 - n2 / d2`, for positive denominators: that of
/// `n1 * d2 - n2 * d1`.
pub open spec fn sign_of_ratio_difference(n1: int, d1: int, n2: int, d2: int) -> int {
    sign_of_int_difference(n1 * d2, n2 * d1)
}

impl Rational {
    /// The sign of `self - other`: -1, 0 or 1.
    pub fn sign_of_difference(&self, other: &Rational) -> (r: i8)
        requires
            self.wf(),
            other.wf(),
        ensures
            r == sign_of_ratio_difference(
                self.numer(),
                self.denom(),
                other.numer(),
                other.denom(),
            ),
    {
        let left = self.numerator.mul(&other.denominator);
        let right = other.numerator.mul(&self.denominator);
        proof {
            let a = self.numerator@ as int;
            let b = other.denominator@ as int;
            let c = other.numerator@ as int;
            let d = self.denominator@ as int;
            assert((-a) * b == -(a * b) && (-c) * d == -(c * d)) by (nonlinear_arith);
            assert(a * b >= 0 && c * d >= 0) by (nonlinear_arith)
                requires
                    a >= 0,
                    b >= 0,
                    c >= 0,
                    d >= 0,
            ;
            assert(a > 0 ==> a * b > 0) by (nonlinear_arith)
                requires
                    b >= 1,
            ;
            assert(c > 0 ==> c * d > 0) by (nonlinear_arith)
                requires
                    d >= 1,
            ;
        }
        if self.sign && !other.sign {
            1
        } else if !self.sign && other.sign {
            -1
        } else if self.sign {
            left.sign_of_difference(&right)
        } else {
            right.sign_of_difference(&left)
        }
    }

    /// Whether the two fractions are equal.
    pub fn equals(&self, other: &Rational) -> (r: bool)
        requires
            self.wf(),
            other.wf(),
        ensures
            r == (self.numer() * other.denom() == other.numer() * self.denom()),
    {
        self.sign_of_difference(other) == 0
    }
}

} // verus!
