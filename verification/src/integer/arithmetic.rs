//! Negation, sum, difference and product of integers, each worked on the
//! magnitudes with the sign settled afterwards.

use crate::integer::Integer;
use crate::natural::Natural;
use crate::rounding_modes::magnitude;
use vstd::prelude::*;

verus! {

impl Integer {
    /// The integer with the sign changed.
    pub fn neg(&self) -> (r: Integer)
        requires
            self.wf(),
        ensures
            r.wf(),
            r@ == -self@,
    {
        Integer::from_sign_and_abs(!self.sign, self.abs.clone())
    }

    /// The absolute value, as an integer.
    pub fn abs(&self) -> (r: Integer)
        requires
            self.wf(),
        ensures
            r.wf(),
            r@ == magnitude(self@),
    {
        Integer::from_natural(self.abs.clone())
    }

    /// The sum of two integers.
    pub fn add(&self, other: &Integer) -> (r: Integer)
        requires
            self.wf(),
            other.wf(),
        ensures
            r.wf(),
            r@ == self@ + other@,
    {
        if self.sign == other.sign {
            Integer::from_sign_and_abs(self.sign, self.abs.add(&other.abs))
        } else {
            match self.abs.checked_sub(&other.abs) {
                Some(d) => Integer::from_sign_and_abs(self.sign, d),
                None => Integer::from_sign_and_abs(other.sign, other.abs.sub(&self.abs)),
            }
        }
    }

    /// The difference of two integers.
    pub fn sub(&self, other: &Integer) -> (r: Integer)
        requires
            self.wf(),
            other.wf(),
        ensures
            r.wf(),
            r@ == self@ - other@,
    {
        self.add(&other.neg())
    }

    /// The product of two integers.
    pub fn mul(&self, other: &Integer) -> (r: Integer)
        requires
            self.wf(),
            other.wf(),
        ensures
            r.wf(),
            r@ == self@ * other@,
    {
        let product: Natural = self.abs.mul(&other.abs);
        proof {
            let a = self.abs@ as int;
            let b = other.abs@ as int;
            assert((-a) * b == -(a * b) && a * (-b) == -(a * b) && (-a) * (-b) == a * b)
                by (nonlinear_arith);
        }
        Integer::from_sign_and_abs(self.sign == other.sign, product)
    }
}

} // verus!
