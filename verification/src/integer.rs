//! Integers of any size: a sign and a magnitude.

use crate::natural::Natural;
use crate::rounding_modes::magnitude;
use vstd::prelude::*;

pub mod arithmetic;
pub mod comparison;
pub mod divisible_by;
pub mod logic;
pub mod order;
pub mod round_to_multiple;
pub mod rounding;
pub mod string;

verus! {

/// An integer.
#[derive(Debug)]
pub struct Integer {
    /// `true` for zero and the positive numbers.
    pub sign: bool,
    /// The absolute value.
    pub abs: Natural,
}

impl View for Integer {
    type V = int;

    open spec fn view(&self) -> int {
        if self.sign {
            self.abs@ as int
        } else {
            -(self.abs@ as int)
        }
    }
}

/// The absolute value of a machine integer, which for the most negative one
/// does not fit in the signed type.
pub fn unsigned_abs_i64(x: i64) -> (r: u64)
    ensures
        r == magnitude(x as int),
{
    if x >= 0 {
        x as u64
    } else {
        (-(x + 1)) as u64 + 1
    }
}

/// The absolute value of a machine integer, which for the most negative one
/// does not fit in the signed type.
pub fn unsigned_abs_i32(x: i32) -> (r: u32)
    ensures
        r == magnitude(x as int),
{
    if x >= 0 {
        x as u32
    } else {
        (-(x + 1)) as u32 + 1
    }
}

impl Integer {
    /// The magnitude is well formed, and zero is not negative.
    pub open spec fn wf(&self) -> bool {
        self.abs.wf() && (self.abs@ == 0 ==> self.sign)
    }

    /// Whether the representation is the one that the value must have.
    pub fn is_valid(&self) -> (r: bool)
        ensures
            r == self.wf(),
    {
        if !self.abs.is_valid() {
            return false;
        }
        self.sign || !self.abs.is_zero()
    }

    /// Zero.
    pub fn zero() -> (r: Integer)
        ensures
            r.wf(),
            r@ == 0,
    {
        Integer { sign: true, abs: Natural::zero() }
    }

    /// One.
    pub fn one() -> (r: Integer)
        ensures
            r.wf(),
            r@ == 1,
    {
        Integer { sign: true, abs: Natural::one() }
    }

    /// The integer with the given magnitude, negative where `sign` is
    /// `false` and the magnitude is not zero.
    pub fn from_sign_and_abs(sign: bool, abs: Natural) -> (r: Integer)
        requires
            abs.wf(),
        ensures
            r.wf(),
            r@ == (if sign {
                abs@ as int
            } else {
                -(abs@ as int)
            }),
            r.abs@ == abs@,
    {
        let sign: bool = sign || abs.is_zero();
        Integer { sign, abs }
    }

    /// The integer that equals a natural number.
    pub fn from_natural(abs: Natural) -> (r: Integer)
        requires
            abs.wf(),
        ensures
            r.wf(),
            r@ == abs@,
    {
        Integer { sign: true, abs }
    }

    /// The integer that a signed double word holds.
    pub fn from_i64(x: i64) -> (r: Integer)
        ensures
            r.wf(),
            r@ == x,
    {
        Integer::from_sign_and_abs(x >= 0, Natural::from_u64(unsigned_abs_i64(x)))
    }

    /// The integer that an unsigned double word holds.
    pub fn from_u64(x: u64) -> (r: Integer)
        ensures
            r.wf(),
            r@ == x,
    {
        Integer::from_natural(Natural::from_u64(x))
    }

    /// The integer that a signed word holds.
    pub fn from_i32(x: i32) -> (r: Integer)
        ensures
            r.wf(),
            r@ == x,
    {
        Integer::from_sign_and_abs(x >= 0, Natural::from_u32(unsigned_abs_i32(x)))
    }

    /// The integer that an unsigned word holds.
    pub fn from_u32(x: u32) -> (r: Integer)
        ensures
            r.wf(),
            r@ == x,
    {
        Integer::from_natural(Natural::from_u32(x))
    }

    /// Replaces the integer by the one that an unsigned word holds.
    pub fn assign_u32(&mut self, x: u32)
        ensures
            final(self).wf(),
            final(self)@ == x,
    {
        self.sign = true;
        self.abs = Natural::from_u32(x);
    }

    /// The absolute value, by reference.
    pub fn unsigned_abs_ref(&self) -> (r: &Natural)
        ensures
            *r == self.abs,
            r@ == magnitude(self@),
    {
        &self.abs
    }

    /// The absolute value.
    pub fn unsigned_abs(self) -> (r: Natural)
        ensures
            r == self.abs,
            r@ == magnitude(self@),
    {
        self.abs
    }

    /// Whether the integer is zero.
    pub fn is_zero(&self) -> (r: bool)
        requires
            self.wf(),
        ensures
            r == (self@ == 0),
    {
        self.abs.is_zero()
    }

    /// Whether the integer is below zero.
    pub fn is_negative(&self) -> (r: bool)
        requires
            self.wf(),
        ensures
            r == (self@ < 0),
    {
        !self.sign
    }
}

impl Clone for Integer {
    fn clone(&self) -> (r: Integer)
        ensures
            r@ == self@,
            r.wf() == self.wf(),
            r.sign == self.sign,
            r.abs@ == self.abs@,
    {
        Integer { sign: self.sign, abs: self.abs.clone() }
    }
}

} // verus!
