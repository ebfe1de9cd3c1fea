//! Which of two integers is the smaller, and how the absolute value of an
//! integer stands to a machine word.

use crate::integer::{unsigned_abs_i32, unsigned_abs_i64, Integer};
use crate::natural::Natural;
use crate::rounding_modes::magnitude;
use vstd::arithmetic::power2::pow2;
use vstd::prelude::*;

verus! {

/// The sign of `a - b`: -1, 0 or 1.
pub open spec fn sign_of_int_difference(a: int, b: int) -> int {
    if a < b {
        -1
    } else if a == b {
        0
    } else {
        1
    }
}

/// The natural number that a word holds.
pub open spec fn nat_of_u32(x: u32) -> nat {
    x as nat
}

/// The absolute value of the integer that a signed word holds.
pub open spec fn magnitude_of_i32(x: i32) -> nat {
    magnitude(x as int)
}

/// The sign of `|x| - mantissa * 2^exponent`, for an exponent of either
/// sign: -1, 0 or 1.
pub open spec fn sign_of_scaled_abs_difference(x: int, mantissa: u64, exponent: i64) -> int {
    if exponent >= 0 {
        sign_of_int_difference(magnitude(x) as int, mantissa * pow2(exponent as nat))
    } else {
        sign_of_int_difference((magnitude(x) * pow2((-exponent) as nat)) as int, mantissa as int)
    }
}

impl Integer {
    /// The sign of the integer: -1, 0 or 1.
    pub fn signum(&self) -> (r: i8)
        requires
            self.wf(),
        ensures
            r == sign_of_int_difference(self@, 0),
    {
        if !self.sign {
            -1
        } else if self.abs.is_zero() {
            0
        } else {
            1
        }
    }

    /// The sign of `self - other`: -1, 0 or 1.
    pub fn sign_of_difference(&self, other: &Integer) -> (r: i8)
        requires
            self.wf(),
            other.wf(),
        ensures
            r == sign_of_int_difference(self@, other@),
    {
        if self.sign && !other.sign {
            1
        } else if !self.sign && other.sign {
            -1
        } else if self.sign {
            self.abs.sign_of_difference(&other.abs)
        } else {
            other.abs.sign_of_difference(&self.abs)
        }
    }

    /// Whether the two integers are equal.
    pub fn equals(&self, other: &Integer) -> (r: bool)
        requires
            self.wf(),
            other.wf(),
        ensures
            r == (self@ == other@),
    {
        self.sign_of_difference(other) == 0
    }

    /// The sign of `|self| - other`: -1, 0 or 1. A magnitude of more than one
    /// word is the larger without a look at its limbs.
    pub fn sign_of_abs_difference_u32(&self, other: u32) -> (r: i8)
        requires
            self.wf(),
        ensures
            r == sign_of_int_difference(magnitude(self@) as int, other as int),
    {
        proof {
            self.abs.lemma_limbs();
        }
        match &self.abs {
            Natural::Small(x) => {
                if *x < other {
                    -1
                } else if *x == other {
                    0
                } else {
                    1
                }
            },
            Natural::Large(_) => 1,
        }
    }

    /// The sign of `|self| - mantissa * 2^exponent`: -1, 0 or 1. This is how
    /// the absolute value of the integer stands to that of a binary
    /// floating-point number with the given mantissa and exponent.
    pub fn sign_of_abs_difference_scaled(&self, mantissa: u64, exponent: i64) -> (r: i8)
        requires
            self.wf(),
        ensures
            r == sign_of_scaled_abs_difference(self@, mantissa, exponent),
    {
        if exponent >= 0 {
            let scaled: Natural = Natural::from_u64(mantissa).shl(exponent as u64);
            self.abs.sign_of_difference(&scaled)
        } else {
            let scaled: Natural = self.abs.shl(unsigned_abs_i64(exponent));
            scaled.sign_of_difference(&Natural::from_u64(mantissa))
        }
    }

    /// The sign of `|self| - |other|`: -1, 0 or 1. The absolute value of the
    /// most negative word does not fit in a signed word; it is taken
    /// unsigned.
    pub fn sign_of_abs_difference_i32(&self, other: i32) -> (r: i8)
        requires
            self.wf(),
        ensures
            r == sign_of_int_difference(magnitude(self@) as int, magnitude(other as int) as int),
    {
        self.sign_of_abs_difference_u32(unsigned_abs_i32(other))
    }
}

} // verus!
