//! Divisibility and the greatest common divisor.

use crate::natural::Natural;
use crate::rounding_modes::is_multiple;
use vstd::arithmetic::div_mod::{lemma_fundamental_div_mod, lemma_mod_multiples_basic};
use vstd::prelude::*;

verus! {

/// `c` divides both `a` and `b`.
pub open spec fn is_common_divisor(c: nat, a: nat, b: nat) -> bool {
    is_multiple(a as int, c as int) && is_multiple(b as int, c as int)
}

/// `g` divides both numbers, and every number that divides both divides `g`.
pub open spec fn is_gcd(g: nat, a: nat, b: nat) -> bool {
    &&& is_common_divisor(g, a, b)
    &&& forall|c: nat| #[trigger] is_common_divisor(c, a, b) ==> is_multiple(g as int, c as int)
}

/// No number but one divides both `a` and `b`.
pub open spec fn is_coprime(a: nat, b: nat) -> bool {
    forall|c: nat| #[trigger] is_common_divisor(c, a, b) ==> c == 1
}

/// A number is a multiple of a positive number exactly when the division
/// leaves nothing; of zero, only zero is a multiple.
pub proof fn lemma_is_multiple(x: int, y: int)
    requires
        y >= 0,
    ensures
        y != 0 ==> (is_multiple(x, y) <==> x % y == 0),
        y == 0 ==> (is_multiple(x, y) <==> x == 0),
{
    if y != 0 {
        if x % y == 0 {
            lemma_fundamental_div_mod(x, y);
            assert(x == (x / y) * y) by (nonlinear_arith)
                requires
                    x == y * (x / y) + x % y,
                    x % y == 0,
            ;
        }
        if is_multiple(x, y) {
            let k = choose|k: int| x == #[trigger] (k * y);
            lemma_mod_multiples_basic(k, y);
        }
    } else {
        if x == 0 {
            assert(x == 0 * y);
        }
        if is_multiple(x, y) {
            let k = choose|k: int| x == #[trigger] (k * y);
            assert(k * 0 == 0);
        }
    }
}

/// Zero is divisible by zero, and nothing else is.
pub proof fn lemma_divisible_by_zero(x: int)
    ensures
        is_multiple(0, 0),
        x != 0 ==> !is_multiple(x, 0),
{
    lemma_is_multiple(0, 0);
    lemma_is_multiple(x, 0);
}

/// The sum and the difference of multiples are multiples.
proof fn lemma_multiple_combination(a: int, b: int, q: int, c: int)
    requires
        is_multiple(a, c),
        is_multiple(b, c),
    ensures
        is_multiple(a - q * b, c),
        is_multiple(a + q * b, c),
{
    let ka = choose|k: int| a == #[trigger] (k * c);
    let kb = choose|k: int| b == #[trigger] (k * c);
    assert(a - q * b == (ka - q * kb) * c) by (nonlinear_arith)
        requires
            a == ka * c,
            b == kb * c,
    ;
    assert(a + q * b == (ka + q * kb) * c) by (nonlinear_arith)
        requires
            a == ka * c,
            b == kb * c,
    ;
}

/// The common divisors of `a` and `b` are those of `b` and the remainder of
/// `a` by `b`.
proof fn lemma_common_divisors_step(a: nat, b: nat)
    requires
        b > 0,
    ensures
        forall|c: nat|
            #![trigger is_common_divisor(c, a, b)]
            #![trigger is_common_divisor(c, b, a % b)]
            is_common_divisor(c, a, b) <==> is_common_divisor(c, b, a % b),
{
    lemma_fundamental_div_mod(a as int, b as int);
    let q = (a as int) / (b as int);
    let r = (a as int) % (b as int);
    assert(a == q * b + r) by (nonlinear_arith)
        requires
            a == b * q + r,
    ;
    assert forall|c: nat|
        #![trigger is_common_divisor(c, a, b)]
        #![trigger is_common_divisor(c, b, a % b)]
        is_common_divisor(c, a, b) <==> is_common_divisor(c, b, a % b) by {
        if is_common_divisor(c, a, b) {
            lemma_multiple_combination(a as int, b as int, q, c as int);
        }
        if is_common_divisor(c, b, a % b) {
            lemma_multiple_combination(r, b as int, q, c as int);
        }
    }
}

/// Every number divides itself and zero.
proof fn lemma_divides_itself(a: nat)
    ensures
        is_multiple(a as int, a as int),
        is_multiple(0, a as int),
{
    assert(a as int == 1 * (a as int));
    assert(0 == 0 * (a as int));
}

/// Dividing two numbers by their greatest common divisor leaves numbers
/// that no number but one divides.
pub proof fn lemma_reduced_is_coprime(a: nat, b: nat, g: nat)
    requires
        is_gcd(g, a, b),
        g > 0,
    ensures
        is_coprime(a / g, b / g),
        a == (a / g) * g,
        b == (b / g) * g,
{
    lemma_is_multiple(a as int, g as int);
    lemma_is_multiple(b as int, g as int);
    lemma_fundamental_div_mod(a as int, g as int);
    lemma_fundamental_div_mod(b as int, g as int);
    let ra = a / g;
    let rb = b / g;
    assert(a == ra * g) by (nonlinear_arith)
        requires
            a == g * ra + a % g,
            a % g == 0,
    ;
    assert(b == rb * g) by (nonlinear_arith)
        requires
            b == g * rb + b % g,
            b % g == 0,
    ;
    assert forall|c: nat| #[trigger] is_common_divisor(c, ra, rb) implies c == 1 by {
        let ka = choose|k: int| ra as int == #[trigger] (k * (c as int));
        let kb = choose|k: int| rb as int == #[trigger] (k * (c as int));
        let cg = c * g;
        assert(a as int == ka * (cg as int)) by (nonlinear_arith)
            requires
                a == ra * g,
                ra as int == ka * (c as int),
                cg == c * g,
        ;
        assert(b as int == kb * (cg as int)) by (nonlinear_arith)
            requires
                b == rb * g,
                rb as int == kb * (c as int),
                cg == c * g,
        ;
        assert(is_common_divisor(cg, a, b));
        let k = choose|k: int| g as int == #[trigger] (k * (cg as int));
        assert(c == 1) by (nonlinear_arith)
            requires
                g as int == k * (cg as int),
                cg == c * g,
                g > 0,
                c >= 0,
        ;
    }
}

impl Natural {
    /// Whether `self` is a multiple of `other`. Zero is divisible by every
    /// number, zero included; no other number is divisible by zero.
    pub fn divisible_by(&self, other: &Natural) -> (r: bool)
        requires
            self.wf(),
            other.wf(),
        ensures
            r == is_multiple(self@ as int, other@ as int),
    {
        proof {
            lemma_is_multiple(self@ as int, other@ as int);
        }
        if other.is_zero() {
            self.is_zero()
        } else {
            self.rem(other).is_zero()
        }
    }

    /// The greatest common divisor of two numbers: the common divisor that
    /// every common divisor divides. That of zero and zero is zero.
    pub fn gcd(&self, other: &Natural) -> (r: Natural)
        requires
            self.wf(),
            other.wf(),
        ensures
            r.wf(),
            is_gcd(r@, self@, other@),
            r@ == 0 <==> self@ == 0 && other@ == 0,
    {
        let mut a: Natural = self.clone();
        let mut b: Natural = other.clone();
        while !b.is_zero()
            invariant
                a.wf(),
                b.wf(),
                forall|c: nat|
                    #![trigger is_common_divisor(c, a@, b@)]
                    #![trigger is_common_divisor(c, self@, other@)]
                    is_common_divisor(c, a@, b@) <==> is_common_divisor(c, self@, other@),
                a@ == 0 && b@ == 0 <==> self@ == 0 && other@ == 0,
            decreases b@,
        {
            proof {
                lemma_common_divisors_step(a@, b@);
                lemma_fundamental_div_mod(a@ as int, b@ as int);
            }
            let r: Natural = a.rem(&b);
            a = b;
            b = r;
        }
        proof {
            lemma_divides_itself(a@);
            assert forall|c: nat| #[trigger] is_common_divisor(c, self@, other@) implies is_multiple(
                a@ as int,
                c as int,
            ) by {}
        }
        a
    }
}

} // verus!
