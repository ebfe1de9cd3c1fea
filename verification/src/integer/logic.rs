//! Bit logic on integers, read as two's complement numbers of unbounded
//! length and worked on the magnitudes.

use crate::integer::Integer;
use crate::natural::Natural;
use vstd::arithmetic::div_mod::{lemma_fundamental_div_mod, lemma_fundamental_div_mod_converse};
use vstd::arithmetic::power2::{lemma_pow2_pos, pow2};
use vstd::prelude::*;

verus! {

/// The complement of an integer in two's complement: `-x - 1`.
pub open spec fn not_spec(x: int) -> int {
    -x - 1
}

/// The complement of the complement is the integer.
pub proof fn lemma_not_involution(x: int)
    ensures
        not_spec(not_spec(x)) == x,
{
}

/// Congruence modulo a power of two is reflexive, symmetric and transitive.
pub proof fn lemma_eq_mod_power_of_two_is_equivalence(x: int, y: int, z: int, k: nat)
    ensures
        eq_mod_power_of_two_spec(x, x, k),
        eq_mod_power_of_two_spec(x, y, k) <==> eq_mod_power_of_two_spec(y, x, k),
        eq_mod_power_of_two_spec(x, y, k) && eq_mod_power_of_two_spec(y, z, k)
            ==> eq_mod_power_of_two_spec(x, z, k),
{
}

/// `x` and `y` leave one remainder modulo `2^k`: their low `k` bits agree in
/// two's complement.
pub open spec fn eq_mod_power_of_two_spec(x: int, y: int, k: nat) -> bool {
    x % (pow2(k) as int) == y % (pow2(k) as int)
}

/// The remainder of a negative number is what its magnitude lacks to the
/// next multiple.
proof fn lemma_mod_of_negative(a: nat, p: nat)
    requires
        p > 0,
    ensures
        a % p == 0 ==> (-(a as int)) % (p as int) == 0,
        a % p != 0 ==> (-(a as int)) % (p as int) == p - a % p,
{
    lemma_fundamental_div_mod(a as int, p as int);
    let q = (a as int) / (p as int);
    let m = (a as int) % (p as int);
    if m == 0 {
        assert(-(a as int) == (-q) * p + 0) by (nonlinear_arith)
            requires
                a == p * q + m,
                m == 0,
        ;
        lemma_fundamental_div_mod_converse(-(a as int), p as int, -q, 0);
    } else {
        assert(-(a as int) == (-q - 1) * p + (p - m)) by (nonlinear_arith)
            requires
                a == p * q + m,
        ;
        lemma_fundamental_div_mod_converse(-(a as int), p as int, -q - 1, p - m);
    }
}

impl Natural {
    /// The complement of the number, read as an integer in two's
    /// complement: `-x - 1`.
    pub fn not(&self) -> (r: Integer)
        requires
            self.wf(),
        ensures
            r.wf(),
            r@ == not_spec(self@ as int),
    {
        Integer::from_sign_and_abs(false, self.add_limb(1))
    }
}

impl Integer {
    /// The complement of the integer in two's complement: `-x - 1`. A
    /// number that is not negative gives a negative one with the magnitude
    /// one larger; a negative number gives the magnitude less one.
    pub fn not(&self) -> (r: Integer)
        requires
            self.wf(),
        ensures
            r.wf(),
            r@ == not_spec(self@),
    {
        if self.sign {
            Integer::from_sign_and_abs(false, self.abs.add_limb(1))
        } else {
            Integer::from_sign_and_abs(true, self.abs.sub(&Natural::one()))
        }
    }

    /// The remainder of the integer modulo `2^k`, which is not negative: the
    /// low `k` bits of the integer in two's complement.
    pub fn mod_power_of_two(&self, k: u64) -> (r: Natural)
        requires
            self.wf(),
        ensures
            r.wf(),
            r@ == self@ % (pow2(k as nat) as int),
    {
        proof {
            lemma_pow2_pos(k as nat);
            lemma_mod_of_negative(self.abs@, pow2(k as nat));
        }
        let low: Natural = self.abs.mod_power_of_two(k);
        if self.sign || low.is_zero() {
            low
        } else {
            Natural::power_of_2(k).sub(&low)
        }
    }

    /// Whether the two integers are congruent modulo `2^k`.
    pub fn eq_mod_power_of_two(&self, other: &Integer, k: u64) -> (r: bool)
        requires
            self.wf(),
            other.wf(),
        ensures
            r == eq_mod_power_of_two_spec(self@, other@, k as nat),
    {
        self.mod_power_of_two(k).equals(&other.mod_power_of_two(k))
    }
}

} // verus!
