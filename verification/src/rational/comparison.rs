//! The comparison of a fraction with an integer.

use crate::comparison::{
    compare_orderings, is_equal, ordering_of_ints, ordering_of_nats, ordering_of_sign,
    ordering_rank, reverse_ordering, reversed,
};
use crate::integer::Integer;
use crate::natural::Natural;
use crate::rational::Rational;
use std::cmp::Ordering;
use vstd::prelude::*;

verus! {

/// A fraction and a whole number that stand differently to one stand to
/// each other in the same way.
proof fn lemma_decided_by_one(n: nat, d: nat, m: nat)
    requires
        d >= 1,
        m >= 1,
    ensures
        ordering_rank(ordering_of_nats(n, d)) < ordering_rank(ordering_of_nats(m, 1)) ==> n < m
            * d,
        ordering_rank(ordering_of_nats(n, d)) > ordering_rank(ordering_of_nats(m, 1)) ==> n > m
            * d,
{
    assert(m * d >= d) by (nonlinear_arith)
        requires
            m >= 1,
            d >= 0,
    ;
    assert(m > 1 ==> m * d > d) by (nonlinear_arith)
        requires
            d >= 1,
    ;
}

/// Where the numerator stands to the whole number otherwise than the
/// denominator stands to one, the fraction stands to the number as the
/// numerator does, or as the denominator does reversed.
proof fn lemma_decided_by_parts(n: nat, d: nat, m: nat)
    requires
        d >= 1,
        m >= 1,
    ensures
        ordering_rank(ordering_of_nats(n, m)) < ordering_rank(ordering_of_nats(d, 1)) ==> n < m
            * d,
        ordering_rank(ordering_of_nats(n, m)) > ordering_rank(ordering_of_nats(d, 1)) ==> n > m
            * d,
        n == m && d == 1 ==> n == m * d,
{
    assert(m * d >= m) by (nonlinear_arith)
        requires
            d >= 1,
            m >= 0,
    ;
    assert(d > 1 ==> m * d > m) by (nonlinear_arith)
        requires
            m >= 1,
    ;
    assert(d == 1 ==> m * d == m) by (nonlinear_arith);
}

/// The comparison of two negative numbers is that of their magnitudes,
/// reversed.
proof fn lemma_compare_negatives(n: nat, p: nat)
    ensures
        ordering_of_ints(-n, -p) == reversed(ordering_of_nats(n, p)),
{
}

/// The product of a negative number with a positive one.
proof fn lemma_signed_product(m: nat, d: nat)
    ensures
        (-m) * d == -(m * d),
{
    assert((-m) * d == -(m * d)) by (nonlinear_arith);
}

impl Rational {
    /// How the fraction stands to zero.
    pub fn sign_ordering(&self) -> (r: Ordering)
        requires
            self.wf(),
        ensures
            r == ordering_of_ints(self.numer(), 0),
    {
        if !self.sign {
            Ordering::Less
        } else if self.numerator.is_zero() {
            Ordering::Equal
        } else {
            Ordering::Greater
        }
    }

    /// Compares two fractions.
    pub fn cmp(&self, other: &Rational) -> (r: Ordering)
        requires
            self.wf(),
            other.wf(),
        ensures
            r == ordering_of_ints(self.numer() * other.denom(), other.numer() * self.denom()),
    {
        ordering_of_sign(self.sign_of_difference(other))
    }

    /// Compares a fraction with an integer. The result is never `None`.
    ///
    /// Most pairs are told apart before anything is multiplied: by their
    /// signs; by how each stands to one; by how the numerator stands to the
    /// integer and the denominator to one; by their bit counts. Only what is
    /// left is multiplied out.
    pub fn partial_cmp(&self, other: &Integer) -> (r: Option<Ordering>)
        requires
            self.wf(),
            other.wf(),
        ensures
            r == Some(ordering_of_ints(self.numer(), other@ * self.denom())),
    {
        proof {
            lemma_compare_negatives(
                self.numerator@,
                other.abs@ * self.denominator@,
            );
            lemma_signed_product(other.abs@, self.denominator@);
            if other.abs@ >= 1 {
                lemma_decided_by_one(self.numerator@, self.denominator@, other.abs@);
                lemma_decided_by_parts(self.numerator@, self.denominator@, other.abs@);
            }
        }
        // First check signs
        let self_sign = self.sign_ordering();
        let other_sign = other.sign_ordering();
        let sign_cmp = compare_orderings(self_sign, other_sign);
        if !is_equal(sign_cmp) || is_equal(self_sign) {
            proof {
                lemma_sign_of_product(other@, self.denom());
            }
            return Some(sign_cmp);
        }
        // Then check if one is < 1 and the other is > 1
        let self_cmp_one = self.numerator.cmp(&self.denominator);
        let other_cmp_one = other.unsigned_abs_ref().cmp(&Natural::one());
        let one_cmp = compare_orderings(self_cmp_one, other_cmp_one);
        if !is_equal(one_cmp) {
            return Some(
                if self.sign {
                    one_cmp
                } else {
                    reverse_ordering(one_cmp)
                },
            );
        }
        // Then compare numerators and denominators
        let n_cmp = self.numerator.cmp(other.unsigned_abs_ref());
        let d_cmp = self.denominator.cmp(&Natural::one());
        if is_equal(n_cmp) && is_equal(d_cmp) {
            return Some(Ordering::Equal);
        } else {
            let nd_cmp = compare_orderings(n_cmp, d_cmp);
            if !is_equal(nd_cmp) {
                return Some(
                    if self.sign {
                        nd_cmp
                    } else {
                        reverse_ordering(nd_cmp)
                    },
                );
            }
        }
        let log_cmp = ordering_of_sign(self.sign_of_log_difference(other.unsigned_abs_ref()));
        if !is_equal(log_cmp) {
            return Some(
                if self.sign {
                    log_cmp
                } else {
                    reverse_ordering(log_cmp)
                },
            );
        }
        // Finally, cross-multiply.
        let prod_cmp = self.numerator.cmp(&self.denominator.mul(other.unsigned_abs_ref()));
        proof {
            lemma_commutes(self.denominator@, other.abs@);
        }
        Some(
            if self.sign {
                prod_cmp
            } else {
                reverse_ordering(prod_cmp)
            },
        )
    }
}

/// The sign of a product with a positive factor is that of the other factor.
proof fn lemma_sign_of_product(x: int, d: int)
    requires
        d >= 1,
    ensures
        x > 0 ==> x * d > 0,
        x < 0 ==> x * d < 0,
        x == 0 ==> x * d == 0,
{
    assert(x > 0 ==> x * d > 0) by (nonlinear_arith)
        requires
            d >= 1,
    ;
    assert(x < 0 ==> x * d < 0) by (nonlinear_arith)
        requires
            d >= 1,
    ;
    assert(x == 0 ==> x * d == 0) by (nonlinear_arith);
}

/// A product does not depend on the order of its factors.
proof fn lemma_commutes(a: nat, b: nat)
    ensures
        a * b == b * a,
{
    assert(a * b == b * a) by (nonlinear_arith);
}

impl Integer {
    /// Compares an integer with a fraction. The result is never `None`.
    pub fn partial_cmp_rational(&self, other: &Rational) -> (r: Option<Ordering>)
        requires
            self.wf(),
            other.wf(),
        ensures
            r == Some(ordering_of_ints(self@ * other.denom(), other.numer())),
    {
        match other.partial_cmp(self) {
            Some(o) => Some(reverse_ordering(o)),
            None => None,
        }
    }
}

/// Comparing a fraction with an integer gives what comparing it with the
/// fraction that equals the integer gives.
pub proof fn lemma_partial_cmp_is_cmp_after_conversion(numer: int, denom: int, x: int)
    ensures
        ordering_of_ints(numer, x * denom) == ordering_of_ints(numer * 1, x * denom),
{
}

/// Comparing a fraction with an integer and the integer with the fraction
/// give results that are each the reverse of the other.
pub proof fn lemma_partial_cmp_antisymmetric(numer: int, denom: int, x: int, ordering: Ordering)
    ensures
        ordering_of_ints(numer, x * denom) == ordering <==> ordering_of_ints(x * denom, numer)
            == reversed(ordering),
{
}

} // verus!
