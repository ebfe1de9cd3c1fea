//! Natural numbers written in a base from 2 to 36, and read back.

use crate::natural::div::limbs_div_limb;
use crate::natural::limbs::{
    lemma_limb_weight, lemma_limbs_value_lower_bound, lemma_limbs_value_zeros, limbs_trim,
    limbs_trimmed, limbs_value, Limb,
};
use crate::natural::mul::limbs_mul_limb_add;
use crate::natural::Natural;
use crate::strings::{
    digit_char, digit_from_display_byte, digit_string_value, digit_to_display_byte_lower,
    digits_of, from_string_base_spec, is_digit_of_base, is_digit_string,
    lemma_digit_strings_are_ascii, lemma_reverse_push, string_of_reversed, to_string_base_spec,
};
use vstd::prelude::*;
use vstd::string::is_ascii_spec_bytes;

verus! {

impl Natural {
    /// Writes the number in a base from 2 to 36, with the digits `0` to `9`
    /// and `a` to `z`: the number is divided by the base again and again, and
    /// the remainders are its digits from the least significant up.
    pub fn to_string_base(&self, base: u8) -> (r: String)
        requires
            self.wf(),
            2 <= base <= 36,
        ensures
            r@ == to_string_base_spec(self@, base as nat),
    {
        let mut limbs: Vec<Limb> = self.to_limbs_asc();
        if limbs.len() == 0 {
            let mut zero: String = String::new();
            zero.push('0');
            return zero;
        }
        let mut cs: Vec<char> = Vec::new();
        proof {
            assert(digits_of(self@, base as nat) =~= digits_of(self@, base as nat)
                + cs@.reverse());
            lemma_limbs_value_lower_bound(limbs@);
            lemma_limb_weight((limbs@.len() - 1) as nat);
        }
        while limbs.len() > 0
            invariant
                2 <= base <= 36,
                self@ != 0,
                limbs_trimmed(limbs@),
                digits_of(self@, base as nat) == digits_of(limbs_value(limbs@), base as nat)
                    + cs@.reverse(),
            decreases limbs_value(limbs@),
        {
            let ghost x: nat = limbs_value(limbs@);
            proof {
                lemma_limbs_value_lower_bound(limbs@);
                lemma_limb_weight((limbs@.len() - 1) as nat);
            }
            let (quotient, rem) = limbs_div_limb(limbs.as_slice(), base as Limb);
            let c: char = match digit_to_display_byte_lower(rem as u8) {
                Some(b) => b as char,
                None => '0',
            };
            proof {
                lemma_reverse_push(cs@, c);
                let rest = digits_of(x / (base as nat), base as nat);
                assert(c == digit_char(x % (base as nat)));
                assert(digits_of(x, base as nat) == rest.push(c));
                assert(rest.push(c) + cs@.reverse() =~= rest + (seq![c] + cs@.reverse()));
            }
            cs.push(c);
            limbs = quotient;
            proof {
                lemma_quotient_is_smaller(x, base as nat);
            }
            limbs_trim(&mut limbs);
        }
        proof {
            lemma_limbs_value_zeros(limbs@);
        }
        string_of_reversed(&cs)
    }

    /// Writes the number in base 10.
    pub fn to_string(&self) -> (r: String)
        requires
            self.wf(),
        ensures
            r@ == to_string_base_spec(self@, 10),
    {
        self.to_string_base(10)
    }

    /// Reads a number written in a base from 2 to 36, with the letters in
    /// either case. There is no number for an empty string, nor for one
    /// that holds anything but digits of the base.
    pub fn from_string_base(base: u8, s: &str) -> (r: Option<Natural>)
        requires
            2 <= base <= 36,
        ensures
            r is Some <==> is_digit_string(s@, base as nat),
            r matches Some(x) ==> x.wf() && from_string_base_spec(s@, base as nat) == Some(x@),
    {
        if !s.is_ascii() {
            proof {
                if is_digit_string(s@, base as nat) {
                    lemma_digit_strings_are_ascii(s@, base as nat);
                }
            }
            return None;
        }
        let bytes: &[u8] = s.as_bytes();
        proof {
            is_ascii_spec_bytes(s);
            assert forall|j: int| 0 <= j < s@.len() implies s@[j] <= '\u{7f}' && bytes@[j] as char
                == s@[j] by {}
        }
        if bytes.len() == 0 {
            return None;
        }
        let mut limbs: Vec<Limb> = Vec::new();
        let mut i: usize = 0;
        while i < bytes.len()
            invariant
                2 <= base <= 36,
                i <= bytes@.len(),
                bytes@.len() == s@.len(),
                forall|j: int|
                    0 <= j < s@.len() ==> s@[j] <= '\u{7f}' && bytes@[j] as char == s@[j],
                forall|j: int| 0 <= j < i ==> is_digit_of_base(#[trigger] s@[j], base as nat),
                limbs_value(limbs@) == digit_string_value(s@.take(i as int), base as nat),
            decreases bytes@.len() - i,
        {
            let d: u8 = match digit_from_display_byte(bytes[i], base) {
                Some(d) => d,
                None => {
                    return None;
                },
            };
            proof {
                let next = s@.take(i + 1);
                assert(next.drop_last() =~= s@.take(i as int));
            }
            limbs = limbs_mul_limb_add(limbs.as_slice(), base as Limb, d as Limb);
            i += 1;
        }
        proof {
            assert(s@.take(i as int) =~= s@);
        }
        Some(Natural::from_owned_limbs_asc(limbs))
    }

    /// Reads a number written in base 10.
    pub fn from_str(s: &str) -> (r: Option<Natural>)
        ensures
            r is Some <==> is_digit_string(s@, 10),
            r matches Some(x) ==> x.wf() && from_string_base_spec(s@, 10) == Some(x@),
    {
        Natural::from_string_base(10, s)
    }
}

/// The quotient of a positive number by a base of at least two is smaller
/// than the number.
proof fn lemma_quotient_is_smaller(x: nat, base: nat)
    requires
        base >= 2,
        x > 0,
    ensures
        x / base < x,
{
    assert(x / base < x) by (nonlinear_arith)
        requires
            x > 0,
            base >= 2,
    ;
}

} // verus!
