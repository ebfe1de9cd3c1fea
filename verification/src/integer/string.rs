//! Integers written in a base from 2 to 36, and read back.

use crate::integer::Integer;
use crate::natural::Natural;
use crate::strings::{
    from_string_base_signed_spec, lemma_signed_digit_strings_are_ascii,
    to_string_base_signed_spec,
};
use vstd::prelude::*;
use vstd::string::{is_ascii_spec_bytes, StrSliceExecFns, StringExecFns};

verus! {

impl Integer {
    /// Writes the integer in a base from 2 to 36: the absolute value, after
    /// a minus sign where the integer is negative.
    pub fn to_string_base(&self, base: u8) -> (r: String)
        requires
            self.wf(),
            2 <= base <= 36,
        ensures
            r@ == to_string_base_signed_spec(self@, base as nat),
    {
        let digits: String = self.abs.to_string_base(base);
        if self.sign {
            digits
        } else {
            let mut out: String = String::new();
            out.push('-');
            out.append(digits.as_str());
            out
        }
    }

    /// Writes the integer in base 10.
    pub fn to_string(&self) -> (r: String)
        requires
            self.wf(),
        ensures
            r@ == to_string_base_signed_spec(self@, 10),
    {
        self.to_string_base(10)
    }

    /// Reads an integer written in a base from 2 to 36: digits, with the
    /// letters in either case, after a minus sign or without one.
    pub fn from_string_base(base: u8, s: &str) -> (r: Option<Integer>)
        requires
            2 <= base <= 36,
        ensures
            r is Some <==> from_string_base_signed_spec(s@, base as nat) is Some,
            r matches Some(x) ==> x.wf() && from_string_base_signed_spec(s@, base as nat) == Some(
                x@,
            ),
    {
        if !s.is_ascii() {
            proof {
                if from_string_base_signed_spec(s@, base as nat) is Some {
                    lemma_signed_digit_strings_are_ascii(s@, base as nat);
                }
            }
            return None;
        }
        let bytes: &[u8] = s.as_bytes();
        proof {
            is_ascii_spec_bytes(s);
        }
        let n: usize = bytes.len();
        if n > 0 && bytes[0] == 45 {
            let rest: &str = s.substring_ascii(1, n);
            match Natural::from_string_base(base, rest) {
                Some(abs) => Some(Integer::from_sign_and_abs(false, abs)),
                None => None,
            }
        } else {
            match Natural::from_string_base(base, s) {
                Some(abs) => Some(Integer::from_natural(abs)),
                None => None,
            }
        }
    }

    /// Reads an integer written in base 10.
    pub fn from_str(s: &str) -> (r: Option<Integer>)
        ensures
            r is Some <==> from_string_base_signed_spec(s@, 10) is Some,
            r matches Some(x) ==> x.wf() && from_string_base_signed_spec(s@, 10) == Some(x@),
    {
        Integer::from_string_base(10, s)
    }
}

} // verus!
