//! Fractions written in base 10, and read back.
//!
//! A fraction is written as its numerator, a slash and its denominator; a
//! whole number is written without the slash and the one.

use crate::integer::Integer;
use crate::natural::Natural;
use crate::rational::Rational;
use crate::strings::{
    from_string_base_signed_spec, from_string_base_spec, lemma_digit_strings_are_ascii,
    lemma_signed_digit_strings_are_ascii, lemma_string_base_round_trip,
    lemma_string_base_signed_round_trip, to_string_base_signed_spec, to_string_base_spec,
};
use vstd::prelude::*;
use vstd::string::{is_ascii_spec_bytes, StrSliceExecFns, StringExecFns};
use vstd::utf8::is_ascii_chars;

verus! {

/// The index of the first slash in a string; the length of the string
/// where it holds none.
pub open spec fn first_slash(s: Seq<char>) -> int
    decreases s.len(),
{
    if s.len() == 0 || s[0] == '/' {
        0
    } else {
        1 + first_slash(s.drop_first())
    }
}

/// The fraction `numer / denom` written in base 10.
pub open spec fn rational_to_string_spec(numer: int, denom: nat) -> Seq<char> {
    if denom == 1 {
        to_string_base_signed_spec(numer, 10)
    } else {
        to_string_base_signed_spec(numer, 10) + seq!['/'] + to_string_base_spec(denom, 10)
    }
}

/// The numerator and the denominator that a string stands for: an integer
/// alone, or an integer, a slash and a natural number that is not zero.
pub open spec fn rational_from_string_spec(s: Seq<char>) -> Option<(int, nat)> {
    let i = first_slash(s);
    if i == s.len() {
        match from_string_base_signed_spec(s, 10) {
            Some(n) => Some((n, 1nat)),
            None => None,
        }
    } else {
        match (
            from_string_base_signed_spec(s.take(i), 10),
            from_string_base_spec(s.skip(i + 1), 10),
        ) {
            (Some(n), Some(d)) => if d == 0 {
                None
            } else {
                Some((n, d))
            },
            _ => None,
        }
    }
}

/// The index of the first slash is the one index that holds a slash, or is
/// the end, and has no slash before it.
pub proof fn lemma_first_slash(s: Seq<char>, i: int)
    requires
        0 <= i <= s.len(),
        forall|j: int| 0 <= j < i ==> s[j] != '/',
        i < s.len() ==> s[i] == '/',
    ensures
        first_slash(s) == i,
    decreases s.len(),
{
    if s.len() > 0 && s[0] != '/' {
        let rest = s.drop_first();
        assert forall|j: int| 0 <= j < i - 1 implies rest[j] != '/' by {}
        lemma_first_slash(rest, i - 1);
    }
}

/// A string that stands for a fraction holds ASCII characters only.
pub proof fn lemma_rational_strings_are_ascii(s: Seq<char>)
    requires
        rational_from_string_spec(s) is Some,
    ensures
        is_ascii_chars(s),
{
    let i = first_slash(s);
    lemma_first_slash_in_range(s);
    if i == s.len() {
        lemma_signed_digit_strings_are_ascii(s, 10);
    } else {
        lemma_signed_digit_strings_are_ascii(s.take(i), 10);
        lemma_digit_strings_are_ascii(s.skip(i + 1), 10);
        assert forall|j: int| 0 <= j < s.len() implies '\0' <= #[trigger] s[j] <= '\u{7f}' by {
            if j < i {
                assert(s[j] == s.take(i)[j]);
            } else if j > i {
                assert(s[j] == s.skip(i + 1)[j - i - 1]);
            }
        }
    }
}

/// The first slash lies in the string, or at its end where there is none.
pub proof fn lemma_first_slash_in_range(s: Seq<char>)
    ensures
        0 <= first_slash(s) <= s.len(),
        first_slash(s) < s.len() ==> s[first_slash(s)] == '/',
    decreases s.len(),
{
    if s.len() > 0 && s[0] != '/' {
        lemma_first_slash_in_range(s.drop_first());
    }
}

/// An integer written in base 10 holds no slash.
proof fn lemma_signed_string_has_no_slash(x: int)
    ensures
        forall|i: int|
            0 <= i < to_string_base_signed_spec(x, 10).len() ==> to_string_base_signed_spec(
                x,
                10,
            )[i] != '/',
{
    lemma_string_base_signed_round_trip(x, 10);
    lemma_signed_digit_strings_are_ascii(to_string_base_signed_spec(x, 10), 10);
}

/// Reading back what was written of a fraction gives its numerator and its
/// denominator.
pub proof fn lemma_rational_string_round_trip(numer: int, denom: nat)
    requires
        denom >= 1,
    ensures
        rational_from_string_spec(rational_to_string_spec(numer, denom)) == Some((numer, denom)),
{
    let head = to_string_base_signed_spec(numer, 10);
    let s = rational_to_string_spec(numer, denom);
    lemma_signed_string_has_no_slash(numer);
    lemma_string_base_signed_round_trip(numer, 10);
    if denom == 1 {
        lemma_first_slash(s, s.len() as int);
    } else {
        let tail = to_string_base_spec(denom, 10);
        let i = head.len() as int;
        assert forall|j: int| 0 <= j < i implies s[j] != '/' by {}
        lemma_first_slash(s, i);
        assert(s.take(i) =~= head);
        assert(s.skip(i + 1) =~= tail);
        lemma_string_base_round_trip(denom, 10);
    }
}

impl Rational {
    /// Writes the fraction in base 10: the numerator with its sign, and
    /// where the denominator is not one, a slash and the denominator.
    pub fn to_string(&self) -> (r: String)
        requires
            self.wf(),
        ensures
            r@ == rational_to_string_spec(self.numer(), self.denominator@),
    {
        let mut out: String = String::new();
        if !self.sign {
            out.push('-');
        }
        let numerator: String = self.numerator.to_string();
        out.append(numerator.as_str());
        if !self.denominator.equals(&Natural::one()) {
            out.push('/');
            let denominator: String = self.denominator.to_string();
            out.append(denominator.as_str());
        }
        out
    }

    /// Reads a fraction written in base 10: an integer, or an integer, a
    /// slash and a natural number that is not zero. The two need not be in
    /// lowest terms; the fraction that comes back is.
    pub fn from_str(s: &str) -> (r: Option<Rational>)
        ensures
            r is Some <==> rational_from_string_spec(s@) is Some,
            r matches Some(q) ==> q.wf() && match rational_from_string_spec(s@) {
                Some((n, d)) => q.numer() * d == n * q.denom(),
                None => false,
            },
    {
        if !s.is_ascii() {
            proof {
                if rational_from_string_spec(s@) is Some {
                    lemma_rational_strings_are_ascii(s@);
                }
            }
            return None;
        }
        let bytes: &[u8] = s.as_bytes();
        proof {
            is_ascii_spec_bytes(s);
        }
        let n: usize = bytes.len();
        let mut i: usize = 0;
        while i < n && bytes[i] != 47
            invariant
                i <= n,
                n == bytes@.len(),
                n == s@.len(),
                forall|j: int| 0 <= j < n ==> '\0' <= #[trigger] s@[j] <= '\u{7f}' && bytes@[j]
                    == s@[j] as u8,
                forall|j: int| 0 <= j < i ==> s@[j] != '/',
            decreases n - i,
        {
            i += 1;
        }
        proof {
            lemma_first_slash(s@, i as int);
        }
        if i == n {
            match Integer::from_str(s) {
                Some(x) => Some(Rational::from_integer(x)),
                None => None,
            }
        } else {
            let numerator: &str = s.substring_ascii(0, i);
            let denominator: &str = s.substring_ascii(i + 1, n);
            let x: Integer = match Integer::from_str(numerator) {
                Some(x) => x,
                None => {
                    return None;
                },
            };
            let d: Natural = match Natural::from_str(denominator) {
                Some(d) => d,
                None => {
                    return None;
                },
            };
            if d.is_zero() {
                return None;
            }
            Some(Rational::from_integers(&x, &Integer::from_natural(d)))
        }
    }
}

} // verus!
