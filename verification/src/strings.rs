//! Numbers written as digits in a base from 2 to 36, with the digits `0` to
//! `9` and then `a` to `z`.

use vstd::arithmetic::div_mod::lemma_fundamental_div_mod;
use vstd::prelude::*;
use vstd::utf8::is_ascii_chars;

verus! {

/// `String::push` of the standard library, taken on trust: it appends the
/// character to the end of the string and changes nothing else of it.
pub assume_specification[ String::push ](s: &mut String, ch: char)
    ensures
        final(s)@ == old(s)@.push(ch),
;

/// The byte that displays the digit `d`, for `d` below 36: `0` to `9`, then
/// `a` to `z`.
pub open spec fn digit_byte(d: nat) -> u8 {
    if d < 10 {
        (48 + d) as u8
    } else {
        (87 + d) as u8
    }
}

/// The character that displays the digit `d`, for `d` below 36.
pub open spec fn digit_char(d: nat) -> char {
    digit_byte(d) as char
}

/// The digit that a byte displays, in either case of the letters.
pub open spec fn digit_of_byte(c: u8) -> Option<nat> {
    if 48 <= c <= 57 {
        Some((c - 48) as nat)
    } else if 97 <= c <= 122 {
        Some((c - 87) as nat)
    } else if 65 <= c <= 90 {
        Some((c - 55) as nat)
    } else {
        None
    }
}

/// The digit that a character displays, in either case of the letters.
pub open spec fn digit_of_char(c: char) -> Option<nat> {
    if '\0' <= c <= '\u{7f}' {
        digit_of_byte(c as u8)
    } else {
        None
    }
}

/// The character displays a digit of the base.
pub open spec fn is_digit_of_base(c: char, base: nat) -> bool {
    match digit_of_char(c) {
        Some(d) => d < base,
        None => false,
    }
}

/// The digits of a positive number in the base, most significant first;
/// none for zero.
pub open spec fn digits_of(x: nat, base: nat) -> Seq<char>
    decreases x,
{
    if x == 0 || base < 2 {
        Seq::empty()
    } else {
        proof {
            assert(x / base < x) by (nonlinear_arith)
                requires
                    x > 0,
                    base >= 2,
            ;
        }
        digits_of(x / base, base).push(digit_char(x % base))
    }
}

/// A natural number written in the base: its digits, most significant
/// first, and `0` for zero.
pub open spec fn to_string_base_spec(x: nat, base: nat) -> Seq<char> {
    if x == 0 {
        seq!['0']
    } else {
        digits_of(x, base)
    }
}

/// An integer written in the base: a minus sign where it is negative, and
/// then its absolute value.
pub open spec fn to_string_base_signed_spec(x: int, base: nat) -> Seq<char> {
    if x < 0 {
        seq!['-'] + to_string_base_spec((-x) as nat, base)
    } else {
        to_string_base_spec(x as nat, base)
    }
}

/// The string is not empty and holds digits of the base only.
pub open spec fn is_digit_string(s: Seq<char>, base: nat) -> bool {
    s.len() > 0 && forall|i: int| 0 <= i < s.len() ==> is_digit_of_base(#[trigger] s[i], base)
}

/// The number that digits stand for, most significant first.
pub open spec fn digit_string_value(s: Seq<char>, base: nat) -> nat
    decreases s.len(),
{
    if s.len() == 0 {
        0
    } else {
        digit_string_value(s.drop_last(), base) * base + match digit_of_char(s.last()) {
            Some(d) => d,
            None => 0,
        }
    }
}

/// The natural number that a string of digits stands for; none for a string
/// that is empty or holds anything but digits of the base.
pub open spec fn from_string_base_spec(s: Seq<char>, base: nat) -> Option<nat> {
    if is_digit_string(s, base) {
        Some(digit_string_value(s, base))
    } else {
        None
    }
}

/// The integer that a string stands for: a string of digits, or a minus
/// sign and then a string of digits.
pub open spec fn from_string_base_signed_spec(s: Seq<char>, base: nat) -> Option<int> {
    if s.len() > 0 && s[0] == '-' {
        match from_string_base_spec(s.drop_first(), base) {
            Some(v) => Some(-(v as int)),
            None => None,
        }
    } else {
        match from_string_base_spec(s, base) {
            Some(v) => Some(v as int),
            None => None,
        }
    }
}

/// A string that stands for a natural number holds ASCII characters only,
/// and neither a minus sign nor a slash.
pub proof fn lemma_digit_strings_are_ascii(s: Seq<char>, base: nat)
    requires
        from_string_base_spec(s, base) is Some,
    ensures
        is_ascii_chars(s),
        forall|i: int| 0 <= i < s.len() ==> s[i] != '/' && s[i] != '-',
{
    assert forall|i: int| 0 <= i < s.len() implies '\0' <= #[trigger] s[i] <= '\u{7f}' && s[i]
        != '/' && s[i] != '-' by {}
}

/// A string that stands for an integer holds ASCII characters only, and no
/// slash.
pub proof fn lemma_signed_digit_strings_are_ascii(s: Seq<char>, base: nat)
    requires
        from_string_base_signed_spec(s, base) is Some,
    ensures
        is_ascii_chars(s),
        forall|i: int| 0 <= i < s.len() ==> s[i] != '/',
{
    if s.len() > 0 && s[0] == '-' {
        let rest = s.drop_first();
        lemma_digit_strings_are_ascii(rest, base);
        assert forall|i: int| 0 <= i < s.len() implies '\0' <= #[trigger] s[i] <= '\u{7f}' && s[i]
            != '/' by {
            if i > 0 {
                assert(s[i] == rest[i - 1]);
            }
        }
    } else {
        lemma_digit_strings_are_ascii(s, base);
    }
}

/// The character of a digit displays that digit.
pub proof fn lemma_digit_char(d: nat)
    requires
        d < 36,
    ensures
        digit_of_char(digit_char(d)) == Some(d),
        digit_char(d) != '-',
        digit_char(d) != '/',
{
}

/// The digits of a number are digits of the base and stand for the number.
pub proof fn lemma_digits_of(x: nat, base: nat)
    requires
        2 <= base <= 36,
    ensures
        forall|i: int|
            0 <= i < digits_of(x, base).len() ==> is_digit_of_base(
                #[trigger] digits_of(x, base)[i],
                base,
            ),
        digit_string_value(digits_of(x, base), base) == x,
        x > 0 ==> digits_of(x, base).len() > 0,
        x > 0 ==> digits_of(x, base)[0] != '-',
    decreases x,
{
    if x > 0 {
        let rest = digits_of(x / base, base);
        let last = digit_char(x % base);
        assert(x / base < x) by (nonlinear_arith)
            requires
                x > 0,
                base >= 2,
        ;
        lemma_digits_of(x / base, base);
        lemma_digit_char(x % base);
        lemma_fundamental_div_mod(x as int, base as int);
        assert(digits_of(x, base) == rest.push(last));
        assert(rest.push(last).drop_last() =~= rest);
        assert((x / base) * base == base * (x / base)) by (nonlinear_arith);
        assert forall|i: int| 0 <= i < digits_of(x, base).len() implies is_digit_of_base(
            #[trigger] digits_of(x, base)[i],
            base,
        ) by {
            if i < rest.len() {
                assert(digits_of(x, base)[i] == rest[i]);
            }
        }
        if x / base > 0 {
            assert(digits_of(x, base)[0] == rest[0]);
        }
    }
}

/// Reading back what was written in a base gives the number that was
/// written.
pub proof fn lemma_string_base_round_trip(x: nat, base: nat)
    requires
        2 <= base <= 36,
    ensures
        from_string_base_spec(to_string_base_spec(x, base), base) == Some(x),
{
    lemma_digits_of(x, base);
    if x == 0 {
        let s = seq!['0'];
        assert(s.drop_last() =~= Seq::<char>::empty());
        assert(digit_string_value(s, base) == digit_string_value(s.drop_last(), base) * base + 0);
        assert(digit_string_value(s.drop_last(), base) == 0);
    }
}

/// Reading back what was written of an integer gives the integer.
pub proof fn lemma_string_base_signed_round_trip(x: int, base: nat)
    requires
        2 <= base <= 36,
    ensures
        from_string_base_signed_spec(to_string_base_signed_spec(x, base), base) == Some(x),
{
    if x < 0 {
        let m = (-x) as nat;
        lemma_string_base_round_trip(m, base);
        let s = to_string_base_signed_spec(x, base);
        assert(s.drop_first() =~= to_string_base_spec(m, base));
    } else {
        lemma_string_base_round_trip(x as nat, base);
        lemma_digits_of(x as nat, base);
    }
}

/// A sequence with one more element, reversed, starts with that element.
pub proof fn lemma_reverse_push<A>(s: Seq<A>, a: A)
    ensures
        s.push(a).reverse() == seq![a] + s.reverse(),
{
}

/// Returns the byte that displays a digit: `0` to `9`, then `a` to `z`.
/// There is none for 36 and above.
pub fn digit_to_display_byte_lower(d: u8) -> (r: Option<u8>)
    ensures
        r is Some <==> d < 36,
        r matches Some(b) ==> b == digit_byte(d as nat) && b < 128,
{
    if d < 10 {
        Some(48 + d)
    } else if d < 36 {
        Some(87 + d)
    } else {
        None
    }
}

/// Returns the digit that a byte displays in the base, if it displays one.
pub fn digit_from_display_byte(b: u8, base: u8) -> (r: Option<u8>)
    ensures
        r is Some <==> (b < 128 && is_digit_of_base(b as char, base as nat)),
        r matches Some(d) ==> digit_of_byte(b) == Some(d as nat) && d < base,
{
    let d: u8 = if 48 <= b && b <= 57 {
        b - 48
    } else if 97 <= b && b <= 122 {
        b - 87
    } else if 65 <= b && b <= 90 {
        b - 55
    } else {
        return None;
    };
    if d < base {
        Some(d)
    } else {
        None
    }
}

/// Returns the string of the characters in the opposite order.
pub fn string_of_reversed(cs: &Vec<char>) -> (r: String)
    ensures
        r@ == cs@.reverse(),
{
    let mut out: String = String::new();
    let mut i: usize = cs.len();
    while i > 0
        invariant
            i <= cs@.len(),
            out@.len() == cs@.len() - i,
            forall|j: int| 0 <= j < out@.len() ==> out@[j] == cs@[cs@.len() - 1 - j],
        decreases i,
    {
        i -= 1;
        out.push(cs[i]);
    }
    out
}

/// The absolute value of a machine integer, which for the most negative one
/// does not fit in the signed type.
pub fn unsigned_abs_i128(x: i128) -> (r: u128)
    ensures
        x >= 0 ==> r == x,
        x < 0 ==> r == -x,
{
    if x >= 0 {
        x as u128
    } else {
        (-(x + 1)) as u128 + 1
    }
}

/// Writes the digits of `x` to `cs`, least significant first.
fn push_digits_ascending(cs: &mut Vec<char>, x: u128, base: u8)
    requires
        2 <= base <= 36,
    ensures
        final(cs)@.reverse() == digits_of(x as nat, base as nat) + old(cs)@.reverse(),
{
    let wide: u128 = base as u128;
    let mut x: u128 = x;
    let ghost given: nat = x as nat;
    let ghost prefix: Seq<char> = cs@;
    proof {
        assert(digits_of(given, wide as nat) + prefix.reverse() =~= digits_of(x as nat, wide as nat)
            + cs@.reverse());
    }
    while x != 0
        invariant
            wide == base,
            2 <= base <= 36,
            digits_of(given, wide as nat) + prefix.reverse() == digits_of(x as nat, wide as nat)
                + cs@.reverse(),
        decreases x,
    {
        let digit: u8 = (x % wide) as u8;
        let c: char = match digit_to_display_byte_lower(digit) {
            Some(b) => b as char,
            None => '0',
        };
        proof {
            lemma_reverse_push(cs@, c);
            let rest = digits_of((x / wide) as nat, wide as nat);
            assert(c == digit_char((x % wide) as nat));
            assert(digits_of(x as nat, wide as nat) == rest.push(c));
            assert(rest.push(c) + cs@.reverse() =~= rest + (seq![c] + cs@.reverse()));
        }
        cs.push(c);
        x = x / wide;
    }
}

/// Writes an unsigned number in a base from 2 to 36 by dividing by the base
/// again and again and collecting the remainders, which are the digits from
/// the least significant up.
pub fn to_string_base_unsigned_naive(x: u128, base: u8) -> (r: String)
    requires
        2 <= base <= 36,
    ensures
        r@ == to_string_base_spec(x as nat, base as nat),
{
    if x == 0 {
        let mut zero: String = String::new();
        zero.push('0');
        zero
    } else {
        let mut cs: Vec<char> = Vec::new();
        push_digits_ascending(&mut cs, x, base);
        proof {
            assert(digits_of(x as nat, base as nat) + Seq::<char>::empty() =~= digits_of(
                x as nat,
                base as nat,
            ));
        }
        string_of_reversed(&cs)
    }
}

/// Writes a signed number in a base from 2 to 36: the digits of the
/// absolute value, after a minus sign where the number is negative.
pub fn to_string_base_signed_naive(x: i128, base: u8) -> (r: String)
    requires
        2 <= base <= 36,
    ensures
        r@ == to_string_base_signed_spec(x as int, base as nat),
{
    if x == 0 {
        let mut zero: String = String::new();
        zero.push('0');
        zero
    } else {
        let mut cs: Vec<char> = Vec::new();
        let abs_x: u128 = unsigned_abs_i128(x);
        push_digits_ascending(&mut cs, abs_x, base);
        proof {
            assert(digits_of(abs_x as nat, base as nat) + Seq::<char>::empty() =~= digits_of(
                abs_x as nat,
                base as nat,
            ));
        }
        if x < 0 {
            proof {
                lemma_reverse_push(cs@, '-');
            }
            cs.push('-');
        }
        string_of_reversed(&cs)
    }
}

} // verus!
