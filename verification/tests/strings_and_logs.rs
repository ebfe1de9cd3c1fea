use exact_num::chars::{
    char_to_contiguous_range, contiguous_range_to_char, decrement_char, increment_char,
    NUMBER_OF_CHARS,
};
use exact_num::integer::Integer;
use exact_num::log_base_2::{
    ceiling_log_base_2, checked_log_base_2, floor_log_base_2, significant_bits,
};
use exact_num::natural::Natural;
use exact_num::rounding_modes::RoundingMode;
use exact_num::strings::{
    digit_from_display_byte, digit_to_display_byte_lower, to_string_base_signed_naive,
    to_string_base_unsigned_naive,
};

#[test]
fn log_base_2_of_words() {
    assert_eq!(floor_log_base_2(1), 0);
    assert_eq!(floor_log_base_2(100), 6);
    assert_eq!(floor_log_base_2(128), 7);
    assert_eq!(floor_log_base_2(u64::MAX), 63);
    assert_eq!(ceiling_log_base_2(1), 0);
    assert_eq!(ceiling_log_base_2(100), 7);
    assert_eq!(ceiling_log_base_2(128), 7);
    assert_eq!(ceiling_log_base_2(129), 8);
    assert_eq!(ceiling_log_base_2(u64::MAX), 64);
    assert_eq!(checked_log_base_2(1), Some(0));
    assert_eq!(checked_log_base_2(100), None);
    assert_eq!(checked_log_base_2(128), Some(7));
    assert_eq!(checked_log_base_2(1 << 63), Some(63));
    assert_eq!(checked_log_base_2(u64::MAX), None);
    assert_eq!(significant_bits(0), 0);
    assert_eq!(significant_bits(255), 8);
    for x in 1u64..2000 {
        let floor = floor_log_base_2(x);
        let ceiling = ceiling_log_base_2(x);
        assert!(floor <= ceiling && ceiling <= floor + 1);
        assert_eq!(floor == ceiling, x.is_power_of_two());
        assert_eq!(checked_log_base_2(x), if x.is_power_of_two() { Some(floor) } else { None });
        assert!((1u64 << floor) <= x);
    }
}

#[test]
fn log_base_2_of_naturals() {
    let test = |s: &str, floor: u64, ceiling: u64, checked: Option<u64>| {
        let x = Natural::from_str(s).unwrap();
        assert_eq!(x.floor_log_base_2(), floor);
        assert_eq!(x.ceiling_log_base_2(), ceiling);
        assert_eq!(x.checked_log_base_2(), checked);
    };
    test("1", 0, 0, Some(0));
    test("100", 6, 7, None);
    test("128", 7, 7, Some(7));
    test("4294967296", 32, 32, Some(32));
    test("4294967297", 32, 33, None);
    test("8589934592", 33, 33, Some(33));
    test("1267650600228229401496703205376", 100, 100, Some(100));
    test("1267650600228229401496703205377", 100, 101, None);
    test("1267650600228233799543214309376", 100, 101, None);
}

#[test]
fn rounding_mode_names() {
    assert_eq!(RoundingMode::Down.to_string(), "Down");
    assert_eq!(RoundingMode::Up.to_string(), "Up");
    assert_eq!(RoundingMode::Floor.to_string(), "Floor");
    assert_eq!(RoundingMode::Ceiling.to_string(), "Ceiling");
    assert_eq!(RoundingMode::Nearest.to_string(), "Nearest");
    assert_eq!(RoundingMode::Exact.to_string(), "Exact");
    assert_eq!(RoundingMode::Floor.neg(), RoundingMode::Ceiling);
    assert_eq!(RoundingMode::Ceiling.neg(), RoundingMode::Floor);
    assert_eq!(RoundingMode::Down.neg(), RoundingMode::Down);
    assert_eq!(RoundingMode::Up.neg(), RoundingMode::Up);
    assert_eq!(RoundingMode::Nearest.neg(), RoundingMode::Nearest);
    assert_eq!(RoundingMode::Exact.neg(), RoundingMode::Exact);
}

#[test]
fn digits() {
    assert_eq!(digit_to_display_byte_lower(0), Some(b'0'));
    assert_eq!(digit_to_display_byte_lower(9), Some(b'9'));
    assert_eq!(digit_to_display_byte_lower(10), Some(b'a'));
    assert_eq!(digit_to_display_byte_lower(35), Some(b'z'));
    assert_eq!(digit_to_display_byte_lower(36), None);
    assert_eq!(digit_from_display_byte(b'7', 10), Some(7));
    assert_eq!(digit_from_display_byte(b'7', 7), None);
    assert_eq!(digit_from_display_byte(b'z', 36), Some(35));
    assert_eq!(digit_from_display_byte(b'Z', 36), Some(35));
    assert_eq!(digit_from_display_byte(b'a', 10), None);
    assert_eq!(digit_from_display_byte(b'-', 36), None);
}

#[test]
fn naive_string_conversion() {
    assert_eq!(to_string_base_unsigned_naive(0, 2), "0");
    assert_eq!(to_string_base_unsigned_naive(1000, 10), "1000");
    assert_eq!(to_string_base_unsigned_naive(1000, 2), "1111101000");
    assert_eq!(to_string_base_unsigned_naive(1000, 36), "rs");
    assert_eq!(to_string_base_unsigned_naive(255, 16), "ff");
    assert_eq!(
        to_string_base_unsigned_naive(u128::MAX, 10),
        "340282366920938463463374607431768211455"
    );
    assert_eq!(to_string_base_signed_naive(0, 7), "0");
    assert_eq!(to_string_base_signed_naive(1000, 10), "1000");
    assert_eq!(to_string_base_signed_naive(-1000, 10), "-1000");
    assert_eq!(to_string_base_signed_naive(-1000, 36), "-rs");
    assert_eq!(to_string_base_signed_naive(-128, 2), "-10000000");
    assert_eq!(
        to_string_base_signed_naive(i128::MIN, 10),
        "-170141183460469231731687303715884105728"
    );
    for x in 0u32..300 {
        for base in 2u8..=36 {
            let s = to_string_base_unsigned_naive(x as u128, base);
            assert_eq!(u32::from_str_radix(&s, base as u32), Ok(x));
            let t = to_string_base_signed_naive(-(x as i128), base);
            assert_eq!(i64::from_str_radix(&t, base as u32), Ok(-(x as i64)));
        }
    }
}

#[test]
fn natural_strings_round_trip_in_every_base() {
    let values = [
        "0",
        "1",
        "35",
        "36",
        "4294967295",
        "4294967296",
        "1000000000000000000000000",
        "340282366920938463463374607431768211456",
    ];
    for v in values {
        let x = Natural::from_str(v).unwrap();
        assert_eq!(x.to_string(), v);
        for base in 2u8..=36 {
            let s = x.to_string_base(base);
            let back = Natural::from_string_base(base, &s).unwrap();
            assert!(back.is_valid());
            assert!(back.equals(&x));
            assert_eq!(Natural::from_string_base(base, &s.to_uppercase()).unwrap().to_string(), v);
            let i = Integer::from_natural(x.clone()).neg();
            let t = i.to_string_base(base);
            assert!(Integer::from_string_base(base, &t).unwrap().equals(&i));
        }
    }
    assert_eq!(Natural::from_str("1000").unwrap().to_string_base(36), "rs");
    assert_eq!(Natural::from_str("1000").unwrap().to_string_base(2), "1111101000");
    assert_eq!(Natural::from_string_base(36, "zz").unwrap().to_string(), "1295");
    assert_eq!(Natural::from_string_base(16, "DeadBeef").unwrap().to_string(), "3735928559");
    assert_eq!(Natural::from_str("000123").unwrap().to_string(), "123");
}

#[test]
fn strings_that_are_no_numbers() {
    assert!(Natural::from_str("").is_none());
    assert!(Natural::from_str("-5").is_none());
    assert!(Natural::from_str("12a").is_none());
    assert!(Natural::from_str(" 12").is_none());
    assert!(Natural::from_str("1\u{e9}2").is_none());
    assert!(Natural::from_string_base(2, "102").is_none());
    assert!(Integer::from_str("").is_none());
    assert!(Integer::from_str("-").is_none());
    assert!(Integer::from_str("--5").is_none());
    assert!(Integer::from_str("5-").is_none());
    assert!(Integer::from_str("-\u{e9}").is_none());
    assert!(Integer::from_str("\u{e9}").is_none());
    let zero = Integer::from_str("-0").unwrap();
    assert!(zero.is_valid());
    assert_eq!(zero.to_string(), "0");
    assert_eq!(Integer::from_str("-00012").unwrap().to_string(), "-12");
}

#[test]
fn chars_in_a_row() {
    assert_eq!(NUMBER_OF_CHARS, 0x110000 - 0x800);
    assert_eq!(char_to_contiguous_range('\0'), 0);
    assert_eq!(char_to_contiguous_range('a'), 97);
    assert_eq!(char_to_contiguous_range('\u{d7ff}'), 0xd7ff);
    assert_eq!(char_to_contiguous_range('\u{e000}'), 0xd800);
    assert_eq!(char_to_contiguous_range(char::MAX), NUMBER_OF_CHARS - 1);
    assert_eq!(contiguous_range_to_char(0), Some('\0'));
    assert_eq!(contiguous_range_to_char(97), Some('a'));
    assert_eq!(contiguous_range_to_char(0xd7ff), Some('\u{d7ff}'));
    assert_eq!(contiguous_range_to_char(0xd800), Some('\u{e000}'));
    assert_eq!(contiguous_range_to_char(NUMBER_OF_CHARS - 1), Some(char::MAX));
    assert_eq!(contiguous_range_to_char(NUMBER_OF_CHARS), None);
    let mut c = 'a';
    increment_char(&mut c);
    assert_eq!(c, 'b');
    decrement_char(&mut c);
    assert_eq!(c, 'a');
    let mut c = '\u{d7ff}';
    increment_char(&mut c);
    assert_eq!(c, '\u{e000}');
    decrement_char(&mut c);
    assert_eq!(c, '\u{d7ff}');
    let mut c = '\u{10fffe}';
    increment_char(&mut c);
    assert_eq!(c, char::MAX);
}
