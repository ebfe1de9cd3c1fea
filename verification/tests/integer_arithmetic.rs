use exact_num::integer::comparison::{i32_partial_cmp_abs, u32_partial_cmp_abs};
use exact_num::integer::Integer;
use exact_num::natural::Natural;
use exact_num::rounding_modes::RoundingMode;
use exact_num::rounding_modes::RoundingMode::{Ceiling, Down, Exact, Floor, Nearest, Up};
use std::cmp::Ordering;
use std::cmp::Ordering::{Equal, Greater, Less};

fn integer(s: &str) -> Integer {
    let x = Integer::from_str(s).unwrap();
    assert!(x.is_valid());
    x
}

#[test]
fn integer_divisible_by() {
    assert!(Integer::zero().divisible_by(&Integer::zero()));
    assert!(!Integer::from_i64(-100).divisible_by(&Integer::from_i64(-3)));
    assert!(Integer::from_i64(102).divisible_by(&Integer::from_i64(-3)));
    assert!(integer("-1000000000000000000000000").divisible_by(&integer("1000000000000")));
    assert!(!integer("-1000000000000000000000001").divisible_by(&integer("1000000000000")));
    for s in ["1", "-1", "123", "-340282366920938463463374607431768211456"] {
        assert!(!integer(s).divisible_by(&Integer::zero()));
        assert!(Integer::zero().divisible_by(&integer(s)));
    }
}

fn round(x: i64, m: i64, rm: RoundingMode) -> (String, Ordering) {
    let (r, o) = Integer::from_i64(x).round_to_multiple(&Integer::from_i64(m), rm);
    assert!(r.is_valid());
    let mut y = Integer::from_i64(x);
    let o_assign = y.round_to_multiple_assign(&Integer::from_i64(m), rm);
    assert!(y.is_valid());
    assert_eq!(y.to_string(), r.to_string());
    assert_eq!(o_assign, o);
    (r.to_string(), o)
}

#[test]
fn integer_round_to_multiple() {
    assert_eq!(round(-5, 0, Down), ("0".to_string(), Greater));
    assert_eq!(round(0, 0, Down), ("0".to_string(), Equal));
    assert_eq!(round(0, 0, Exact), ("0".to_string(), Equal));
    assert_eq!(round(5, 0, Down), ("0".to_string(), Less));
    assert_eq!(round(5, 0, Floor), ("0".to_string(), Less));
    assert_eq!(round(-5, 0, Ceiling), ("0".to_string(), Greater));
    assert_eq!(round(-5, 0, Nearest), ("0".to_string(), Greater));

    assert_eq!(round(-10, 4, Down), ("-8".to_string(), Greater));
    assert_eq!(round(-10, 4, Up), ("-12".to_string(), Less));
    assert_eq!(round(-10, 5, Exact), ("-10".to_string(), Equal));
    assert_eq!(round(-10, 3, Nearest), ("-9".to_string(), Greater));
    assert_eq!(round(-20, 3, Nearest), ("-21".to_string(), Less));
    assert_eq!(round(-10, 4, Nearest), ("-8".to_string(), Greater));
    assert_eq!(round(-14, 4, Nearest), ("-16".to_string(), Less));

    assert_eq!(round(-10, -4, Down), ("-8".to_string(), Greater));
    assert_eq!(round(-10, -4, Up), ("-12".to_string(), Less));
    assert_eq!(round(-10, -5, Exact), ("-10".to_string(), Equal));
    assert_eq!(round(-10, -3, Nearest), ("-9".to_string(), Greater));
    assert_eq!(round(-20, -3, Nearest), ("-21".to_string(), Less));
    assert_eq!(round(-10, -4, Nearest), ("-8".to_string(), Greater));
    assert_eq!(round(-14, -4, Nearest), ("-16".to_string(), Less));

    assert_eq!(round(-10, 4, Floor), ("-12".to_string(), Less));
    assert_eq!(round(-10, 4, Ceiling), ("-8".to_string(), Greater));
    assert_eq!(round(10, 4, Floor), ("8".to_string(), Less));
    assert_eq!(round(10, 4, Ceiling), ("12".to_string(), Greater));
    assert_eq!(round(10, 4, Down), ("8".to_string(), Less));
    assert_eq!(round(10, 4, Up), ("12".to_string(), Greater));
    assert_eq!(round(10, 4, Nearest), ("8".to_string(), Less));
    assert_eq!(round(14, 4, Nearest), ("16".to_string(), Greater));
    assert_eq!(round(-3, 4, Up), ("-4".to_string(), Less));
    assert_eq!(round(-3, 4, Down), ("0".to_string(), Greater));
    assert_eq!(round(12, 4, Exact), ("12".to_string(), Equal));
}

#[test]
fn integer_round_to_multiple_matches_machine_arithmetic() {
    let modes = [
        RoundingMode::Down,
        RoundingMode::Up,
        RoundingMode::Floor,
        RoundingMode::Ceiling,
        RoundingMode::Nearest,
    ];
    for x in -40i64..=40 {
        for m in -7i64..=7 {
            if m == 0 {
                continue;
            }
            let a = m.abs();
            let floor = x.div_euclid(a) * a;
            let ceiling = if x.rem_euclid(a) == 0 { floor } else { floor + a };
            for rm in modes {
                let expected = match rm {
                    RoundingMode::Floor => floor,
                    RoundingMode::Ceiling => ceiling,
                    RoundingMode::Down => {
                        if x >= 0 {
                            floor
                        } else {
                            ceiling
                        }
                    }
                    RoundingMode::Up => {
                        if x >= 0 {
                            ceiling
                        } else {
                            floor
                        }
                    }
                    _ => {
                        let below = x - floor;
                        let above = ceiling - x;
                        if below < above {
                            floor
                        } else if above < below {
                            ceiling
                        } else if (floor / a) % 2 == 0 {
                            floor
                        } else {
                            ceiling
                        }
                    }
                };
                let (r, o) = round(x, m, rm);
                assert_eq!(r, expected.to_string(), "{} {} {:?}", x, m, rm);
                assert_eq!(o, expected.cmp(&x));
            }
        }
    }
}

#[test]
fn integer_not() {
    for (s, out) in [
        ("0", "-1"),
        ("123", "-124"),
        ("-123", "122"),
        ("-1", "0"),
        ("1000000000000", "-1000000000001"),
        ("-1000000000000", "999999999999"),
        ("2147483647", "-2147483648"),
        ("4294967295", "-4294967296"),
        ("-4294967296", "4294967295"),
    ] {
        let not = integer(s).not();
        assert!(not.is_valid());
        assert_eq!(not.to_string(), out);
        let back = not.not();
        assert!(back.is_valid());
        assert_eq!(back.to_string(), s);
    }
}

#[test]
fn integer_add_sub_mul_neg() {
    let values: [i128; 11] = [
        0,
        1,
        -1,
        7,
        -7,
        4294967295,
        -4294967296,
        4294967296,
        1 << 62,
        -(1 << 62),
        123456789012345678,
    ];
    for &a in &values {
        for &b in &values {
            let x = integer(&a.to_string());
            let y = integer(&b.to_string());
            let sum = x.add(&y);
            assert!(sum.is_valid());
            assert_eq!(sum.to_string(), (a + b).to_string());
            let difference = x.sub(&y);
            assert!(difference.is_valid());
            assert_eq!(difference.to_string(), (a - b).to_string());
            let product = x.mul(&y);
            assert!(product.is_valid());
            assert_eq!(product.to_string(), (a * b).to_string());
            assert_eq!(x.cmp(&y), a.cmp(&b));
            assert_eq!(x.partial_cmp(&y), Some(a.cmp(&b)));
            assert_eq!(x.equals(&y), a == b);
        }
        let x = integer(&a.to_string());
        assert_eq!(x.neg().to_string(), (-a).to_string());
        assert_eq!(x.abs().to_string(), a.abs().to_string());
        assert_eq!(x.sign_ordering(), a.cmp(&0));
    }
}

#[test]
fn integer_from_machine_integers() {
    assert_eq!(Integer::from_i64(i64::MIN).to_string(), i64::MIN.to_string());
    assert_eq!(Integer::from_i64(i64::MAX).to_string(), i64::MAX.to_string());
    assert_eq!(Integer::from_i32(i32::MIN).to_string(), "-2147483648");
    assert_eq!(Integer::from_u64(u64::MAX).to_string(), u64::MAX.to_string());
    assert_eq!(Integer::from_u32(0).to_string(), "0");
    assert!(Integer::from_i64(i64::MIN).is_valid());
    let mut x = integer("-1000000000000000000000");
    x.assign_u32(17);
    assert!(x.is_valid());
    assert_eq!(x.to_string(), "17");
    assert!(!Integer { sign: false, abs: Natural::zero() }.is_valid());
}

#[test]
fn integer_partial_cmp_abs() {
    assert_eq!(Integer::from_i64(123).partial_cmp_abs_u32(122), Some(Ordering::Greater));
    assert_eq!(Integer::from_i64(123).partial_cmp_abs_u32(124), Some(Ordering::Less));
    assert_eq!(Integer::from_i64(-123).partial_cmp_abs_u32(123), Some(Ordering::Equal));
    assert_eq!(integer("1000000000000").partial_cmp_abs_u32(123), Some(Ordering::Greater));
    assert_eq!(integer("-1000000000000").partial_cmp_abs_u32(123), Some(Ordering::Greater));
    assert_eq!(u32_partial_cmp_abs(122, &Integer::from_i64(123)), Some(Ordering::Less));
    assert_eq!(u32_partial_cmp_abs(124, &Integer::from_i64(123)), Some(Ordering::Greater));
    assert_eq!(u32_partial_cmp_abs(123, &integer("-1000000000000")), Some(Ordering::Less));
    // The most negative word has an absolute value that no signed word holds.
    assert_eq!(
        Integer::from_i32(i32::MIN).partial_cmp_abs_u32(0x8000_0000),
        Some(Ordering::Equal)
    );
    assert_eq!(Integer::from_i32(i32::MIN).partial_cmp_abs_i32(i32::MIN), Some(Ordering::Equal));
    assert_eq!(Integer::from_i32(i32::MAX).partial_cmp_abs_i32(i32::MIN), Some(Ordering::Less));
    assert_eq!(Integer::from_i32(-5).partial_cmp_abs_u32(0x8000_0001), Some(Ordering::Less));
    assert_eq!(i32_partial_cmp_abs(i32::MIN, &Integer::from_i64(1 << 31)), Some(Ordering::Equal));
    assert_eq!(i32_partial_cmp_abs(-7, &Integer::from_i64(6)), Some(Ordering::Greater));
}

#[test]
fn integer_partial_cmp_abs_scaled() {
    // 12 against 3 * 2^2, 3 * 2^3 and 3 * 2^1.
    assert_eq!(Integer::from_i64(-12).partial_cmp_abs_scaled(3, 2), Some(Ordering::Equal));
    assert_eq!(Integer::from_i64(12).partial_cmp_abs_scaled(3, 3), Some(Ordering::Less));
    assert_eq!(Integer::from_i64(12).partial_cmp_abs_scaled(3, 1), Some(Ordering::Greater));
    // 1 against 3 * 2^-1 = 1.5 and 2 against it.
    assert_eq!(Integer::from_i64(1).partial_cmp_abs_scaled(3, -1), Some(Ordering::Less));
    assert_eq!(Integer::from_i64(-2).partial_cmp_abs_scaled(3, -1), Some(Ordering::Greater));
    assert_eq!(Integer::from_i64(0).partial_cmp_abs_scaled(0, -5), Some(Ordering::Equal));
    assert_eq!(
        integer("1267650600228229401496703205376").partial_cmp_abs_scaled(1 << 52, 48),
        Some(Ordering::Equal)
    );
}

#[test]
fn integer_div_round() {
    let test = |x: i64, y: i64, rm, q: &str, o| {
        let (r, ordering) = Integer::from_i64(x).div_round(&Integer::from_i64(y), rm);
        assert!(r.is_valid());
        assert_eq!((r.to_string().as_str(), ordering), (q, o));
    };
    test(-10, 4, Down, "-2", Greater);
    test(-10, 4, Up, "-3", Less);
    test(-10, 4, Floor, "-3", Less);
    test(-10, 4, Ceiling, "-2", Greater);
    test(-10, 4, Nearest, "-2", Greater);
    test(-14, 4, Nearest, "-4", Less);
    test(-10, 5, Exact, "-2", Equal);
    test(10, -4, Down, "-2", Greater);
    test(10, -4, Floor, "-3", Less);
    test(10, -4, Ceiling, "-2", Greater);
    test(-10, -4, Floor, "2", Less);
    test(-10, -4, Ceiling, "3", Greater);
    test(-10, -4, Up, "3", Greater);
    test(0, -4, Up, "0", Equal);
    test(10, 4, Nearest, "2", Less);
    for x in -30i64..=30 {
        for y in [-7i64, -3, -2, -1, 1, 2, 3, 7] {
            let cut = x / y;
            let inexact = x % y != 0;
            let negative = (x < 0) != (y < 0);
            let (floor, _) = Integer::from_i64(x).div_round(&Integer::from_i64(y), Floor);
            let below = if inexact && negative { cut - 1 } else { cut };
            assert_eq!(floor.to_string(), below.to_string());
            let (ceiling, _) = Integer::from_i64(x).div_round(&Integer::from_i64(y), Ceiling);
            let above = if inexact && !negative { cut + 1 } else { cut };
            assert_eq!(ceiling.to_string(), above.to_string());
            let (down, _) = Integer::from_i64(x).div_round(&Integer::from_i64(y), Down);
            assert_eq!(down.to_string(), (x / y).to_string());
        }
    }
}

#[test]
fn integer_parts() {
    let x = integer("-1000000000000");
    assert_eq!(x.unsigned_abs_ref().to_string(), "1000000000000");
    assert!(x.is_negative());
    assert!(!x.is_zero());
    assert_eq!(x.clone().unsigned_abs().to_string(), "1000000000000");
    assert_eq!(Integer::from_sign_and_abs(false, Natural::zero()).to_string(), "0");
    assert!(Integer::from_sign_and_abs(false, Natural::zero()).is_valid());
    assert_eq!(Integer::one().to_string(), "1");
    assert_eq!(integer("-255").to_string_base(16), "-ff");
    assert_eq!(Integer::from_string_base(16, "-FF").unwrap().to_string(), "-255");
}

#[test]
fn integer_rounding_that_cannot_be_done() {
    let can = |x: i64, m: i64, rm| {
        Integer::from_i64(x).can_round_to_multiple_of(&Integer::from_i64(m), rm)
    };
    assert!(can(0, 0, Exact));
    assert!(can(0, 0, Up));
    assert!(can(-5, 0, Down));
    assert!(can(-5, 0, Ceiling));
    assert!(can(-5, 0, Nearest));
    assert!(!can(-5, 0, Floor));
    assert!(!can(-5, 0, Up));
    assert!(!can(-5, 0, Exact));
    assert!(can(5, 0, Floor));
    assert!(!can(5, 0, Ceiling));
    assert!(!can(5, 0, Up));
    assert!(can(-10, 5, Exact));
    assert!(can(-10, -5, Exact));
    assert!(!can(-10, 4, Exact));
    assert!(can(-10, 4, Up));
    let can_div =
        |x: i64, y: i64, rm| Integer::from_i64(x).can_div_round_by(&Integer::from_i64(y), rm);
    assert!(!can_div(0, 0, Down));
    assert!(!can_div(7, 0, Floor));
    assert!(can_div(-10, -5, Exact));
    assert!(!can_div(-10, 3, Exact));
    assert!(can_div(-10, 3, Nearest));
}
