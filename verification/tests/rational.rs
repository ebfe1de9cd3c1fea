use exact_num::integer::Integer;
use exact_num::natural::Natural;
use exact_num::rational::Rational;
use std::cmp::Ordering;

fn show(r: &Rational) -> String {
    let mut s = String::new();
    if !r.sign {
        s.push('-');
    }
    s.push_str(&r.numerator.to_string());
    s.push('/');
    s.push_str(&r.denominator.to_string());
    s
}

#[test]
fn rational_is_kept_in_lowest_terms() {
    let test = |n: i64, d: i64, out: &str| {
        let r = Rational::from_signeds(n, d);
        assert!(r.is_valid());
        assert_eq!(show(&r), out);
    };
    test(22, 7, "22/7");
    test(-22, 7, "-22/7");
    test(22, -7, "-22/7");
    test(-22, -7, "22/7");
    test(44, 14, "22/7");
    test(0, 5, "0/1");
    test(0, -5, "0/1");
    test(6, 3, "2/1");
    test(i64::MIN, i64::MIN, "1/1");
    test(i64::MIN, 2, "-4611686018427387904/1");
    test(1, i64::MIN, "-1/9223372036854775808");
    assert!(Rational::zero().is_valid());
    assert!(Rational::one().is_valid());
    assert!(Rational::from_integer(Integer::from_i64(-5)).is_valid());
    let unreduced = Rational {
        sign: true,
        numerator: Natural::from_u32(2),
        denominator: Natural::from_u32(4),
    };
    assert!(!unreduced.is_valid());
    let no_denominator = Rational {
        sign: true,
        numerator: Natural::from_u32(1),
        denominator: Natural::zero(),
    };
    assert!(!no_denominator.is_valid());
    let negative_zero = Rational {
        sign: false,
        numerator: Natural::zero(),
        denominator: Natural::one(),
    };
    assert!(!negative_zero.is_valid());
    let big = Rational::from_naturals(
        &Natural::from_str("1000000000000000000000000").unwrap(),
        &Natural::from_str("1000000000000").unwrap(),
    );
    assert!(big.is_valid());
    assert_eq!(show(&big), "1000000000000/1");
}

#[test]
fn rational_ceiling_and_floor() {
    let test = |n: i64, d: i64, ceiling: &str, floor: &str| {
        let r = Rational::from_signeds(n, d);
        let c = r.ceiling();
        assert!(c.is_valid());
        assert_eq!(c.to_string(), ceiling);
        let f = r.floor();
        assert!(f.is_valid());
        assert_eq!(f.to_string(), floor);

        let mut x = r.clone();
        x.ceiling_assign();
        assert!(x.is_valid());
        assert_eq!(show(&x), format!("{}/1", ceiling));
        let mut y = r.clone();
        y.floor_assign();
        assert!(y.is_valid());
        assert_eq!(show(&y), format!("{}/1", floor));
    };
    test(0, 1, "0", "0");
    test(22, 7, "4", "3");
    test(-22, 7, "-3", "-4");
    test(21, 7, "3", "3");
    test(-21, 7, "-3", "-3");
    test(1, 3, "1", "0");
    test(-1, 3, "0", "-1");
    test(-2, 3, "0", "-1");
    test(1, i64::MAX, "1", "0");
}

fn reverse(o: Ordering) -> Ordering {
    o.reverse()
}

#[test]
fn rational_partial_cmp_integer() {
    let gt = |n: i64, d: i64, x: i64| {
        let r = Rational::from_signeds(n, d);
        let i = Integer::from_i64(x);
        assert_eq!(r.partial_cmp(&i), Some(Ordering::Greater));
        assert_eq!(i.partial_cmp_rational(&r), Some(Ordering::Less));
    };
    gt(22, 7, 3);
    gt(4, 1, 3);
    gt(-22, 7, -4);
    gt(1, 2, 0);
    gt(1, 2, -1);
    gt(-1, 2, -1);
    gt(0, 1, -5);
    gt(1000001, 1000, 1000);
    let lt = |n: i64, d: i64, x: i64| {
        let r = Rational::from_signeds(n, d);
        let i = Integer::from_i64(x);
        assert_eq!(r.partial_cmp(&i), Some(Ordering::Less));
        assert_eq!(i.partial_cmp_rational(&r), Some(Ordering::Greater));
    };
    lt(22, 7, 4);
    lt(-22, 7, -3);
    lt(1, 2, 1);
    lt(-1, 2, 0);
    lt(0, 1, 5);
    lt(999999, 1000, 1000);
    let eq = |n: i64, d: i64, x: i64| {
        let r = Rational::from_signeds(n, d);
        let i = Integer::from_i64(x);
        assert_eq!(r.partial_cmp(&i), Some(Ordering::Equal));
        assert_eq!(i.partial_cmp_rational(&r), Some(Ordering::Equal));
    };
    eq(0, 1, 0);
    eq(21, 7, 3);
    eq(-21, 7, -3);
    eq(1, 1, 1);
    eq(-1, 1, -1);
}

#[test]
fn rational_partial_cmp_agrees_with_cross_multiplication() {
    let numerators = [-100i64, -37, -22, -7, -3, -2, -1, 0, 1, 2, 3, 7, 22, 37, 100, 1 << 40];
    let denominators = [1i64, 2, 3, 7, 8, 100, 1 << 20];
    let integers = [-1i64 << 33, -100, -5, -4, -3, -1, 0, 1, 3, 4, 5, 100, 1 << 33];
    for &n in &numerators {
        for &d in &denominators {
            let r = Rational::from_signeds(n, d);
            for &x in &integers {
                let i = Integer::from_i64(x);
                let expected = (n as i128).cmp(&((x as i128) * (d as i128)));
                assert_eq!(r.partial_cmp(&i), Some(expected), "{}/{} against {}", n, d, x);
                assert_eq!(i.partial_cmp_rational(&r), Some(reverse(expected)));
            }
        }
    }
}

#[test]
fn rational_floor_log_base_2_of_abs() {
    let test = |n: i64, d: i64, out: i64| {
        assert_eq!(Rational::from_signeds(n, d).floor_log_base_2_of_abs(), out);
    };
    test(1, 1, 0);
    test(3, 1, 1);
    test(-3, 1, 1);
    test(4, 1, 2);
    test(1, 2, -1);
    test(1, 3, -2);
    test(2, 3, -1);
    test(3, 2, 0);
    test(22, 7, 1);
    test(-1, 1 << 40, -40);
    test(1 << 40, 3, 38);
    assert_eq!(Rational::from_signeds(-22, 7).sign_ordering(), Ordering::Less);
    assert_eq!(Rational::zero().sign_ordering(), Ordering::Equal);
    assert!(Rational::zero().is_zero());
}

#[test]
fn rational_strings() {
    let test = |n: i64, d: i64, out: &str| {
        let r = Rational::from_signeds(n, d);
        assert_eq!(r.to_string(), out);
        let back = Rational::from_str(out).unwrap();
        assert!(back.is_valid());
        assert_eq!(show(&back), show(&r));
    };
    test(0, 1, "0");
    test(22, 7, "22/7");
    test(-22, 7, "-22/7");
    test(44, -14, "-22/7");
    test(-6, 3, "-2");
    test(1, i64::MAX, "1/9223372036854775807");
    assert_eq!(show(&Rational::from_str("4/6").unwrap()), "2/3");
    assert_eq!(show(&Rational::from_str("-004/006").unwrap()), "-2/3");
    assert_eq!(show(&Rational::from_str("0/5").unwrap()), "0/1");
    assert_eq!(show(&Rational::from_str("-0/5").unwrap()), "0/1");
    assert_eq!(show(&Rational::from_str("123456").unwrap()), "123456/1");
    assert_eq!(
        Rational::from_str("1000000000000000000000000/3000000000000").unwrap().to_string(),
        "1000000000000/3"
    );
    let malformed = [
        "", "/", "1/", "/1", "1/0", "1/-2", "1//2", "1/2/3", "a/2", "1/2 ", "\u{e9}/2", "1/\u{e9}",
    ];
    for s in malformed {
        assert!(Rational::from_str(s).is_none(), "{:?}", s);
    }
}

#[test]
fn rational_cmp() {
    let values = [(-22i64, 7i64), (-3, 1), (-1, 2), (0, 1), (1, 3), (1, 2), (3, 1), (22, 7), (4, 1)];
    for &(n1, d1) in &values {
        for &(n2, d2) in &values {
            let a = Rational::from_signeds(n1, d1);
            let b = Rational::from_signeds(n2, d2);
            let expected = (n1 * d2).cmp(&(n2 * d1));
            assert_eq!(a.cmp(&b), expected);
            assert_eq!(a.equals(&b), expected == Ordering::Equal);
        }
        for x in [-4i64, -3, 0, 1, 3, 4] {
            let a = Rational::from_signeds(n1, d1);
            let i = Integer::from_i64(x);
            assert_eq!(a.partial_cmp(&i), Some(a.cmp(&Rational::from_integer(i.clone()))));
        }
    }
}
