use exact_num::natural::add::limbs_add;
use exact_num::natural::div::{limbs_div_limb, limbs_div_mod};
use exact_num::natural::logic::{limbs_and, limbs_or, limbs_xor};
use exact_num::natural::mul::{limbs_mul, limbs_mul_limb_add};
use exact_num::natural::order::limbs_sign_of_difference;
use exact_num::natural::sub::limbs_sub;
use exact_num::natural::Natural;
use exact_num::random::{example_seed, random_limbs};
use exact_num::rounding_modes::RoundingMode::{Ceiling, Down, Exact, Floor, Nearest, Up};
use num::{BigUint, Integer, Zero};
use std::cmp::Ordering::{Equal, Greater, Less};

fn natural(s: &str) -> Natural {
    let x = Natural::from_str(s).unwrap();
    assert!(x.is_valid());
    x
}

fn big(x: &Natural) -> BigUint {
    BigUint::new(x.to_limbs_asc())
}

fn samples() -> Vec<Natural> {
    let mut out: Vec<Natural> = [
        "0",
        "1",
        "2",
        "3",
        "10",
        "4294967295",
        "4294967296",
        "4294967297",
        "18446744073709551615",
        "18446744073709551616",
        "340282366920938463463374607431768211455",
        "340282366920938463463374607431768211456",
        "1000000000000000000000000",
    ]
    .iter()
    .map(|s| natural(s))
    .collect();
    let mut xs = random_limbs(example_seed());
    for count in [1u64, 2, 3, 5, 8, 13] {
        out.push(Natural::from_owned_limbs_asc(xs.next_limbs(count)));
    }
    out
}

#[test]
fn natural_representation() {
    assert!(Natural::Small(0).is_valid());
    assert!(Natural::Large(vec![0, 1]).is_valid());
    assert!(!Natural::Large(vec![5]).is_valid());
    assert!(!Natural::Large(vec![5, 0]).is_valid());
    assert!(!Natural::Large(vec![]).is_valid());
    let x = Natural::from_owned_limbs_asc(vec![7, 0, 0]);
    assert!(matches!(x, Natural::Small(7)));
    let y = Natural::from_owned_limbs_asc(vec![7, 9, 0]);
    assert!(matches!(y, Natural::Large(_)));
    assert_eq!(y.to_limbs_asc(), vec![7, 9]);
    assert_eq!(y.limb_count(), 2);
    assert_eq!(Natural::zero().to_limbs_asc(), Vec::<u32>::new());
    assert_eq!(Natural::from_limbs_asc(&[1, 2, 3]).into_limbs_asc(), vec![1, 2, 3]);
    assert_eq!(Natural::from_u64(u64::MAX).to_string(), "18446744073709551615");
    assert!(matches!(Natural::from_u64(5), Natural::Small(5)));
    assert_eq!(Natural::one().clone().to_string(), "1");
}

#[test]
fn natural_add_sub_mul_agree_with_another_library() {
    let xs = samples();
    for x in &xs {
        for y in &xs {
            let (a, b) = (big(x), big(y));
            let sum = x.add(y);
            assert!(sum.is_valid());
            assert_eq!(big(&sum), &a + &b);
            let product = x.mul(y);
            assert!(product.is_valid());
            assert_eq!(big(&product), &a * &b);
            match x.checked_sub(y) {
                Some(d) => {
                    assert!(d.is_valid());
                    assert!(a >= b);
                    assert_eq!(big(&d), &a - &b);
                    assert_eq!(big(&x.sub(y)), &a - &b);
                }
                None => assert!(a < b),
            }
            assert_eq!(x.cmp(y), a.cmp(&b));
            assert_eq!(x.partial_cmp(y), Some(a.cmp(&b)));
            assert_eq!(x.equals(y), a == b);
            assert_eq!(x.less_than(y), a < b);
            assert_eq!(x.at_most(y), a <= b);
        }
    }
}

#[test]
fn natural_div_mod_gcd_agree_with_another_library() {
    let xs = samples();
    for x in &xs {
        for y in &xs {
            let (a, b) = (big(x), big(y));
            let g = x.gcd(y);
            assert!(g.is_valid());
            assert_eq!(big(&g), a.gcd(&b));
            let divisible = if b.is_zero() { a.is_zero() } else { (&a % &b).is_zero() };
            assert_eq!(x.divisible_by(y), divisible);
            if y.is_zero() {
                continue;
            }
            let (q, r) = x.div_mod(y);
            assert!(q.is_valid());
            assert!(r.is_valid());
            assert_eq!(big(&q), &a / &b);
            assert_eq!(big(&r), &a % &b);
            assert_eq!(big(&x.div(y)), &a / &b);
            assert_eq!(big(&x.rem(y)), &a % &b);
        }
    }
}

#[test]
fn natural_underflow_is_reported() {
    assert!(natural("5").checked_sub(&natural("6")).is_none());
    assert!(natural("4294967296").checked_sub(&natural("4294967297")).is_none());
    assert_eq!(natural("4294967296").checked_sub(&natural("1")).unwrap().to_string(), "4294967295");
    assert_eq!(natural("7").checked_sub(&natural("7")).unwrap().to_string(), "0");
}

#[test]
fn limb_functions() {
    assert_eq!(limbs_add(&[u32::MAX, u32::MAX], &[1]), vec![0, 0, 1]);
    assert_eq!(limbs_add(&[], &[]), Vec::<u32>::new());
    assert_eq!(limbs_sub(&[0, 0, 1], &[1]), (vec![u32::MAX, u32::MAX, 0], false));
    assert_eq!(limbs_sub(&[1], &[2]), (vec![u32::MAX], true));
    assert_eq!(limbs_mul(&[u32::MAX], &[u32::MAX]), vec![1, u32::MAX - 1]);
    assert_eq!(limbs_mul(&[], &[5]), vec![0]);
    assert_eq!(limbs_mul_limb_add(&[u32::MAX, 1], 10, 7), vec![u32::MAX - 2, 19]);
    assert_eq!(limbs_div_limb(&[1, 1], 2), (vec![0x8000_0000, 0], 1));
    assert_eq!(limbs_div_mod(&[0, 0, 1], &[0, 1]), (vec![0, 1], vec![]));
    assert_eq!(limbs_div_mod(&[5, 7, 1], &[3, 2]), {
        let x = BigUint::new(vec![5, 7, 1]);
        let y = BigUint::new(vec![3, 2]);
        ((&x / &y).to_u32_digits(), (&x % &y).to_u32_digits())
    });
    assert_eq!(limbs_sign_of_difference(&[1, 2], &[2, 1]), 1);
    assert_eq!(limbs_sign_of_difference(&[1, 2], &[1, 2]), 0);
    assert_eq!(limbs_sign_of_difference(&[9], &[1, 2]), -1);
    assert_eq!(limbs_and(&[0b1100, 7, 9], &[0b1010, 5]), vec![0b1000, 5]);
    assert_eq!(limbs_or(&[0b1100, 7, 9], &[0b1010, 5]), vec![0b1110, 7, 9]);
    assert_eq!(limbs_xor(&[0b1100, 7, 9], &[0b1010, 5]), vec![0b0110, 2, 9]);
}

#[test]
fn natural_bit_logic() {
    let x = natural("340282366920938463463374607431768211455");
    let y = natural("18446744073709551616");
    assert_eq!(x.and(&y).to_string(), "18446744073709551616");
    assert_eq!(x.or(&y).to_string(), "340282366920938463463374607431768211455");
    assert_eq!(x.xor(&y).to_string(), "340282366920938463444927863358058659839");
    assert_eq!(x.xor(&x).to_string(), "0");
    assert!(x.xor(&x).is_valid());
}

#[test]
fn natural_bits_and_powers() {
    assert_eq!(Natural::zero().significant_bits(), 0);
    assert_eq!(natural("1").significant_bits(), 1);
    assert_eq!(natural("4294967295").significant_bits(), 32);
    assert_eq!(natural("4294967296").significant_bits(), 33);
    assert_eq!(natural("340282366920938463463374607431768211456").significant_bits(), 129);
    assert_eq!(Natural::power_of_2(0).to_string(), "1");
    assert_eq!(Natural::power_of_2(31).to_string(), "2147483648");
    assert_eq!(Natural::power_of_2(32).to_string(), "4294967296");
    assert_eq!(Natural::power_of_2(100).to_string(), "1267650600228229401496703205376");
    assert_eq!(natural("3").shl(100).to_string(), "3802951800684688204490109616128");
    assert_eq!(natural("1000000000001").mod_power_of_two(12).to_string(), "1");
    assert_eq!(natural("1000000000001").mod_power_of_two(13).to_string(), "4097");
    assert_eq!(natural("1000000000001").mod_power_of_two(0).to_string(), "0");
    assert_eq!(natural("1000000000001").mod_power_of_two(64).to_string(), "1000000000001");
    assert_eq!(
        natural("340282366920938463463374607431768211455").mod_power_of_two(96).to_string(),
        "79228162514264337593543950335"
    );
    assert!(natural("13").eq_mod_power_of_two(&natural("21"), 3));
    assert!(!natural("13").eq_mod_power_of_two(&natural("21"), 4));
    assert!(natural("4294967296").is_even());
    assert!(!natural("4294967297").is_even());
    assert!(natural("0").is_even());
}

#[test]
fn natural_div_round() {
    let test = |x: &str, y: &str, rm, q: &str, o| {
        let (r, ordering) = natural(x).div_round(&natural(y), rm);
        assert!(r.is_valid());
        assert_eq!((r.to_string().as_str(), ordering), (q, o));
    };
    test("10", "4", Down, "2", Less);
    test("10", "4", Floor, "2", Less);
    test("10", "4", Up, "3", Greater);
    test("10", "4", Ceiling, "3", Greater);
    test("10", "5", Exact, "2", Equal);
    test("10", "3", Nearest, "3", Less);
    test("20", "3", Nearest, "7", Greater);
    test("10", "4", Nearest, "2", Less);
    test("14", "4", Nearest, "4", Greater);
    test("0", "7", Up, "0", Equal);
    test("1000000000000000000000000", "1000000000000", Exact, "1000000000000", Equal);
    test("1000000000000000000000001", "1000000000000", Ceiling, "1000000000001", Greater);
}

#[test]
fn natural_round_to_multiple() {
    let test = |x: &str, y: &str, rm, m: &str, o| {
        let (r, ordering) = natural(x).round_to_multiple(&natural(y), rm);
        assert!(r.is_valid());
        assert_eq!((r.to_string().as_str(), ordering), (m, o));
    };
    test("0", "0", Exact, "0", Equal);
    test("0", "0", Up, "0", Equal);
    test("5", "0", Down, "0", Less);
    test("5", "0", Floor, "0", Less);
    test("5", "0", Nearest, "0", Less);
    test("10", "4", Down, "8", Less);
    test("10", "4", Up, "12", Greater);
    test("10", "5", Exact, "10", Equal);
    test("10", "3", Nearest, "9", Less);
    test("20", "3", Nearest, "21", Greater);
    test("10", "4", Nearest, "8", Less);
    test("14", "4", Nearest, "16", Greater);
    test("10", "4", Floor, "8", Less);
    test("10", "4", Ceiling, "12", Greater);
    test("4294967299", "4294967296", Up, "8589934592", Greater);
}

#[test]
fn natural_rounding_that_cannot_be_done() {
    let can = |x: &str, m: &str, rm| natural(x).can_round_to_multiple_of(&natural(m), rm);
    assert!(can("0", "0", Exact));
    assert!(can("5", "0", Down));
    assert!(can("5", "0", Floor));
    assert!(can("5", "0", Nearest));
    assert!(!can("5", "0", Up));
    assert!(!can("5", "0", Ceiling));
    assert!(!can("5", "0", Exact));
    assert!(can("10", "5", Exact));
    assert!(!can("10", "4", Exact));
    let can_div = |x: &str, y: &str, rm| natural(x).can_div_round_by(&natural(y), rm);
    assert!(!can_div("0", "0", Down));
    assert!(can_div("10", "5", Exact));
    assert!(!can_div("10", "4", Exact));
    assert!(can_div("10", "4", Ceiling));
}
