use exact_num::natural::logic::{limbs_not, limbs_not_in_place, limbs_not_to_out};
use exact_num::natural::Natural;

#[test]
fn test_limbs_not_and_limbs_not_in_place() {
    let test = |xs: &[u32], out: &[u32]| {
        assert_eq!(limbs_not(xs), out);

        let mut mut_xs = xs.to_vec();
        limbs_not_in_place(&mut mut_xs);
        assert_eq!(mut_xs, out);
    };
    test(&[], &[]);
    test(&[0, 1, 2], &[u32::MAX, u32::MAX - 1, u32::MAX - 2]);
    test(&[u32::MAX, u32::MAX - 1, u32::MAX - 2], &[0, 1, 2]);
}

#[test]
fn test_limbs_not_to_out() {
    let test = |xs: &[u32], out_before: &[u32], out_after: &[u32]| {
        let mut mut_out = out_before.to_vec();
        limbs_not_to_out(&mut mut_out, xs);
        assert_eq!(mut_out, out_after);
    };
    test(&[], &[], &[]);
    test(&[0x11111111], &[5], &[0xeeeeeeee]);
    test(
        &[0xffff0000, 0xf0f0f0f0],
        &[0, 1, 2],
        &[0xffff, 0xf0f0f0f, 2],
    );
}

#[test]
fn test_not() {
    let test = |s, out: &str| {
        let not = Natural::from_str(s).unwrap().not();
        assert!(not.is_valid());
        assert_eq!(not.to_string(), out);

        let not = (&Natural::from_str(s).unwrap()).not();
        assert!(not.is_valid());
        assert_eq!(not.to_string(), out);
    };
    test("0", "-1");
    test("123", "-124");
    test("1000000000000", "-1000000000001");
    test("2147483647", "-2147483648");
}

#[test]
fn limbs_not_twice_gives_the_limbs_back() {
    let xs: Vec<u32> = vec![0, 1, 0x8000_0000, u32::MAX, 0x1234_5678];
    assert_eq!(limbs_not(&limbs_not(&xs)), xs);
}
