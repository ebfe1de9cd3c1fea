use exact_num::natural::exhaustive::exhaustive_natural_range_to_infinity;
use exact_num::natural::Natural;

fn exhaustive_natural_range_to_infinity_helper(a: Natural, values: &str) {
    let xs: Vec<String> = exhaustive_natural_range_to_infinity(a)
        .take(20)
        .iter()
        .map(|x| x.to_string())
        .collect();
    assert_eq!(format!("[{}]", xs.join(", ")), values);
}

#[test]
fn test_exhaustive_natural_range_to_infinity() {
    exhaustive_natural_range_to_infinity_helper(
        Natural::zero(),
        "[0, 1, 2, 3, 4, 5, 6, 7, 8, 9, 10, 11, 12, 13, 14, 15, 16, 17, 18, 19]",
    );
    exhaustive_natural_range_to_infinity_helper(
        Natural::from_u32(10),
        "[10, 11, 12, 13, 14, 15, 16, 17, 18, 19, 20, 21, 22, 23, 24, 25, 26, 27, 28, 29]",
    );
}

#[test]
fn exhaustive_range_crosses_the_word_boundary() {
    let mut xs = exhaustive_natural_range_to_infinity(Natural::from_u32(u32::MAX));
    assert_eq!(xs.next().to_string(), "4294967295");
    let x = xs.next();
    assert!(x.is_valid());
    assert_eq!(x.to_string(), "4294967296");
    assert_eq!(xs.next().to_string(), "4294967297");
}
