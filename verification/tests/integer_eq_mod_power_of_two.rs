use exact_num::integer::Integer;
use exact_num::natural::Natural;

#[test]
fn test_eq_mod_power_of_two() {
    let test = |x, y, pow, out| {
        assert_eq!(
            Integer::from_str(x)
                .unwrap()
                .eq_mod_power_of_two(&Integer::from_str(y).unwrap(), pow),
            out
        );
    };
    test("0", "256", 8, true);
    test("0", "256", 9, false);

    test("13", "21", 0, true);
    test("13", "21", 1, true);
    test("13", "21", 2, true);
    test("13", "21", 3, true);
    test("13", "21", 4, false);
    test("13", "21", 100, false);
    test("1000000000001", "1", 12, true);
    test("1000000000001", "1", 13, false);
    test("4294967295", "4294967295", 32, true);
    test("281474976710672", "844424930131984", 49, true);
    test("281474976710672", "844424930131984", 50, false);

    test("0", "-256", 8, true);
    test("0", "-256", 9, false);
    test("-13", "27", 0, true);
    test("-13", "27", 1, true);
    test("-13", "27", 2, true);
    test("-13", "27", 3, true);
    test("-13", "27", 4, false);
    test("-13", "27", 100, false);
    test("13", "-27", 0, true);
    test("13", "-27", 1, true);
    test("13", "-27", 2, true);
    test("13", "-27", 3, true);
    test("13", "-27", 4, false);
    test("13", "-27", 100, false);
    test("-1000000000001", "4095", 13, true);
    test("-1000000000001", "4095", 14, false);
    test("1000000000001", "-4095", 13, true);
    test("1000000000001", "-4095", 14, false);
    test("4294967295", "-1", 32, true);
    test("-1", "4294967295", 32, true);

    test("-13", "-21", 0, true);
    test("-13", "-21", 1, true);
    test("-13", "-21", 2, true);
    test("-13", "-21", 3, true);
    test("-13", "-21", 4, false);
    test("-13", "-21", 100, false);
    test("-1000000000001", "-1", 12, true);
    test("-1000000000001", "-1", 13, false);
    test("-4294967295", "-4294967295", 32, true);
    test("-281474976710672", "-844424930131984", 49, true);
    test("-281474976710672", "-844424930131984", 50, false);

    test("1311693408901639117", "-17135050664807912499", 64, true);
    test("1311693408901639117", "-17135050663395328000", 64, false);
    test("1311693408901639117", "-17135050664807912499", 65, false);
    test("1311693408901639117", "-17135050664807912499", 128, false);
    test(
        "5633680281231555440641310720",
        "-5634717283396403096794955776",
        80,
        true,
    );

    test("-1311693408901639117", "17135050664807912499", 64, true);
    test("-1311693408901639117", "17135050663395328000", 64, false);
    test("-1311693408901639117", "17135050664807912499", 65, false);
    test("-1311693408901639117", "17135050664807912499", 128, false);
    test(
        "-5633680281231555440641310720",
        "5634717283396403096794955776",
        80,
        true,
    );
}

fn sample_integers() -> Vec<Integer> {
    [
        "0",
        "1",
        "-1",
        "2",
        "13",
        "-13",
        "21",
        "-21",
        "27",
        "256",
        "-256",
        "4095",
        "4294967295",
        "-4294967295",
        "4294967296",
        "-4294967296",
        "1000000000001",
        "-1000000000001",
        "281474976710672",
        "844424930131984",
        "1311693408901639117",
        "-17135050664807912499",
        "5633680281231555440641310720",
        "-5634717283396403096794955776",
        "340282366920938463463374607431768211456",
        "-340282366920938463463374607431768211455",
    ]
    .iter()
    .map(|s| Integer::from_str(s).unwrap())
    .collect()
}

fn sample_pows() -> Vec<u64> {
    vec![0, 1, 2, 3, 4, 8, 12, 13, 31, 32, 33, 49, 50, 63, 64, 65, 80, 100, 128, 129]
}

#[test]
fn eq_mod_power_of_two_properties() {
    let xs = sample_integers();
    let pows = sample_pows();
    for x in &xs {
        for y in &xs {
            for &pow in &pows {
                let eq_mod_power_of_two = x.eq_mod_power_of_two(y, pow);
                assert_eq!(y.eq_mod_power_of_two(x, pow), eq_mod_power_of_two);
                assert_eq!(
                    x.mod_power_of_two(pow).equals(&y.mod_power_of_two(pow)),
                    eq_mod_power_of_two,
                );
                // The difference is then a multiple of the power of two.
                let power = Integer::from_natural(Natural::power_of_2(pow));
                assert_eq!(x.sub(y).divisible_by(&power), eq_mod_power_of_two);
            }
        }
    }

    for n in &xs {
        for &pow in &pows {
            assert!(n.eq_mod_power_of_two(n, pow));
            let divisible = n.mod_power_of_two(pow).is_zero();
            assert_eq!(n.eq_mod_power_of_two(&Integer::zero(), pow), divisible);
            assert_eq!(Integer::zero().eq_mod_power_of_two(n, pow), divisible);
        }
    }

    for x in &xs {
        for y in &xs {
            for z in &xs {
                for &pow in &[1u64, 3, 13, 32, 64] {
                    if x.eq_mod_power_of_two(y, pow) && y.eq_mod_power_of_two(z, pow) {
                        assert!(x.eq_mod_power_of_two(z, pow));
                    }
                }
            }
        }
    }

    for x in &xs {
        for y in &xs {
            assert!(x.eq_mod_power_of_two(y, 0));
        }
    }

    for x in &xs {
        for &y in &[0u32, 1, 13, 255, u32::MAX] {
            for &pow in &pows {
                let equal = x.eq_mod_power_of_two(&Integer::from_u32(y), pow);
                assert_eq!(Integer::from_u32(y).eq_mod_power_of_two(x, pow), equal);
            }
        }
        for &y in &[0i32, 1, -1, 13, -13, i32::MAX, i32::MIN] {
            for &pow in &pows {
                let equal = x.eq_mod_power_of_two(&Integer::from_i32(y), pow);
                assert_eq!(Integer::from_i32(y).eq_mod_power_of_two(x, pow), equal);
            }
        }
    }

    for x in &xs {
        for y in &xs {
            if x.is_negative() || y.is_negative() {
                continue;
            }
            for &pow in &pows {
                assert_eq!(
                    x.unsigned_abs_ref().eq_mod_power_of_two(y.unsigned_abs_ref(), pow),
                    x.eq_mod_power_of_two(y, pow),
                );
            }
        }
    }
}
