use exact_num::natural::random::{
    get_random_natural_with_bits, get_random_natural_with_up_to_bits,
    natural_up_to_bits_from_limbs, natural_with_bits_from_limbs, random_natural_up_to_bits,
};
use exact_num::random::{example_seed, random_limbs, RandomLimbs, Seed};
use rand::{RngCore, SeedableRng};
use rand_chacha::ChaCha20Rng;

fn get_random_natural_with_bits_helper(bits: u64, out: &str) {
    assert_eq!(
        get_random_natural_with_bits(&mut random_limbs(example_seed()), bits).to_string(),
        out
    );
}

#[test]
fn test_get_random_natural_with_bits() {
    get_random_natural_with_bits_helper(0, "0");
    get_random_natural_with_bits_helper(1, "1");
    get_random_natural_with_bits_helper(10, "881");
    get_random_natural_with_bits_helper(100, "976558340558744279591984426865");
    get_random_natural_with_bits_helper(
        1000,
        "987155559331138858373066802857294797227337039158487316682786744595637977633186240361413701\
        0240679811389700642404293916880391529744438580436267309669605743557526364970431150933385398\
        3656197605680428663668911754185572635377576510237140480985253354471771499012869776666692287\
        34508013967448659203593727857"
    );
}

fn get_random_natural_with_up_to_bits_helper(bits: u64, out: &str) {
    assert_eq!(
        get_random_natural_with_up_to_bits(&mut random_limbs(example_seed()), bits).to_string(),
        out
    );
}

#[test]
fn test_get_random_natural_with_up_to_bits() {
    get_random_natural_with_up_to_bits_helper(0, "0");
    get_random_natural_with_up_to_bits_helper(1, "1");
    get_random_natural_with_up_to_bits_helper(10, "881");
    get_random_natural_with_up_to_bits_helper(100, "976558340558744279591984426865");
    get_random_natural_with_up_to_bits_helper(
        1000,
        "451401255738005197898854278327293891946634633305720512960911550410462452070718179114814511\
        6162200520751727277816528182754455803315977010218275020882256456155559081083019035440674861\
        0630885749971038892758146521810654725671239516399344653265522969157198643030481343955853985\
        19592187655255240600759693169",
    );
}

#[test]
fn random_natural_up_to_bits_is_reproducible() {
    let a = random_natural_up_to_bits(&mut random_limbs(example_seed()), 100);
    let b = random_natural_up_to_bits(&mut random_limbs(example_seed()), 100);
    assert_eq!(a.to_string(), b.to_string());
    assert_eq!(a.to_string(), "976558340558744279591984426865");
}

#[test]
fn up_to_bits_masks_and_with_bits_forces_the_top_bit() {
    // 0b0101 with 3 bits: masked to 0b101 = 5 either way.
    assert_eq!(natural_up_to_bits_from_limbs(vec![0b0101], 3).to_string(), "5");
    assert_eq!(natural_with_bits_from_limbs(vec![0b0101], 3).to_string(), "5");
    // 0b0011 with 3 bits: masked to 3; with the top bit forced, 7.
    assert_eq!(natural_up_to_bits_from_limbs(vec![0b0011], 3).to_string(), "3");
    assert_eq!(natural_with_bits_from_limbs(vec![0b0011], 3).to_string(), "7");
    // Across a limb boundary: 33 bits of all ones.
    assert_eq!(
        natural_up_to_bits_from_limbs(vec![u32::MAX, u32::MAX], 33).to_string(),
        "8589934591"
    );
    assert_eq!(natural_with_bits_from_limbs(vec![0, 0], 33).to_string(), "4294967296");
    assert_eq!(natural_with_bits_from_limbs(vec![7, 7], 0).to_string(), "0");
    assert_eq!(natural_up_to_bits_from_limbs(vec![7, 7], 0).to_string(), "0");
}

#[test]
fn random_naturals_lie_in_their_ranges() {
    let mut xs = random_limbs(example_seed());
    for bits in 1..200u64 {
        let x = get_random_natural_with_bits(&mut xs, bits);
        assert!(x.is_valid());
        assert_eq!(x.significant_bits(), bits);
        let y = get_random_natural_with_up_to_bits(&mut xs, bits);
        assert!(y.is_valid());
        assert!(y.significant_bits() <= bits);
    }
}

#[test]
fn random_limbs_are_the_words_of_the_stream() {
    let seed = example_seed();
    let mut expected = ChaCha20Rng::from_seed(seed.bytes);
    let mut xs = random_limbs(seed);
    assert_eq!(xs.position, 0);
    for i in 0..200u128 {
        assert_eq!(xs.position, i);
        assert_eq!(xs.next_limb(), expected.next_u32());
    }
    let drawn = xs.next_limbs(100);
    assert_eq!(xs.position, 300);
    assert_eq!(xs.seed.bytes, seed.bytes);
    for limb in drawn {
        assert_eq!(limb, expected.next_u32());
    }
    assert_eq!(xs.next_limbs(0), Vec::<u32>::new());
    assert_eq!(xs.position, 300);
}

#[test]
fn random_limbs_are_fixed_by_seed_and_position() {
    let mut xs = random_limbs(example_seed());
    let first = xs.next_limbs(40);
    let mut again = RandomLimbs::from_seed(example_seed());
    assert_eq!(again.next_limbs(40), first);
    let mut later = RandomLimbs { seed: example_seed(), position: 17 };
    assert_eq!(later.next_limb(), first[17]);
    assert_eq!(later.position, 18);
    let mut other = random_limbs(Seed { bytes: [7; 32] });
    assert_ne!(other.next_limbs(40), first);
    let mut last = RandomLimbs { seed: example_seed(), position: u128::MAX };
    last.next_limb();
    assert_eq!(last.position, 0);
    assert_eq!(last.next_limb(), first[0]);
}

#[test]
fn random_naturals_take_the_limbs_that_hold_their_bits() {
    let mut xs = random_limbs(example_seed());
    let limbs = xs.next_limbs(4);
    let mut ys = random_limbs(example_seed());
    let x = get_random_natural_with_bits(&mut ys, 100);
    assert_eq!(ys.position, 4);
    assert_eq!(x.to_string(), natural_with_bits_from_limbs(limbs.clone(), 100).to_string());
    let mut zs = random_limbs(example_seed());
    let z = get_random_natural_with_up_to_bits(&mut zs, 100);
    assert_eq!(zs.position, 4);
    assert_eq!(z.to_string(), natural_up_to_bits_from_limbs(limbs, 100).to_string());
    get_random_natural_with_bits(&mut zs, 0);
    assert_eq!(zs.position, 4);
    get_random_natural_with_bits(&mut zs, 33);
    assert_eq!(zs.position, 6);
}
