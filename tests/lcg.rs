use cryptolab::lcg::LCG;
use cryptolab::utils::unique;

#[test]
fn lcg_lecture() {
    let modulus = 1 << 5; // 32
    let multiplier = 7;
    let increment = 0;
    let seed = 1;

    let mut lcg = LCG::new(modulus, multiplier, increment, seed);
    let mut nums = Vec::<u64>::with_capacity(32);

    for _ in 0..5 {
        let num = lcg.next().expect("Failed generate next number!");

        nums.push(num);
    }

    assert_eq!(vec![7, 17, 23, 1, 7], nums);
    assert_eq!(unique(&nums), 4);
}

#[test]
fn lcg_own() {
    let modulus = (1 << 11) - 1; // 2047
    let multiplier = 3_u64.pow(5); // 243
    let increment = 1;
    let seed = 4;

    let mut lcg = LCG::new(modulus, multiplier, increment, seed);

    let mut nums = Vec::<u64>::with_capacity(1000);
    for _ in 0..1000 {
        let num = lcg.next().expect("Failed generate next number!");

        nums.push(num);
    }

    println!("{:?}", nums);
    println!("{}", unique(&nums));

    assert_eq!(nums.len(), 1000);
    assert!(unique(&nums) >= 50);
}

#[test]
fn lcg_first_value_is_exact_step() {
    // (243 * 4 + 1) mod 2047 = 973
    let mut lcg = LCG::new(2047, 243, 1, 4);
    assert_eq!(lcg.next(), Some(973));
    // (243 * 973 + 1) mod 2047 = 236440 mod 2047 = 1035
    assert_eq!(lcg.next(), Some(1035));
}

#[test]
fn lcg_zero_modulus_yields_nothing() {
    let mut lcg = LCG::new(0, 7, 1, 3);
    assert_eq!(lcg.next(), None);
    assert_eq!(lcg.next(), None);
}

#[test]
fn lcg_product_is_not_truncated() {
    // (2^64 - 1) * (2^64 - 2) is a multiple of 2^64 - 1.
    let mut lcg = LCG::new(u64::MAX, u64::MAX, 0, u64::MAX - 1);
    assert_eq!(lcg.next(), Some(0));
    // (2^63 * 3 + 5) mod 2^63 = 5 once the product is kept whole.
    let mut lcg = LCG::new(1 << 63, 1 << 63, 5, 3);
    assert_eq!(lcg.next(), Some(5));
}

#[test]
fn unique_counts_distinct_values() {
    assert_eq!(unique(&vec![]), 0);
    assert_eq!(unique(&vec![5]), 1);
    assert_eq!(unique(&vec![3, 3, 3]), 1);
    assert_eq!(unique(&vec![1, 2, 1, 3, 2, u64::MAX]), 4);
}
