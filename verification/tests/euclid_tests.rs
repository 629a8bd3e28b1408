use num_bigint::BigInt;
use sra_cipher::euclid::{extended_gcd, mod_inverse};

fn big(v: u32) -> BigInt {
    BigInt::from(v)
}

#[test]
fn test_extended_gcd_known_pair() {
    // gcd(240, 46) = 2, and the coefficients satisfy Bezout's identity.
    let a = big(240);
    let b = big(46);
    let (g, x, y) = extended_gcd(&a, &b);
    assert_eq!(g, big(2));
    assert_eq!(&a * &x + &b * &y, g);
}

#[test]
fn test_extended_gcd_zero_base_case() {
    let (g, x, y) = extended_gcd(&big(0), &big(17));
    assert_eq!(g, big(17));
    assert_eq!(x, big(0));
    assert_eq!(y, big(1));
}

#[test]
fn test_extended_gcd_coprime() {
    let a = big(5);
    let b = big(72);
    let (g, x, y) = extended_gcd(&a, &b);
    assert_eq!(g, big(1));
    assert_eq!(&a * &x + &b * &y, g);
}

#[test]
fn test_mod_inverse_known_values() {
    // 3 * 5 = 15 = 2 * 7 + 1.
    assert_eq!(mod_inverse(&big(3), &big(7)), Some(big(5)));
    // 5 * 29 = 145 = 2 * 72 + 1: the worked example's private exponent.
    assert_eq!(mod_inverse(&big(5), &big(72)), Some(big(29)));
    // 7 * 31 = 217 = 3 * 72 + 1: the second participant's.
    assert_eq!(mod_inverse(&big(7), &big(72)), Some(big(31)));
}

#[test]
fn test_mod_inverse_none_when_not_coprime() {
    assert_eq!(mod_inverse(&big(4), &big(8)), None);
    assert_eq!(mod_inverse(&big(6), &big(9)), None);
    assert_eq!(mod_inverse(&big(0), &big(5)), None);
}

#[test]
fn test_mod_inverse_result_in_range() {
    for a in 1u32..40 {
        let m = big(41);
        let inv = mod_inverse(&big(a), &m).expect("41 is prime, every residue has an inverse");
        assert!(inv >= big(0));
        assert!(inv < m);
        assert_eq!((big(a) * inv) % m, big(1));
    }
}
