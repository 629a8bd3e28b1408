use num_bigint::BigInt;
use sra_cipher::modexp::{decrypt, encrypt, exp_by_squaring};

fn big(v: u32) -> BigInt {
    BigInt::from(v)
}

#[test]
fn test_exp_by_squaring_zero_exponent() {
    // base^0 mod m == 1 for every base and every m > 1.
    for base in [0u32, 1, 2, 5, 90, 1000] {
        for m in [2u32, 3, 91, 65537] {
            assert_eq!(exp_by_squaring(&big(base), &big(0), &big(m)), big(1));
        }
    }
}

#[test]
fn test_exp_by_squaring_one_exponent() {
    // base^1 mod m == base mod m.
    for base in [0u32, 1, 2, 5, 90, 1000] {
        for m in [2u32, 3, 91, 65537] {
            assert_eq!(exp_by_squaring(&big(base), &big(1), &big(m)), big(base % m));
        }
    }
}

#[test]
fn test_exp_by_squaring_known_values() {
    // 2^10 = 1024; 1024 mod 1000 = 24.
    assert_eq!(exp_by_squaring(&big(2), &big(10), &big(1000)), big(24));
    // 3^7 = 2187; 2187 mod 100 = 87.
    assert_eq!(exp_by_squaring(&big(3), &big(7), &big(100)), big(87));
    // 5^5 = 3125; 3125 mod 91 = 31.
    assert_eq!(exp_by_squaring(&big(5), &big(5), &big(91)), big(31));
}

#[test]
fn test_double_lock_worked_example() {
    // Shared modulus 91; Alice (e1=5, d1=29), Bob (e2=7, d2=31), message 5.
    let n = big(91);
    let message = big(5);

    let alice_cipher = encrypt(&message, &big(5), &n);
    assert_eq!(alice_cipher, big(31));

    let bob_cipher = encrypt(&alice_cipher, &big(7), &n);
    assert_eq!(bob_cipher, big(73));

    // Bob unlocks first, then Alice.
    let after_bob = decrypt(&bob_cipher, &big(31), &n);
    assert_eq!(after_bob, big(31));
    let after_alice = decrypt(&after_bob, &big(29), &n);
    assert_eq!(after_alice, big(5));

    // Alice unlocks first, then Bob.
    let after_alice_first = decrypt(&bob_cipher, &big(29), &n);
    assert_eq!(after_alice_first, big(47));
    let after_bob_second = decrypt(&after_alice_first, &big(31), &n);
    assert_eq!(after_bob_second, big(5));
}

#[test]
fn test_round_trip_all_messages_small_modulus() {
    // n = 91 = 7 * 13, phi = 72, and 5 * 29 = 145 = 2 * 72 + 1.
    let n = big(91);
    let e = big(5);
    let d = big(29);
    for m in 0u32..91 {
        let message = big(m);
        let cipher = encrypt(&message, &e, &n);
        let recovered = decrypt(&cipher, &d, &n);
        assert_eq!(recovered, message);
    }
}

#[test]
fn test_encrypt_decrypt_are_bare_exponentiations() {
    // Encryption and decryption agree with the shared primitive.
    let n = big(3233);
    let e = big(17);
    let d = big(413);
    let m = big(65);
    assert_eq!(encrypt(&m, &e, &n), exp_by_squaring(&m, &e, &n));
    let c = encrypt(&m, &e, &n);
    assert_eq!(decrypt(&c, &d, &n), exp_by_squaring(&c, &d, &n));
    // And the classic textbook values: 65^17 mod 3233 = 2790.
    assert_eq!(c, big(2790));
    assert_eq!(decrypt(&c, &d, &n), big(65));
}
