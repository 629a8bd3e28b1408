use num_bigint::BigInt;
use sra_cipher::keygen::{generate_key_pair, generate_phi_n, get_fixed_sized_prime, GenError};
use sra_cipher::modexp::{decrypt, encrypt};

#[test]
fn test_get_fixed_sized_prime_exact_bits() {
    let mut rng = rand::thread_rng();
    for _ in 0..20 {
        let p = get_fixed_sized_prime(&mut rng, 16).expect("16-bit primes are plentiful");
        assert_eq!(p.bits(), 16);
    }
}

#[test]
fn test_prime_sampling_varies() {
    // Repetition-tolerant: among many draws, near-misses are allowed but
    // the sampler must not keep returning the same prime.
    let mut rng = rand::thread_rng();
    let mut seen: Vec<BigInt> = Vec::new();
    for _ in 0..40 {
        let p = get_fixed_sized_prime(&mut rng, 16).expect("16-bit primes are plentiful");
        seen.push(p);
    }
    let mut distinct: Vec<&BigInt> = Vec::new();
    for p in &seen {
        if !distinct.contains(&p) {
            distinct.push(p);
        }
    }
    assert!(distinct.len() >= 30, "only {} distinct primes in 40 draws", distinct.len());
}

#[test]
fn test_get_fixed_sized_prime_impossible_length() {
    // The only value of bit length 1 is 1, which is not prime, so the
    // sampler must exhaust its attempts and report it.
    let mut rng = rand::thread_rng();
    assert_eq!(get_fixed_sized_prime(&mut rng, 1), Err(GenError::BitLengthUnsatisfied));
}

#[test]
fn test_generate_phi_n_exact_bits() {
    let mut rng = rand::thread_rng();
    for bit_size in [16usize, 32, 64, 128] {
        let (phi, n) = generate_phi_n(&mut rng, bit_size).expect("such moduli exist");
        assert_eq!(n.bits(), bit_size as u64);
        assert!(phi >= BigInt::from(1u32));
        assert!(phi < n);
    }
}

#[test]
fn test_generate_phi_n_unsatisfiable() {
    // Half of 2 is 1, and no prime has bit length 1.
    let mut rng = rand::thread_rng();
    assert_eq!(generate_phi_n(&mut rng, 2), Err(GenError::BitLengthUnsatisfied));
}

#[test]
fn test_generate_key_pair_validity() {
    let mut rng = rand::thread_rng();
    let one = BigInt::from(1u32);
    let (phi, _n) = generate_phi_n(&mut rng, 32).expect("such moduli exist");
    for _ in 0..8 {
        let (e, d) = generate_key_pair(&mut rng, &phi).expect("a coprime exponent turns up");
        assert!(one < e);
        assert!(e < phi);
        assert!(one < d);
        assert!(d < phi);
        assert_eq!((&e * &d) % &phi, one.clone());
    }
}

#[test]
fn test_generate_large_key_pair() {
    let mut rng = rand::thread_rng();
    let one = BigInt::from(1u32);
    for bit_size in [256usize, 512] {
        let (phi, n) = generate_phi_n(&mut rng, bit_size).expect("such moduli exist");
        assert_eq!(n.bits(), bit_size as u64);
        let (e, d) = generate_key_pair(&mut rng, &phi).expect("a coprime exponent turns up");
        assert!(one < e);
        assert!(e < phi);
        assert!(one < d);
        assert!(d < phi);
        assert_eq!((&e * &d) % &phi, one.clone());
    }
}

#[test]
fn test_generate_key_pair_exhausts_on_tiny_totient() {
    // With phi = 2 the only candidate exponent is 2 itself, which shares
    // a divisor with phi, so derivation gives up.
    let mut rng = rand::thread_rng();
    let phi = BigInt::from(2u32);
    assert_eq!(generate_key_pair(&mut rng, &phi), Err(GenError::NoUsableExponent));
}

#[test]
fn test_double_lock_with_generated_keys() {
    // Two independently derived key pairs over one shared modulus lock
    // and unlock in either order.
    let mut rng = rand::thread_rng();
    let (phi, n) = generate_phi_n(&mut rng, 32).expect("such moduli exist");
    let (e1, d1) = generate_key_pair(&mut rng, &phi).expect("a coprime exponent turns up");
    let (e2, d2) = generate_key_pair(&mut rng, &phi).expect("a coprime exponent turns up");
    let message = BigInt::from(63u32);

    let alice_cipher = encrypt(&message, &e1, &n);
    let bob_cipher = encrypt(&alice_cipher, &e2, &n);

    // Bob then Alice.
    let unlocked_ba = decrypt(&decrypt(&bob_cipher, &d2, &n), &d1, &n);
    assert_eq!(unlocked_ba, message);

    // Alice then Bob.
    let unlocked_ab = decrypt(&decrypt(&bob_cipher, &d1, &n), &d2, &n);
    assert_eq!(unlocked_ab, message);
}
