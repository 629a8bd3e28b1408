//! Square-and-multiply modular exponentiation, the shared primitive behind
//! encryption and decryption, and the algebraic lemmas that make two key
//! pairs over one modulus commute.

use vstd::prelude::*;
use vstd::arithmetic::power::pow;
use vstd::arithmetic::power::lemma_pow0;
use vstd::arithmetic::power::lemma_pow1;
use vstd::arithmetic::power::lemma_pow_adds;
use vstd::arithmetic::power::lemma_pow_multiplies;
use vstd::arithmetic::power::lemma_pow_mod_noop;
use vstd::arithmetic::div_mod::lemma_mod_bound;
use vstd::arithmetic::div_mod::lemma_small_mod;
use vstd::arithmetic::div_mod::lemma_mul_mod_noop_general;
use crate::arith::pow_mod;
use crate::bigint::big_value;
use crate::bigint::big_from_u64;
use crate::bigint::big_half;
use crate::bigint::big_is_even;
use crate::bigint::big_is_zero;
use crate::bigint::big_mul;
use crate::bigint::big_rem;
use crate::bigint::big_sub;

verus! {

/// `base ^ exp mod modulus` by binary exponentiation: a zero exponent
/// yields one, an even exponent squares the half power, an odd exponent
/// multiplies the squared half power by the base once more; every product
/// is reduced at once.
pub fn exp_by_squaring(
    base: &num_bigint::BigInt,
    exp: &num_bigint::BigInt,
    modulus: &num_bigint::BigInt,
) -> (r: num_bigint::BigInt)
    requires
        big_value(*base) >= 0,
        big_value(*exp) >= 0,
        big_value(*modulus) > 1,
    ensures
        big_value(r) == pow_mod(big_value(*base), big_value(*exp) as nat, big_value(*modulus)),
        0 <= big_value(r) < big_value(*modulus),
    decreases big_value(*exp),
{
    let ghost b = big_value(*base);
    let ghost e = big_value(*exp) as nat;
    let ghost m = big_value(*modulus);
    if big_is_zero(exp) {
        let one = big_from_u64(1);
        proof {
            lemma_pow0(b);
            lemma_small_mod(1, m as nat);
        }
        one
    } else if big_is_even(exp) {
        let half = big_half(exp);
        let half_exp = exp_by_squaring(base, &half, modulus);
        let sq = big_mul(&half_exp, &half_exp);
        let r = big_rem(&sq, modulus);
        proof {
            let k = (e / 2) as nat;
            let h = big_value(half_exp);
            let p = pow(b, k);
            assert(h * h >= 0) by (nonlinear_arith)
                requires h >= 0,
            ;
            assert(big_value(r) == (h * h) % m);
            lemma_mul_mod_noop_general(p, p, m);
            assert((h * h) % m == (p * p) % m);
            lemma_pow_adds(b, k, k);
            assert(k + k == e);
            assert(p * p == pow(b, e));
            lemma_mod_bound(h * h, m);
        }
        r
    } else {
        let one = big_from_u64(1);
        let decremented = big_sub(exp, &one);
        let half = big_half(&decremented);
        let half_exp = exp_by_squaring(base, &half, modulus);
        let t = big_mul(base, &half_exp);
        let t2 = big_mul(&t, &half_exp);
        let r = big_rem(&t2, modulus);
        proof {
            let k = ((e - 1) / 2) as nat;
            let h = big_value(half_exp);
            let p = pow(b, k);
            assert(b * h * h >= 0) by (nonlinear_arith)
                requires b >= 0 && h >= 0,
            ;
            assert(big_value(r) == (b * h * h) % m);
            assert((b * h) * h == h * (b * h)) by (nonlinear_arith);
            lemma_mul_mod_noop_general(p, b * h, m);
            assert((h * (b * h)) % m == (p * (b * h)) % m);
            assert(p * (b * h) == (b * p) * h) by (nonlinear_arith);
            lemma_mul_mod_noop_general(b * p, p, m);
            assert(((b * p) * h) % m == ((b * p) * p) % m);
            lemma_pow_adds(b, k, k);
            assert(k + k == e - 1);
            assert(pow(b, e) == b * pow(b, (e - 1) as nat)) by {
                assert(e >= 1);
                reveal(pow);
            }
            assert((b * p) * p == b * (p * p)) by (nonlinear_arith);
            assert(pow(b, e) == (b * p) * p);
            lemma_mod_bound(b * h * h, m);
        }
        r
    }
}

/// Encryption is one modular exponentiation with the public exponent:
/// `message ^ e mod n`.
pub fn encrypt(
    message: &num_bigint::BigInt,
    e: &num_bigint::BigInt,
    n: &num_bigint::BigInt,
) -> (r: num_bigint::BigInt)
    requires
        big_value(*message) >= 0,
        big_value(*e) >= 0,
        big_value(*n) > 1,
    ensures
        big_value(r) == pow_mod(big_value(*message), big_value(*e) as nat, big_value(*n)),
        0 <= big_value(r) < big_value(*n),
{
    exp_by_squaring(message, e, n)
}

/// Decryption is the same exponentiation with the private exponent:
/// `cipher ^ d mod n`.
pub fn decrypt(
    cipher: &num_bigint::BigInt,
    d: &num_bigint::BigInt,
    n: &num_bigint::BigInt,
) -> (r: num_bigint::BigInt)
    requires
        big_value(*cipher) >= 0,
        big_value(*d) >= 0,
        big_value(*n) > 1,
    ensures
        big_value(r) == pow_mod(big_value(*cipher), big_value(*d) as nat, big_value(*n)),
        0 <= big_value(r) < big_value(*n),
{
    exp_by_squaring(cipher, d, n)
}

/// A zero exponent yields one and an exponent of one yields the reduced
/// base, for every base and every modulus above one.
pub proof fn lemma_pow_mod_basics(b: int, m: int)
    requires
        m > 1,
    ensures
        pow_mod(b, 0, m) == 1,
        pow_mod(b, 1, m) == b % m,
{
    lemma_pow0(b);
    lemma_pow1(b);
    lemma_small_mod(1, m as nat);
}

/// Exponentiating a reduced power exponentiates once with the product of
/// the exponents: `(x^a mod n)^b mod n == x^(a*b) mod n`.
pub proof fn lemma_pow_mod_compose(x: int, a: nat, b: nat, n: int)
    requires
        n > 1,
    ensures
        pow_mod(pow_mod(x, a, n), b, n) == pow_mod(x, a * b, n),
{
    lemma_pow_mod_noop(pow(x, a), b, n);
    lemma_pow_multiplies(x, a, b);
}

/// Two encryptions under one modulus commute: applying the exponents in
/// either order reaches the same residue.  This is what lets two key pairs
/// that share a modulus lock and unlock in any order.
pub proof fn lemma_double_lock_commutes(x: int, a: nat, b: nat, n: int)
    requires
        n > 1,
    ensures
        pow_mod(pow_mod(x, a, n), b, n) == pow_mod(pow_mod(x, b, n), a, n),
{
    lemma_pow_mod_compose(x, a, b, n);
    lemma_pow_mod_compose(x, b, a, n);
    assert(a * b == b * a) by (nonlinear_arith);
}

/// Round trip: decrypting an encryption recovers the message whenever the
/// message is a fixed point of exponentiation by `e * d` modulo `n`.  For
/// a key pair derived over `phi = (p-1)(q-1)` with `p`, `q` distinct
/// primes and `n = p * q`, Euler's theorem supplies that hypothesis for
/// every message in `[0, n)`; primality comes from an external
/// probabilistic sampler, so it is taken as a premise here rather than
/// proved.  With `p == q` the hypothesis can fail: for `n == 9`,
/// `e == d == 3`, the message `3` encrypts to `0`.
pub proof fn lemma_round_trip(m: int, e: nat, d: nat, n: int)
    requires
        n > 1,
        0 <= m < n,
        pow_mod(m, e * d, n) == m,
    ensures
        pow_mod(pow_mod(m, e, n), d, n) == m,
{
    lemma_pow_mod_compose(m, e, d, n);
}

} // verus!
