//! Key generation: sampling a probable prime of an exact bit length,
//! combining two such primes into a totient and a modulus, and deriving a
//! public/private exponent pair over the totient.  Every retry loop runs
//! under an explicit attempt cap that grows with the requested size, and
//! exhaustion surfaces as an error instead of a hang.

use vstd::prelude::*;
use vstd::arithmetic::power2::pow2;
use vstd::arithmetic::power2::lemma_pow2_strictly_increases;
use vstd::arithmetic::power2::lemma2_to64;
use vstd::arithmetic::div_mod::lemma_small_mod;
use crate::arith::bit_len;
use crate::arith::gcd;
use crate::arith::lemma_bit_len_bounds;
use crate::arith::lemma_bit_len_zero;
use crate::arith::lemma_gcd_comm;
use crate::arith::lemma_gcd_self;
use crate::bigint::big_value;
use crate::bigint::big_bits;
use crate::bigint::big_from_u64;
use crate::bigint::big_gcd;
use crate::bigint::big_is_one;
use crate::bigint::big_mul;
use crate::bigint::big_random_range;
use crate::bigint::big_sample_prime;
use crate::bigint::big_shl;
use crate::bigint::big_sub;
use crate::euclid::mod_inverse;

verus! {

/// Why a generation operation gave up.
#[derive(Debug, Clone, Copy, PartialEq, Eq)]
pub enum GenError {
    /// No sampled prime, or no composed modulus, reached the exact
    /// requested bit length within the attempt cap.
    BitLengthUnsatisfied,
    /// No drawn exponent was coprime to the totient within the attempt
    /// cap.
    NoUsableExponent,
}

/// Attempt bound for the retry loops: grows linearly with the requested
/// size and never overflows.
fn retry_cap(size: usize) -> (c: usize)
    ensures
        c >= 64,
{
    if size <= (usize::MAX - 64) / 4 {
        64 + 4 * size
    } else {
        usize::MAX
    }
}

/// Draws probable primes until one has exactly `bit_size` bits, giving up
/// after the attempt cap.  The external sampler only bounds the bit
/// length from above, so the exact length is enforced here.
#[verifier::loop_isolation(false)]
pub fn get_fixed_sized_prime(
    rng: &mut rand::rngs::ThreadRng,
    bit_size: usize,
) -> (r: Result<num_bigint::BigInt, GenError>)
    requires
        bit_size >= 1,
    ensures
        r matches Ok(p) ==> {
            &&& big_value(p) >= 1
            &&& bit_len(big_value(p) as nat) == bit_size
        },
        r matches Err(e) ==> e is BitLengthUnsatisfied,
{
    let cap = retry_cap(bit_size);
    let mut attempt: usize = 0;
    while attempt < cap
        invariant
            attempt <= cap,
        decreases cap - attempt,
    {
        let prime = big_sample_prime(rng, bit_size);
        let bits = big_bits(&prime);
        if bits == bit_size as u64 {
            proof {
                lemma_bit_len_zero(big_value(prime) as nat);
            }
            return Ok(prime);
        }
        attempt += 1;
    }
    Err(GenError::BitLengthUnsatisfied)
}

/// Builds a shared totient and modulus: two independently sampled primes
/// of half the requested length give `phi = (p-1)(q-1)` and `n = p*q`,
/// and the whole pair is discarded and retried when `n` misses the exact
/// bit length, so neither prime's distribution is biased.  `p` and `q`
/// never leave this function.
#[verifier::loop_isolation(false)]
pub fn generate_phi_n(
    rng: &mut rand::rngs::ThreadRng,
    bit_size: usize,
) -> (r: Result<(num_bigint::BigInt, num_bigint::BigInt), GenError>)
    requires
        bit_size >= 2,
        bit_size % 2 == 0,
    ensures
        r matches Ok(pair) ==> {
            &&& bit_len(big_value(pair.1) as nat) == bit_size
            &&& big_value(pair.1) >= 2
            &&& big_value(pair.0) >= 1
            &&& exists|p: nat, q: nat|
                {
                    &&& p >= 2
                    &&& q >= 2
                    &&& #[trigger] bit_len(p) == bit_size / 2
                    &&& #[trigger] bit_len(q) == bit_size / 2
                    &&& big_value(pair.0) == (p - 1) * (q - 1)
                    &&& big_value(pair.1) == p * q
                }
        },
        r matches Err(e) ==> e is BitLengthUnsatisfied,
{
    let half = bit_size / 2;
    let cap = retry_cap(bit_size);
    let mut attempt: usize = 0;
    while attempt < cap
        invariant
            attempt <= cap,
        decreases cap - attempt,
    {
        let p = match get_fixed_sized_prime(rng, half) {
            Ok(p) => p,
            Err(e) => {
                return Err(e);
            },
        };
        let q = match get_fixed_sized_prime(rng, half) {
            Ok(q) => q,
            Err(e) => {
                return Err(e);
            },
        };
        let one = big_from_u64(1);
        let p_minus = big_sub(&p, &one);
        let q_minus = big_sub(&q, &one);
        let phi = big_mul(&p_minus, &q_minus);
        let n = big_mul(&p, &q);
        proof {
            assert(big_value(n) >= 1) by (nonlinear_arith)
                requires
                    big_value(n) == big_value(p) * big_value(q),
                    big_value(p) >= 1,
                    big_value(q) >= 1,
            ;
        }
        let n_bits = big_bits(&n);
        if n_bits == bit_size as u64 {
            proof {
                let pv = big_value(p);
                let qv = big_value(q);
                let nv = big_value(n);
                let bl = bit_len(nv as nat);
                assert(bl == bit_size);
                lemma_bit_len_bounds(nv as nat);
                lemma2_to64();
                if bl - 1 > 1 {
                    lemma_pow2_strictly_increases(1, (bl - 1) as nat);
                }
                assert(pow2((bl - 1) as nat) >= 2);
                assert(nv >= 2);
                // Both primes exceed 1: were one of them 1, its bit length
                // and so its partner's would be 1, forcing n == 1.
                if pv == 1 || qv == 1 {
                    assert(bit_len(0nat) == 0);
                    assert(bit_len(1nat) == 1);
                    lemma_bit_len_bounds(pv as nat);
                    lemma_bit_len_bounds(qv as nat);
                    assert(pv < pow2(1) && qv < pow2(1));
                    assert(pv == 1 && qv == 1);
                    assert(nv == 1) by (nonlinear_arith)
                        requires
                            nv == pv * qv,
                            pv == 1,
                            qv == 1,
                    ;
                }
                assert(pv >= 2 && qv >= 2);
                assert(big_value(phi) >= 1) by (nonlinear_arith)
                    requires
                        big_value(phi) == (pv - 1) * (qv - 1),
                        pv >= 2,
                        qv >= 2,
                ;
            }
            return Ok((phi, n));
        }
        attempt += 1;
    }
    Err(GenError::BitLengthUnsatisfied)
}

/// Derives a key pair over the totient: draws `e` uniformly from
/// `[2^(bits/2), 2^(bits-1)]` where `bits` is the totient's bit length,
/// keeps it only when coprime to the totient, and takes `d` as its
/// modular inverse.  On success `1 < e < phi`, `1 < d < phi` and
/// `(e * d) mod phi == 1`.
#[verifier::loop_isolation(false)]
pub fn generate_key_pair(
    rng: &mut rand::rngs::ThreadRng,
    phi: &num_bigint::BigInt,
) -> (r: Result<(num_bigint::BigInt, num_bigint::BigInt), GenError>)
    requires
        big_value(*phi) >= 2,
    ensures
        r matches Ok(pair) ==> {
            &&& 1 < big_value(pair.0) < big_value(*phi)
            &&& 1 < big_value(pair.1) < big_value(*phi)
            &&& (big_value(pair.0) * big_value(pair.1)) % big_value(*phi) == 1
            &&& gcd(big_value(pair.0) as nat, big_value(*phi) as nat) == 1
        },
        r matches Err(e) ==> e is NoUsableExponent,
{
    let ghost phiv = big_value(*phi);
    let bits = big_bits(phi);
    proof {
        lemma_bit_len_bounds(phiv as nat);
        lemma2_to64();
        if bit_len(phiv as nat) == 1 {
            assert(phiv < pow2(1));
        }
        assert(bits >= 2);
    }
    let one = big_from_u64(1);
    let lo = big_shl(&one, bits / 2);
    let hi = big_shl(&one, bits - 1);
    proof {
        // The draw range is nonempty, starts above 1, and stays within
        // the totient: 2 <= 2^(bits/2) <= 2^(bits-1) <= phi.
        if bits / 2 < bits - 1 {
            lemma_pow2_strictly_increases((bits / 2) as nat, (bits - 1) as nat);
        }
        if (bits / 2) as nat >= 2 {
            lemma_pow2_strictly_increases(1, (bits / 2) as nat);
        }
        assert(big_value(lo) >= 2);
        assert(big_value(hi) <= phiv);
    }
    let cap = retry_cap(bits as usize);
    let mut attempt: usize = 0;
    while attempt < cap
        invariant
            attempt <= cap,
        decreases cap - attempt,
    {
        let e = big_random_range(rng, &lo, &hi);
        let g = big_gcd(phi, &e);
        if big_is_one(&g) {
            proof {
                lemma_gcd_comm(phiv as nat, big_value(e) as nat);
            }
            match mod_inverse(&e, phi) {
                Some(d) => {
                    proof {
                        let ev = big_value(e);
                        let dv = big_value(d);
                        // e stays below phi: at the top of its range it
                        // could only equal phi itself, and then the two
                        // would share phi as a common divisor.
                        if ev == phiv {
                            lemma_gcd_self(phiv as nat);
                        }
                        assert(ev < phiv);
                        // d exceeds 1: zero annihilates the product and
                        // one would make e itself the unit residue.
                        if dv == 0 {
                            assert(ev * 0 == 0) by (nonlinear_arith);
                            lemma_small_mod(0nat, phiv as nat);
                        }
                        if dv == 1 {
                            assert(ev * 1 == ev) by (nonlinear_arith);
                            lemma_small_mod(ev as nat, phiv as nat);
                        }
                    }
                    return Ok((e, d));
                },
                None => {
                    // Defensively unreachable: the coprimality test has
                    // already passed.
                },
            }
        }
        attempt += 1;
    }
    Err(GenError::NoUsableExponent)
}

} // verus!
