//! Trusted boundary to the arbitrary-precision integer engine and to the
//! random source.  A `num_bigint::BigInt` is opaque here; the uninterpreted
//! function [`big_value`] names the integer it holds, and each wrapper
//! states over that name what the engine's documentation promises of the
//! one call its body makes.  Everything else in the crate is verified
//! against these contracts.

use vstd::prelude::*;
use vstd::arithmetic::power2::pow2;
use num_integer::Integer;
use num_traits::One;
use num_traits::Zero;
use num_bigint::ToBigInt;
use num_prime::RandPrime;
use rand::Rng;
use crate::arith::bit_len;
use crate::arith::gcd;
use crate::arith::trunc_rem;

verus! {

#[verifier::external_type_specification]
#[verifier::external_body]
pub struct ExBigInt(num_bigint::BigInt);

#[verifier::external_type_specification]
#[verifier::external_body]
pub struct ExThreadRng(rand::rngs::ThreadRng);

/// The integer that a `BigInt` holds.
pub uninterp spec fn big_value(x: num_bigint::BigInt) -> int;

/// Relies on `BigInt: From<u64>`: the conversion is value-preserving.
#[verifier::external_body]
pub fn big_from_u64(v: u64) -> (r: num_bigint::BigInt)
    ensures
        big_value(r) == v as int,
{
    num_bigint::BigInt::from(v)
}

/// Relies on `BigInt::clone`: the copy holds the same integer.
#[verifier::external_body]
pub fn big_clone(a: &num_bigint::BigInt) -> (r: num_bigint::BigInt)
    ensures
        big_value(r) == big_value(*a),
{
    a.clone()
}

/// Relies on `Add for &BigInt`: exact arbitrary-precision addition.
#[verifier::external_body]
pub fn big_add(a: &num_bigint::BigInt, b: &num_bigint::BigInt) -> (r: num_bigint::BigInt)
    ensures
        big_value(r) == big_value(*a) + big_value(*b),
{
    a + b
}

/// Relies on `Sub for &BigInt`: exact arbitrary-precision subtraction.
#[verifier::external_body]
pub fn big_sub(a: &num_bigint::BigInt, b: &num_bigint::BigInt) -> (r: num_bigint::BigInt)
    ensures
        big_value(r) == big_value(*a) - big_value(*b),
{
    a - b
}

/// Relies on `Mul for &BigInt`: exact arbitrary-precision multiplication.
#[verifier::external_body]
pub fn big_mul(a: &num_bigint::BigInt, b: &num_bigint::BigInt) -> (r: num_bigint::BigInt)
    ensures
        big_value(r) == big_value(*a) * big_value(*b),
{
    a * b
}

/// Relies on `Rem for &BigInt`: remainder truncated towards zero, the
/// result carrying the dividend's sign.
#[verifier::external_body]
pub fn big_rem(a: &num_bigint::BigInt, b: &num_bigint::BigInt) -> (r: num_bigint::BigInt)
    requires
        big_value(*b) > 0,
    ensures
        big_value(r) == trunc_rem(big_value(*a), big_value(*b)),
{
    a % b
}

/// Relies on `Div for &BigInt`: truncating division, which on nonnegative
/// operands is the flooring quotient.
#[verifier::external_body]
pub fn big_div(a: &num_bigint::BigInt, b: &num_bigint::BigInt) -> (r: num_bigint::BigInt)
    requires
        big_value(*a) >= 0,
        big_value(*b) > 0,
    ensures
        big_value(r) == big_value(*a) / big_value(*b),
{
    a / b
}

/// Relies on `Shr<u32> for &BigInt`: a right shift by one halves a
/// nonnegative value, rounding down.
#[verifier::external_body]
pub fn big_half(a: &num_bigint::BigInt) -> (r: num_bigint::BigInt)
    requires
        big_value(*a) >= 0,
    ensures
        big_value(r) == big_value(*a) / 2,
{
    a >> 1u32
}

/// Relies on `Shl<u64> for &BigInt`: a left shift by `k` multiplies by
/// `2^k`.
#[verifier::external_body]
pub fn big_shl(a: &num_bigint::BigInt, k: u64) -> (r: num_bigint::BigInt)
    requires
        big_value(*a) >= 0,
    ensures
        big_value(r) == big_value(*a) * pow2(k as nat),
{
    a << k
}

/// Relies on `BigInt::bits`: the fewest binary digits that express the
/// value, which is zero exactly for zero.
#[verifier::external_body]
pub fn big_bits(a: &num_bigint::BigInt) -> (r: u64)
    requires
        big_value(*a) >= 0,
    ensures
        r == bit_len(big_value(*a) as nat),
{
    a.bits()
}

/// Relies on `Zero::is_zero` for `BigInt`.
#[verifier::external_body]
pub fn big_is_zero(a: &num_bigint::BigInt) -> (r: bool)
    ensures
        r <==> big_value(*a) == 0,
{
    a.is_zero()
}

/// Relies on `One::is_one` for `BigInt`.
#[verifier::external_body]
pub fn big_is_one(a: &num_bigint::BigInt) -> (r: bool)
    ensures
        r <==> big_value(*a) == 1,
{
    a.is_one()
}

/// Relies on `Integer::is_even` for `BigInt`: parity of the magnitude,
/// which agrees with parity of the value.
#[verifier::external_body]
pub fn big_is_even(a: &num_bigint::BigInt) -> (r: bool)
    ensures
        r <==> big_value(*a) % 2 == 0,
{
    a.is_even()
}

/// Relies on `Integer::gcd` for `BigInt`: the greatest common divisor,
/// never negative.
#[verifier::external_body]
pub fn big_gcd(a: &num_bigint::BigInt, b: &num_bigint::BigInt) -> (r: num_bigint::BigInt)
    requires
        big_value(*a) >= 0,
        big_value(*b) >= 0,
    ensures
        big_value(r) == gcd(big_value(*a) as nat, big_value(*b) as nat),
{
    a.gcd(b)
}

/// Relies on `Rng::gen_range` over an inclusive `BigInt` range, whose
/// uniform sampler never leaves the range; nothing further can be said of
/// a random draw.
#[verifier::external_body]
pub fn big_random_range(
    rng: &mut rand::rngs::ThreadRng,
    lo: &num_bigint::BigInt,
    hi: &num_bigint::BigInt,
) -> (r: num_bigint::BigInt)
    requires
        big_value(*lo) <= big_value(*hi),
    ensures
        big_value(*lo) <= big_value(r) <= big_value(*hi),
{
    rng.gen_range(lo.clone()..=hi.clone())
}

/// Relies on `RandPrime::<BigUint>::gen_prime`, which panics on a zero bit
/// size and otherwise returns a probable prime within the requested bit
/// size limit; of a random draw only nonnegativity is stated, and the
/// caller checks the bit length itself.
#[verifier::external_body]
pub fn big_sample_prime(rng: &mut rand::rngs::ThreadRng, bit_size: usize) -> (r: num_bigint::BigInt)
    requires
        bit_size >= 1,
    ensures
        big_value(r) >= 0,
{
    let p: num_bigint::BigUint = rng.gen_prime(bit_size, None);
    p.to_bigint().unwrap()
}

} // verus!
