//! A minimal asymmetric cipher: probable-prime sampling to an exact bit
//! length, totient/modulus construction, key-pair derivation through the
//! extended Euclidean algorithm, and square-and-multiply modular
//! exponentiation for encrypt/decrypt.  Two key pairs sharing one modulus
//! commute, which supports a three-pass "double-lock" exchange.
//!
//! The arbitrary-precision arithmetic engine, the probabilistic primality
//! test and the uniform random source are external collaborators; every
//! algorithm of this crate is verified against their stated contracts.

pub mod arith;
pub mod bigint;
pub mod modexp;
pub mod euclid;
pub mod keygen;
