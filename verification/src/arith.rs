//! Mathematical vocabulary of the crate: bit length, truncating remainder,
//! greatest common divisor, and modular exponentiation, together with the
//! basic lemmas about them that the executable code needs.

use vstd::prelude::*;
use vstd::arithmetic::power::pow;
use vstd::arithmetic::power2::pow2;
use vstd::arithmetic::power2::lemma_pow2_unfold;
use vstd::arithmetic::power2::lemma_pow2_pos;
use vstd::arithmetic::div_mod::lemma_small_mod;

verus! {

/// Number of binary digits needed to write `v`: zero for zero, and
/// `floor(log2 v) + 1` otherwise.
pub open spec fn bit_len(v: nat) -> nat
    decreases v,
{
    if v == 0 {
        0
    } else {
        1 + bit_len(v / 2)
    }
}

/// Remainder truncated towards zero, as the `%` of the big-integer engine
/// computes it: the result carries the sign of the dividend.
pub open spec fn trunc_rem(a: int, b: int) -> int
    recommends b > 0,
{
    if a >= 0 {
        a % b
    } else {
        -((-a) % b)
    }
}

/// Greatest common divisor, by the Euclidean recursion.
pub open spec fn gcd(a: nat, b: nat) -> nat
    decreases a,
{
    if a == 0 {
        b
    } else {
        gcd(b % a, a)
    }
}

/// `b` to the power `e`, reduced modulo `m`.
pub open spec fn pow_mod(b: int, e: nat, m: int) -> int
    recommends m > 1,
{
    pow(b, e) % m
}

/// A positive value lies between the two powers of two that its bit length
/// picks out: `2^(len-1) <= v < 2^len`.
pub proof fn lemma_bit_len_bounds(v: nat)
    requires
        v >= 1,
    ensures
        bit_len(v) >= 1,
        pow2((bit_len(v) - 1) as nat) <= v,
        v < pow2(bit_len(v)),
    decreases v,
{
    if v == 1 {
        assert(bit_len(0nat) == 0);
        assert(bit_len(1nat) == 1);
        vstd::arithmetic::power2::lemma2_to64();
    } else {
        let h = v / 2;
        lemma_bit_len_bounds(h);
        let k = bit_len(h);
        assert(bit_len(v) == 1 + k);
        lemma_pow2_unfold((k + 1) as nat);
        if k >= 1 {
            lemma_pow2_unfold(k);
        }
        lemma_pow2_pos(k);
        assert(v >= 2 * h);
        assert(v <= 2 * h + 1);
        assert(v < 2 * pow2(k));
        assert(2 * pow2(k) == pow2((k + 1) as nat));
        if k >= 1 {
            assert(pow2(k) == 2 * pow2((k - 1) as nat));
            assert(2 * pow2((k - 1) as nat) <= 2 * h);
        } else {
            vstd::arithmetic::power2::lemma2_to64();
        }
    }
}

/// A value of bit length zero is zero; contrapositively a positive bit
/// length forces `v >= 1`.
pub proof fn lemma_bit_len_zero(v: nat)
    ensures
        bit_len(v) == 0 <==> v == 0,
{
    if v != 0 {
        assert(bit_len(v) == 1 + bit_len(v / 2));
    }
}

/// The greatest common divisor does not depend on the order of its
/// arguments.
pub proof fn lemma_gcd_comm(a: nat, b: nat)
    ensures
        gcd(a, b) == gcd(b, a),
{
    if a == 0 && b == 0 {
    } else if a == 0 {
        assert(gcd(b, a) == gcd(0nat % b, b));
        lemma_small_mod(0nat, b);
        assert(gcd(b, 0nat) == gcd(0nat, b));
    } else if b == 0 {
        assert(gcd(a, b) == gcd(0nat % a, a));
        lemma_small_mod(0nat, a);
    } else if a == b {
        assert(a % a == 0) by {
            vstd::arithmetic::div_mod::lemma_mod_self_0(a as int);
        }
        assert(gcd(a, b) == gcd(0nat, a));
        assert(gcd(b, a) == gcd(0nat, b));
    } else if a < b {
        lemma_small_mod(a, b);
        assert(gcd(b, a) == gcd(a % b, b));
        assert(a % b == a);
    } else {
        lemma_small_mod(b, a);
        assert(gcd(a, b) == gcd(b % a, a));
        assert(b % a == b);
    }
}

/// The greatest common divisor of a positive value with itself is that
/// value, so it is `1` only when the value is `1`.
pub proof fn lemma_gcd_self(a: nat)
    ensures
        gcd(a, a) == a,
{
    if a != 0 {
        assert(a % a == 0) by {
            vstd::arithmetic::div_mod::lemma_mod_self_0(a as int);
        }
        assert(gcd(a, a) == gcd(0nat, a));
    }
}

} // verus!
