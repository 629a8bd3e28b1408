//! Extended Euclidean algorithm and the modular inverse built on it, the
//! heart of private-exponent derivation.

use vstd::prelude::*;
use vstd::arithmetic::div_mod::lemma_fundamental_div_mod;
use vstd::arithmetic::div_mod::lemma_mod_bound;
use vstd::arithmetic::div_mod::lemma_mod_twice;
use vstd::arithmetic::div_mod::lemma_mod_multiples_vanish;
use vstd::arithmetic::div_mod::lemma_mul_mod_noop_right;
use vstd::arithmetic::div_mod::lemma_small_mod;
use crate::arith::gcd;
use crate::arith::trunc_rem;
use crate::bigint::big_value;
use crate::bigint::big_add;
use crate::bigint::big_clone;
use crate::bigint::big_div;
use crate::bigint::big_from_u64;
use crate::bigint::big_is_one;
use crate::bigint::big_is_zero;
use crate::bigint::big_mul;
use crate::bigint::big_rem;
use crate::bigint::big_sub;

verus! {

/// Extended Euclidean algorithm: besides the greatest common divisor `g`
/// of `a` and `b` it returns Bezout coefficients `x`, `y` with
/// `a*x + b*y == g`.  The base case `a == 0` yields `(b, 0, 1)`; otherwise
/// the recursion on `(b mod a, a)` is corrected by the quotient `b div a`.
pub fn extended_gcd(
    a: &num_bigint::BigInt,
    b: &num_bigint::BigInt,
) -> (res: (num_bigint::BigInt, num_bigint::BigInt, num_bigint::BigInt))
    requires
        big_value(*a) >= 0,
        big_value(*b) >= 0,
    ensures
        big_value(res.0) == gcd(big_value(*a) as nat, big_value(*b) as nat),
        big_value(*a) * big_value(res.1) + big_value(*b) * big_value(res.2) == big_value(res.0),
    decreases big_value(*a),
{
    let ghost av = big_value(*a);
    let ghost bv = big_value(*b);
    if big_is_zero(a) {
        let g = big_clone(b);
        let x = big_from_u64(0);
        let y = big_from_u64(1);
        proof {
            assert(av * 0 + bv * 1 == bv) by (nonlinear_arith);
        }
        (g, x, y)
    } else {
        let r = big_rem(b, a);
        proof {
            assert(trunc_rem(bv, av) == bv % av);
            lemma_mod_bound(bv, av);
        }
        let (g, x, y) = extended_gcd(&r, a);
        let q = big_div(b, a);
        let qx = big_mul(&q, &x);
        let x2 = big_sub(&y, &qx);
        proof {
            let rv = big_value(r);
            let gv = big_value(g);
            let xv = big_value(x);
            let yv = big_value(y);
            let qv = big_value(q);
            assert(gcd(av as nat, bv as nat) == gcd((bv % av) as nat, av as nat));
            lemma_fundamental_div_mod(bv, av);
            assert(bv == av * qv + rv);
            assert(av * (yv - qv * xv) + bv * xv == rv * xv + av * yv) by (nonlinear_arith)
                requires bv == av * qv + rv,
            ;
        }
        (g, x2, x)
    }
}

/// Modular inverse of `a` modulo `m` through the extended Euclidean
/// algorithm: `Some(d)` with `d` in `[0, m)` and `(a * d) mod m == 1`
/// exactly when `a` and `m` are coprime, `None` otherwise.
pub fn mod_inverse(
    a: &num_bigint::BigInt,
    m: &num_bigint::BigInt,
) -> (r: Option<num_bigint::BigInt>)
    requires
        big_value(*a) >= 0,
        big_value(*m) > 1,
    ensures
        r is Some <==> gcd(big_value(*a) as nat, big_value(*m) as nat) == 1,
        r matches Some(d) ==> {
            &&& 0 <= big_value(d) < big_value(*m)
            &&& (big_value(*a) * big_value(d)) % big_value(*m) == 1
        },
{
    let ghost av = big_value(*a);
    let ghost mv = big_value(*m);
    let (g, x, _y) = extended_gcd(a, m);
    if !big_is_one(&g) {
        None
    } else {
        let t = big_rem(&x, m);
        let u = big_add(&t, m);
        let d = big_rem(&u, m);
        proof {
            let xv = big_value(x);
            let yv = big_value(_y);
            let tv = big_value(t);
            // The truncated remainder is congruent to x and lies in (-m, m),
            // so one shift by m and one more reduction land on x mod m.
            if xv >= 0 {
                lemma_mod_bound(xv, mv);
                assert(tv == xv % mv);
                lemma_mod_multiples_vanish(1, xv % mv, mv);
                assert(mv * 1 + xv % mv == tv + mv);
                lemma_mod_twice(xv, mv);
                assert(big_value(d) == (tv + mv) % mv);
            } else {
                lemma_mod_bound(-xv, mv);
                assert(tv == -((-xv) % mv));
                lemma_fundamental_div_mod(-xv, mv);
                let k = (-xv) / mv;
                assert(-xv == mv * k + (-xv) % mv);
                assert(tv + mv == mv * (k + 1) + xv) by (nonlinear_arith)
                    requires tv == -(-xv - mv * k),
                ;
                lemma_mod_multiples_vanish(k + 1, xv, mv);
                assert(tv + mv >= 0);
                assert(big_value(d) == (tv + mv) % mv);
            }
            assert(big_value(d) == xv % mv);
            lemma_mod_bound(xv, mv);
            // Bezout: a*x + m*y == 1, so a * (x mod m) is 1 modulo m.
            lemma_mul_mod_noop_right(av, xv, mv);
            assert((av * big_value(d)) % mv == (av * xv) % mv);
            assert(av * xv == mv * (-yv) + 1) by (nonlinear_arith)
                requires av * xv + mv * yv == 1,
            ;
            lemma_mod_multiples_vanish(-yv, 1, mv);
            lemma_small_mod(1, mv as nat);
        }
        Some(d)
    }
}

} // verus!
