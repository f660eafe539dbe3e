//! Extended Euclidean algorithm with verified Bezout coefficients.

use vstd::arithmetic::div_mod::{lemma_fundamental_div_mod, lemma_mod_bound};
use vstd::prelude::*;

use num_bigint::{BigInt, BigUint};

use crate::arith::gcd;
use crate::bigint::{
    big_div, big_eq, big_from_u64, big_rem, bigint_from_i64, bigint_from_big, bigint_mul,
    bigint_sub, int_of, nat_of,
};

verus! {

/// Runs the extended Euclidean algorithm on `x` and `y` and returns
/// `(g, a, b)` where `g` is the greatest common divisor and `a`, `b` are
/// Bezout coefficients with `a * x + b * y == g`.
pub fn extended_euclidean(x: &BigUint, y: &BigUint) -> (r: (BigUint, BigInt, BigInt))
    ensures
        nat_of(r.0) == gcd(nat_of(*x), nat_of(*y)),
        int_of(r.1) * nat_of(*x) + int_of(r.2) * nat_of(*y) == nat_of(r.0),
{
    let zero = big_from_u64(0);
    let mut r0 = x.clone();
    let mut r1 = y.clone();
    let mut s0 = bigint_from_i64(1);
    let mut s1 = bigint_from_i64(0);
    let mut t0 = bigint_from_i64(0);
    let mut t1 = bigint_from_i64(1);

    while !big_eq(&r1, &zero)
        invariant
            nat_of(zero) == 0,
            int_of(s0) * nat_of(*x) + int_of(t0) * nat_of(*y) == nat_of(r0),
            int_of(s1) * nat_of(*x) + int_of(t1) * nat_of(*y) == nat_of(r1),
            gcd(nat_of(r0), nat_of(r1)) == gcd(nat_of(*x), nat_of(*y)),
        decreases nat_of(r1),
    {
        let quot = big_div(&r0, &r1);
        let rem = big_rem(&r0, &r1);
        let quot_int = bigint_from_big(&quot);
        let s_next = bigint_sub(&s0, &bigint_mul(&quot_int, &s1));
        let t_next = bigint_sub(&t0, &bigint_mul(&quot_int, &t1));

        proof {
            let xv = nat_of(*x) as int;
            let yv = nat_of(*y) as int;
            let k = int_of(quot_int);
            lemma_fundamental_div_mod(nat_of(r0) as int, nat_of(r1) as int);
            assert(nat_of(rem) == nat_of(r0) - k * nat_of(r1));
            lemma_bezout_step(int_of(s0), int_of(t0), int_of(s1), int_of(t1), k, xv, yv);
            lemma_mod_bound(nat_of(r0) as int, nat_of(r1) as int);
        }

        r0 = r1;
        r1 = rem;
        s0 = s1;
        s1 = s_next;
        t0 = t1;
        t1 = t_next;
    }
    (r0, s0, t0)
}

/// Ring identity behind one step of the Bezout bookkeeping.
#[verifier::rlimit(60)]
proof fn lemma_bezout_step(s0: int, t0: int, s1: int, t1: int, k: int, xv: int, yv: int)
    by (nonlinear_arith)
    ensures
        (s0 - k * s1) * xv + (t0 - k * t1) * yv == (s0 * xv + t0 * yv) - k * (s1 * xv + t1 * yv),
{
}

} // verus!
