//! Prime sampling: trial-division primality and bounded random search for
//! primes congruent to 3 modulo 4.

use vstd::arithmetic::div_mod::{
    lemma_div_is_ordered, lemma_div_multiples_vanish, lemma_fundamental_div_mod, lemma_mod_bound,
    lemma_mod_multiples_vanish, lemma_multiply_divide_lt,
};
use vstd::prelude::*;

use num_bigint::BigUint;

use crate::arith::{is_prime, lemma_no_factor_below_sqrt, two_pow};
use crate::bigint::{
    big_add, big_div, big_eq, big_from_u64, big_lt, big_mul, big_rem, big_sub, nat_of, random_u64,
};

verus! {

/// Candidates tried before a prime search gives up; the sizes in use succeed
/// long before this bound is reached.
pub const MAX_PRIME_ATTEMPTS: u64 = 100000;

/// True exactly when the squared first argument is at most the second.
fn square_at_most(d: &BigUint, n: &BigUint) -> (r: bool)
    ensures
        r <==> nat_of(*d) * nat_of(*d) <= nat_of(*n),
{
    let dd = big_mul(d, d);
    !big_lt(n, &dd)
}

/// Deterministic primality test by trial division up to the square root.
pub fn is_prime_exec(n: &BigUint) -> (r: bool)
    ensures
        r <==> is_prime(nat_of(*n)),
{
    let two = big_from_u64(2);
    let zero = big_from_u64(0);
    if big_lt(n, &two) {
        return false;
    }
    let mut d = big_from_u64(2);
    while square_at_most(&d, n)
        invariant
            nat_of(*n) >= 2,
            nat_of(d) >= 2,
            nat_of(zero) == 0,
            forall|k: nat| 2 <= k < nat_of(d) ==> #[trigger] (nat_of(*n) % k) != 0,
        decreases nat_of(*n) - nat_of(d),
    {
        let r = big_rem(n, &d);
        if big_eq(&r, &zero) {
            proof {
                let nv = nat_of(*n);
                let dv = nat_of(d);
                assert(dv < nv) by (nonlinear_arith)
                    requires
                        nv >= 2,
                        dv >= 2,
                        dv * dv <= nv,
                ;
                assert(!is_prime(nv));
            }
            return false;
        }
        let one = big_from_u64(1);
        d = big_add(&d, &one);
        proof {
            assert(nat_of(d) <= nat_of(*n)) by (nonlinear_arith)
                requires
                    nat_of(d) >= 3,
                    (nat_of(d) - 1) * (nat_of(d) - 1) <= nat_of(*n),
            ;
        }
    }
    proof {
        lemma_no_factor_below_sqrt(nat_of(*n), nat_of(d));
    }
    true
}

/// Draws a value below the given positive bound by chaining fresh 64-bit
/// draws; nothing is promised of the value beyond its range.
pub(crate) fn random_below(top: &BigUint) -> (r: BigUint)
    requires
        nat_of(*top) >= 1,
    ensures
        nat_of(r) < nat_of(*top),
{
    let word = {
        let half = big_from_u64(0x1_0000_0000);
        big_mul(&half, &half)
    };
    let mut raw = big_from_u64(0);
    let mut i: u64 = 0;
    while i < 10
        invariant
            true,
        decreases 10 - i,
    {
        let chunk = big_from_u64(random_u64());
        raw = big_add(&big_mul(&raw, &word), &chunk);
        i = i + 1;
    }
    let r = big_rem(&raw, top);
    proof {
        lemma_mod_bound(nat_of(raw) as int, nat_of(*top) as int);
    }
    r
}

/// One random candidate in `[two_pow(bits - 1), two_pow(bits))` that is
/// congruent to 3 modulo 4.
fn candidate_3mod4(bits: u64) -> (r: BigUint)
    requires
        bits >= 3,
    ensures
        nat_of(r) % 4 == 3,
        two_pow((bits - 1) as nat) <= nat_of(r) < two_pow(bits as nat),
{
    let two = big_from_u64(2);
    let mut top = big_from_u64(1);
    let mut i: u64 = 0;
    while i < bits - 1
        invariant
            i <= bits - 1,
            nat_of(two) == 2,
            nat_of(top) == two_pow(i as nat),
        decreases bits - 1 - i,
    {
        top = big_mul(&top, &two);
        i = i + 1;
    }
    proof {
        lemma_two_pow_pos((bits - 3) as nat);
        lemma_two_pow_step((bits - 1) as nat);
        lemma_two_pow_step((bits - 2) as nat);
        assert(nat_of(top) == 4 * two_pow((bits - 3) as nat));
    }
    // top == 2^(bits-1), a positive multiple of four since bits >= 3
    let spread = random_below(&top);
    let v = big_add(&top, &spread);
    // force the residue 3 modulo 4 without leaving the range
    let four = big_from_u64(4);
    let three = big_from_u64(3);
    let low = big_rem(&v, &four);
    proof {
        lemma_mod_bound(nat_of(v) as int, 4);
    }
    let aligned = big_sub(&v, &low);
    let r = big_add(&aligned, &three);
    proof {
        let tv = nat_of(top) as int;
        let vv = nat_of(v) as int;
        let al = nat_of(aligned) as int;
        lemma_fundamental_div_mod(vv, 4);
        let j = vv / 4;
        assert(al == 4 * j);
        // residue: 4 * j + 3 is 3 modulo 4
        lemma_mod_multiples_vanish(j, 3, 4);
        assert((4 * j + 3) % 4 == 3);
        // range: top is a multiple of four, so rounding v down to a multiple
        // of four stays at or above top, and adding three stays below 2 * top
        let half = two_pow((bits - 3) as nat) as int;
        assert(tv == 4 * half);
        lemma_div_is_ordered(tv, vv, 4);
        lemma_div_multiples_vanish(half, 4);
        assert(j >= half);
        lemma_multiply_divide_lt(vv, 4, 2 * half);
        assert(j < 2 * half);
        lemma_two_pow_step(bits as nat);
        assert(two_pow(bits as nat) == 2 * tv);
    }
    r
}

/// `two_pow` is positive.
proof fn lemma_two_pow_pos(e: nat)
    ensures
        two_pow(e) >= 1,
    decreases e,
{
    if e > 0 {
        lemma_two_pow_pos((e - 1) as nat);
    }
}

/// Unfolds one step of `two_pow`.
proof fn lemma_two_pow_step(e: nat)
    requires
        e >= 1,
    ensures
        two_pow(e) == 2 * two_pow((e - 1) as nat),
{
}

/// Searches for a prime of the requested bit length that is congruent to
/// 3 modulo 4; gives up after a generous number of candidates, so that the
/// search cannot run forever on pathological randomness.
pub fn generate_prime_3mod4(bits: u64) -> (r: Option<BigUint>)
    requires
        bits >= 3,
    ensures
        r matches Some(p) ==> is_prime(nat_of(p)) && nat_of(p) % 4 == 3
            && two_pow((bits - 1) as nat) <= nat_of(p) < two_pow(bits as nat),
{
    let mut attempt: u64 = 0;
    while attempt < MAX_PRIME_ATTEMPTS
        invariant
            bits >= 3,
        decreases MAX_PRIME_ATTEMPTS - attempt,
    {
        let cand = candidate_3mod4(bits);
        if is_prime_exec(&cand) {
            return Some(cand);
        }
        attempt = attempt + 1;
    }
    None
}

} // verus!
