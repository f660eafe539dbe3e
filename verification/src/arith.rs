//! Number-theoretic specifications shared across the library.

use vstd::arithmetic::div_mod::{
    lemma_div_non_zero, lemma_fundamental_div_mod, lemma_mod_multiples_basic,
    lemma_multiply_divide_lt,
};
use vstd::prelude::*;

verus! {

/// `n` is prime: at least two, with no divisor strictly between one and itself.
pub open spec fn is_prime(n: nat) -> bool {
    n >= 2 && forall|d: nat| 2 <= d < n ==> #[trigger] (n % d) != 0
}

/// The greatest common divisor, by the Euclidean recursion.
pub open spec fn gcd(a: nat, b: nat) -> nat
    decreases b,
{
    if b == 0 {
        a
    } else {
        gcd(b, a % b)
    }
}

/// Two to the power `e`.
pub open spec fn two_pow(e: nat) -> nat
    decreases e,
{
    if e == 0 {
        1
    } else {
        2 * two_pow((e - 1) as nat)
    }
}

/// Trial division needs to look no further than the square root: a number
/// with no divisor in `[2, d)` and smaller than `d * d` has no divisor at all.
pub proof fn lemma_no_factor_below_sqrt(n: nat, d: nat)
    requires
        n >= 2,
        d >= 2,
        n < d * d,
        forall|k: nat| 2 <= k < d ==> #[trigger] (n % k) != 0,
    ensures
        is_prime(n),
{
    assert forall|k: nat| 2 <= k < n implies #[trigger] (n % k) != 0 by {
        if k >= d && n % k == 0 {
            let c = (n as int) / (k as int);
            lemma_fundamental_div_mod(n as int, k as int);
            assert(n as int == (k as int) * c);
            lemma_div_non_zero(n as int, k as int);
            assert(c >= 1);
            if c == 1 {
                assert(n as int == k as int) by (nonlinear_arith)
                    requires
                        n as int == (k as int) * c,
                        c == 1,
                ;
                assert(false);
            }
            assert((n as int) < (k as int) * (d as int)) by (nonlinear_arith)
                requires
                    (n as int) < (d as int) * (d as int),
                    d <= k,
            ;
            lemma_multiply_divide_lt(n as int, k as int, d as int);
            assert(2 <= c < d);
            lemma_mod_multiples_basic(k as int, c);
            assert((n as int) % c == 0);
            assert(n % (c as nat) == 0);
            assert(false);
        }
    }
}

} // verus!
