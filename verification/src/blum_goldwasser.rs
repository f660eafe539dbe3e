//! The Blum-Goldwasser scheme: key generation, stream encryption over a
//! quadratic-residue squaring sequence, and jump-ahead decryption.
//!
//! The chunk width is fixed at four bits so that every byte splits into
//! exactly two chunks; this is a deliberate parameter of the design (the
//! theoretically scaling width would break byte alignment), and the masks
//! below are therefore the low four bits — the value modulo sixteen — of
//! each residue.

use vstd::arithmetic::div_mod::{lemma_fundamental_div_mod, lemma_mod_bound};
use vstd::arithmetic::power::pow;
use vstd::prelude::*;

use num_bigint::{BigInt, BigUint};

use crate::arith::is_prime;
use crate::bigint::{
    big_add, big_div, big_eq, big_from_u64, big_lt, big_modpow, big_mul, big_of_int, big_rem,
    big_sub, big_to_u64, bigint_add, bigint_eq, bigint_from_big, bigint_from_i64, bigint_mod_floor,
    bigint_mul, int_of, nat_of,
};
use crate::errors::Error;
use crate::key::{PrivateKey, PublicKey};
use crate::number::extended_euclidean;
use crate::prime::{generate_prime_3mod4, random_below};

verus! {

/// One squaring step of the residue sequence.
pub open spec fn sq_mod(x: nat, n: nat) -> nat {
    (x * x) % n
}

/// The residue after `i` squarings of `x0` modulo `n`.
pub open spec fn xseq(x0: nat, n: nat, i: nat) -> nat
    decreases i,
{
    if i == 0 {
        x0
    } else {
        sq_mod(xseq(x0, n, (i - 1) as nat), n)
    }
}

/// The `i`-th four-bit chunk of a plaintext, high nibble first.
pub open spec fn plain_nib(m: Seq<u8>, i: int) -> u8 {
    if i % 2 == 0 {
        m[i / 2] >> 4u8
    } else {
        m[i / 2] & 0x0fu8
    }
}

/// The mask for chunk `i`: the low four bits of the residue after `i + 1`
/// squarings.
pub open spec fn mask_nib(x0: nat, n: nat, i: int) -> u8 {
    (xseq(x0, n, (i + 1) as nat) % 16) as u8
}

/// The `i`-th masked chunk of the ciphertext.
pub open spec fn cipher_nib(x0: nat, n: nat, m: Seq<u8>, i: int) -> u8 {
    mask_nib(x0, n, i) ^ plain_nib(m, i)
}

/// The values held by a sequence of big integers.
pub open spec fn vals(c: Seq<BigUint>) -> Seq<nat> {
    Seq::new(c.len(), |i: int| nat_of(c[i]))
}

/// The ciphertext values `c` are exactly the encryption of `m` under
/// modulus `n` from the squared seed `x0`: one masked chunk per nibble,
/// then the resume residue.
pub open spec fn encrypts_to(n: nat, x0: nat, m: Seq<u8>, c: Seq<nat>) -> bool {
    &&& c.len() == 2 * m.len() + 1
    &&& (forall|i: int|
        0 <= i < 2 * m.len() ==> #[trigger] c[i] == cipher_nib(x0, n, m, i) as nat)
    &&& c[c.len() - 1] == xseq(x0, n, (2 * m.len() + 1) as nat)
}

/// The value decryption reconstructs from the trailing residue `xt1` of a
/// ciphertext with `t` masked chunks: the jump-ahead exponents undo the
/// squarings modulo each prime, and the Bezout coefficients recombine the
/// two partial results modulo `n`.
pub open spec fn recon_x0(p: nat, q: nat, a: int, b: int, t: nat, xt1: nat) -> nat {
    let n = p * q;
    let d1 = pow(((p + 1) / 4) as int, (t + 1) as nat) % (p - 1);
    let d2 = pow(((q + 1) / 4) as int, (t + 1) as nat) % (q - 1);
    let u = pow(xt1 as int, d1 as nat) % (p as int);
    let v = pow(xt1 as int, d2 as nat) % (q as int);
    ((v * a * p + u * b * q) % (n as int)) as nat
}

/// The `i`-th plaintext nibble decryption recovers when it restarts the
/// mask stream at `x0`.
pub open spec fn dec_nib(x0: nat, n: nat, c: Seq<nat>, i: int) -> u8 {
    mask_nib(x0, n, i) ^ ((c[i] % 16) as u8)
}

/// The bytes decryption assembles from the `t` recovered nibbles; a
/// trailing unpaired nibble becomes the high half of a final byte.
pub open spec fn dec_bytes(x0: nat, n: nat, c: Seq<nat>, t: nat) -> Seq<u8> {
    Seq::new((t + 1) / 2, |k: int|
        if 2 * k + 1 < t {
            (dec_nib(x0, n, c, 2 * k) << 4u8) | dec_nib(x0, n, c, 2 * k + 1)
        } else {
            dec_nib(x0, n, c, 2 * k) << 4u8
        })
}

/// The exact result of decrypting ciphertext values `c` under the private
/// key `(p, q, a, b)`: empty input decrypts to nothing; otherwise the
/// reconstructed start of the mask stream must reproduce the trailing
/// residue by squaring, else the ciphertext is malformed.
pub open spec fn bg_decrypt(p: nat, q: nat, a: int, b: int, c: Seq<nat>) -> Result<Seq<u8>, Error> {
    if c.len() == 0 {
        Result::Ok(Seq::empty())
    } else {
        let t = (c.len() - 1) as nat;
        let xt1 = c[c.len() - 1];
        let x0 = recon_x0(p, q, a, b, t, xt1);
        if xseq(x0, p * q, t + 1) == xt1 {
            Result::Ok(dec_bytes(x0, p * q, c, t))
        } else {
            Result::Err(Error::MalformedCiphertext)
        }
    }
}

/// The public half of a key pair: the modulus, a product of two secret
/// primes.
#[derive(Clone, Debug, PartialEq, Eq)]
pub struct BlumGoldwasserPublicKey {
    n: BigUint,
}

/// The private half of a key pair: the two primes, both congruent to
/// 3 modulo 4, and Bezout coefficients with `a * p + b * q == 1`.
#[derive(Clone, Debug, PartialEq, Eq)]
pub struct BlumGoldwasserPrivateKey {
    p: BigUint,
    q: BigUint,
    a: BigInt,
    b: BigInt,
}

impl BlumGoldwasserPublicKey {
    /// The value of the modulus.
    pub closed spec fn n_val(&self) -> nat {
        nat_of(self.n)
    }

    /// The modulus.
    pub fn n(&self) -> (r: &BigUint)
        ensures
            nat_of(*r) == self.n_val(),
    {
        &self.n
    }

    /// Wraps a modulus as a public key; rejects values below two, on which
    /// the scheme is meaningless.
    pub fn new(n: BigUint) -> (r: Option<Self>)
        ensures
            r matches Some(k) ==> k.wf() && k.n_val() == nat_of(n),
            nat_of(n) >= 2 ==> r is Some,
    {
        let two = big_from_u64(2);
        if big_lt(&n, &two) {
            None
        } else {
            Some(BlumGoldwasserPublicKey { n })
        }
    }
}

impl BlumGoldwasserPrivateKey {
    /// The value of the first prime.
    pub closed spec fn p_val(&self) -> nat {
        nat_of(self.p)
    }

    /// The value of the second prime.
    pub closed spec fn q_val(&self) -> nat {
        nat_of(self.q)
    }

    /// The value of the Bezout coefficient of `p`.
    pub closed spec fn a_val(&self) -> int {
        int_of(self.a)
    }

    /// The value of the Bezout coefficient of `q`.
    pub closed spec fn b_val(&self) -> int {
        int_of(self.b)
    }

    /// The first prime.
    pub fn p(&self) -> (r: &BigUint)
        ensures
            nat_of(*r) == self.p_val(),
    {
        &self.p
    }

    /// The second prime.
    pub fn q(&self) -> (r: &BigUint)
        ensures
            nat_of(*r) == self.q_val(),
    {
        &self.q
    }

    /// The Bezout coefficient of `p`.
    pub fn a(&self) -> (r: &BigInt)
        ensures
            int_of(*r) == self.a_val(),
    {
        &self.a
    }

    /// The Bezout coefficient of `q`.
    pub fn b(&self) -> (r: &BigInt)
        ensures
            int_of(*r) == self.b_val(),
    {
        &self.b
    }

    /// Assembles a private key from its parts, checking the structural
    /// invariant: both factors at least three and congruent to 3 modulo 4,
    /// distinct, and `a * p + b * q == 1`. Primality is not re-checked here;
    /// a non-prime factor yields a key that decrypts nothing meaningful.
    pub fn new(p: BigUint, q: BigUint, a: BigInt, b: BigInt) -> (r: Option<Self>)
        ensures
            r matches Some(k) ==> {
                &&& k.wf()
                &&& k.p_val() == nat_of(p)
                &&& k.q_val() == nat_of(q)
                &&& k.a_val() == int_of(a)
                &&& k.b_val() == int_of(b)
            },
            r is Some <==> {
                &&& nat_of(p) >= 3 && nat_of(p) % 4 == 3
                &&& nat_of(q) >= 3 && nat_of(q) % 4 == 3
                &&& nat_of(p) != nat_of(q)
                &&& int_of(a) * nat_of(p) + int_of(b) * nat_of(q) == 1
            },
    {
        let three = big_from_u64(3);
        let four = big_from_u64(4);
        let p_ok = !big_lt(&p, &three) && big_eq(&big_rem(&p, &four), &three);
        let q_ok = !big_lt(&q, &three) && big_eq(&big_rem(&q, &four), &three);
        if !(p_ok && q_ok) || big_eq(&p, &q) {
            return None;
        }
        let pi = bigint_from_big(&p);
        let qi = bigint_from_big(&q);
        let lhs = bigint_add(&bigint_mul(&a, &pi), &bigint_mul(&b, &qi));
        let one = bigint_from_i64(1);
        if bigint_eq(&lhs, &one) {
            Some(BlumGoldwasserPrivateKey { p, q, a, b })
        } else {
            None
        }
    }
}

impl PublicKey for BlumGoldwasserPublicKey {
    open spec fn wf(&self) -> bool {
        self.n_val() >= 2
    }

    open spec fn cipher_ok(&self, m: Seq<u8>, c: Seq<BigUint>) -> bool {
        &&& c.len() == 2 * m.len() + 1
        &&& exists|r0: nat|
            1 <= r0 < self.n_val() && encrypts_to(
                self.n_val(),
                sq_mod(r0, self.n_val()),
                m,
                vals(c),
            )
    }

    fn encrypt(&self, plaintext: &[u8]) -> (c: Vec<BigUint>) {
        let ghost nv = self.n_val();
        let one = big_from_u64(1);
        let n_minus = big_sub(&self.n, &one);
        let draw = random_below(&n_minus);
        let r0 = big_add(&one, &draw);
        let ghost r0v = nat_of(r0);
        let x0 = big_rem(&big_mul(&r0, &r0), &self.n);
        let ghost x0v = sq_mod(r0v, nv);
        let sixteen = big_from_u64(16);
        let mut cipher: Vec<BigUint> = Vec::new();
        let mut x = x0;
        let mut k: usize = 0;
        let len = plaintext.len();
        while k < len
            invariant
                nat_of(self.n) == nv,
                nv >= 2,
                nat_of(sixteen) == 16,
                len == plaintext@.len(),
                k <= len,
                nat_of(x) == xseq(x0v, nv, (2 * k) as nat),
                cipher@.len() == 2 * k,
                forall|j: int|
                    0 <= j < 2 * k ==> nat_of(#[trigger] cipher@[j]) == cipher_nib(
                        x0v,
                        nv,
                        plaintext@,
                        j,
                    ) as nat,
            decreases len - k,
        {
            let byte = plaintext[k];
            let ghost j0 = 2 * k as int;

            x = big_rem(&big_mul(&x, &x), &self.n);
            proof {
                lemma_mod_bound((nat_of(x) * nat_of(x)) as int, nv as int);
                lemma_mod_bound(nat_of(x) as int, 16);
            }
            let mask_hi = big_to_u64(&big_rem(&x, &sixteen));
            let pn_hi: u64 = (byte >> 4u8) as u64;
            let hi: u64 = mask_hi ^ pn_hi;
            proof {
                lemma_byte_split(byte);
                lemma_xor_widen(mask_hi, pn_hi);
                assert(nat_of(x) == xseq(x0v, nv, (j0 + 1) as nat));
                assert(hi as nat == cipher_nib(x0v, nv, plaintext@, j0) as nat);
            }
            cipher.push(big_from_u64(hi));

            x = big_rem(&big_mul(&x, &x), &self.n);
            proof {
                lemma_mod_bound(nat_of(x) as int, 16);
            }
            let mask_lo = big_to_u64(&big_rem(&x, &sixteen));
            let pn_lo: u64 = (byte & 0x0fu8) as u64;
            let lo: u64 = mask_lo ^ pn_lo;
            proof {
                lemma_xor_widen(mask_lo, pn_lo);
                assert(nat_of(x) == xseq(x0v, nv, (j0 + 2) as nat));
                assert(lo as nat == cipher_nib(x0v, nv, plaintext@, j0 + 1) as nat);
            }
            cipher.push(big_from_u64(lo));

            k = k + 1;
        }
        x = big_rem(&big_mul(&x, &x), &self.n);
        cipher.push(x);
        proof {
            lemma_mod_bound(nat_of(draw) as int, (nv - 1) as int);
            assert(1 <= r0v < nv);
            assert(vals(cipher@).len() == 2 * plaintext@.len() + 1);
            assert(encrypts_to(nv, x0v, plaintext@, vals(cipher@)));
        }
        cipher
    }
}

impl PrivateKey for BlumGoldwasserPrivateKey {
    open spec fn wf(&self) -> bool {
        &&& self.p_val() >= 3 && self.p_val() % 4 == 3
        &&& self.q_val() >= 3 && self.q_val() % 4 == 3
        &&& self.p_val() != self.q_val()
        &&& self.a_val() * self.p_val() + self.b_val() * self.q_val() == 1
    }

    open spec fn decryption(&self, c: Seq<BigUint>) -> Result<Seq<u8>, Error> {
        bg_decrypt(self.p_val(), self.q_val(), self.a_val(), self.b_val(), vals(c))
    }

    fn decrypt(&self, ciphertext: &[BigUint]) -> (r: Result<Vec<u8>, Error>) {
        let ghost pv = self.p_val();
        let ghost qv = self.q_val();
        let ghost av = self.a_val();
        let ghost bv = self.b_val();
        let ghost cvals = vals(ciphertext@);

        if ciphertext.len() == 0 {
            let empty: Vec<u8> = Vec::new();
            proof {
                assert(empty@ =~= Seq::<u8>::empty());
            }
            return Ok(empty);
        }
        let t = ciphertext.len() - 1;
        let ghost tn = t as nat;
        let ghost xt1v = cvals[t as int];
        proof {
            assert(pv * qv >= 9) by (nonlinear_arith)
                requires
                    pv >= 3,
                    qv >= 3,
            ;
        }
        let ghost nv = pv * qv;

        let one = big_from_u64(1);
        let four = big_from_u64(4);
        let n = big_mul(&self.p, &self.q);
        let exponent = big_add(&big_from_u64(t as u64), &one);

        let p_minus = big_sub(&self.p, &one);
        let base1 = big_div(&big_add(&self.p, &one), &four);
        let d1 = big_modpow(&base1, &exponent, &p_minus);

        let q_minus = big_sub(&self.q, &one);
        let base2 = big_div(&big_add(&self.q, &one), &four);
        let d2 = big_modpow(&base2, &exponent, &q_minus);

        let xt1 = &ciphertext[t];
        let u = big_modpow(xt1, &d1, &self.p);
        let v = big_modpow(xt1, &d2, &self.q);

        let ui = bigint_from_big(&u);
        let vi = bigint_from_big(&v);
        let pi = bigint_from_big(&self.p);
        let qi = bigint_from_big(&self.q);
        let ni = bigint_from_big(&n);
        let crt = bigint_add(&bigint_mul(&bigint_mul(&vi, &self.a), &pi), &bigint_mul(
            &bigint_mul(&ui, &self.b),
            &qi,
        ));
        let xm = bigint_mod_floor(&crt, &ni);
        proof {
            lemma_mod_bound(int_of(crt), nv as int);
        }
        let x_start = big_of_int(&xm);
        let ghost x0r = recon_x0(pv, qv, av, bv, tn, xt1v);
        proof {
            assert(nat_of(x_start) == x0r);
        }

        let sixteen = big_from_u64(16);
        let mut x = x_start;
        let mut nibs: Vec<u8> = Vec::new();
        let mut j: usize = 0;
        while j < t
            invariant
                nat_of(self.p) == pv,
                nat_of(self.q) == qv,
                nat_of(n) == nv,
                nv == pv * qv,
                nv >= 9,
                nat_of(sixteen) == 16,
                t < ciphertext@.len(),
                cvals == vals(ciphertext@),
                j <= t,
                nat_of(x) == xseq(x0r, nv, j as nat),
                nibs@.len() == j,
                forall|i: int| 0 <= i < j ==> #[trigger] nibs@[i] == dec_nib(x0r, nv, cvals, i),
            decreases t - j,
        {
            x = big_rem(&big_mul(&x, &x), &n);
            proof {
                lemma_mod_bound(nat_of(x) as int, 16);
                lemma_mod_bound(cvals[j as int] as int, 16);
            }
            let mask = big_to_u64(&big_rem(&x, &sixteen));
            let clow = big_to_u64(&big_rem(&ciphertext[j], &sixteen));
            let nib_wide: u64 = mask ^ clow;
            proof {
                lemma_xor_widen(mask, clow);
                assert(nat_of(x) == xseq(x0r, nv, (j + 1) as nat));
                assert((nib_wide as u8) == dec_nib(x0r, nv, cvals, j as int));
            }
            nibs.push(nib_wide as u8);
            j = j + 1;
        }
        x = big_rem(&big_mul(&x, &x), &n);
        proof {
            assert(nat_of(x) == xseq(x0r, nv, tn + 1));
        }
        if !big_eq(&x, &ciphertext[t]) {
            proof {
                assert(self.decryption(ciphertext@) == Result::<Seq<u8>, Error>::Err(
                    Error::MalformedCiphertext,
                ));
            }
            return Err(Error::MalformedCiphertext);
        }

        let mut out: Vec<u8> = Vec::new();
        let half = t / 2;
        let mut kk: usize = 0;
        while kk < half
            invariant
                half == t / 2,
                t < usize::MAX,
                kk <= half,
                nibs@.len() == t,
                forall|i: int| 0 <= i < t ==> #[trigger] nibs@[i] == dec_nib(x0r, nv, cvals, i),
                out@.len() == kk,
                forall|i: int|
                    0 <= i < kk ==> #[trigger] out@[i] == dec_bytes(x0r, nv, cvals, t as nat)[i],
            decreases half - kk,
        {
            let b: u8 = (nibs[2 * kk] << 4u8) | nibs[2 * kk + 1];
            proof {
                assert(2 * kk + 1 < t);
                assert(b == dec_bytes(x0r, nv, cvals, t as nat)[kk as int]);
            }
            out.push(b);
            kk = kk + 1;
        }
        if t % 2 == 1 {
            let b: u8 = nibs[t - 1] << 4u8;
            proof {
                assert(2 * (half as int) == t - 1);
                assert(b == dec_bytes(x0r, nv, cvals, t as nat)[half as int]);
            }
            out.push(b);
        }
        proof {
            assert(out@ =~= dec_bytes(x0r, nv, cvals, tn));
            assert(self.decryption(ciphertext@) == Result::<Seq<u8>, Error>::Ok(
                dec_bytes(x0r, nv, cvals, tn),
            ));
        }
        Ok(out)
    }
}

/// Bit facts about splitting a byte into nibbles.
proof fn lemma_byte_split(b: u8)
    by (bit_vector)
    ensures
        (b >> 4u8) < 16,
        (b & 0x0fu8) < 16,
        ((b >> 4u8) << 4u8) | (b & 0x0fu8) == b,
{
}

/// The exclusive or of two nibble-sized words stays nibble-sized and agrees
/// with the byte-sized exclusive or.
proof fn lemma_xor_widen(a: u64, b: u64)
    by (bit_vector)
    requires
        a < 16,
        b < 16,
    ensures
        (a ^ b) < 16,
        (a ^ b) as u8 == (a as u8) ^ (b as u8),
        ((a ^ b) as u8) as u64 == a ^ b,
        (a as u8) < 16,
        (b as u8) < 16,
{
}

/// Masking twice with the same nibble restores a nibble.
proof fn lemma_xor_cancel(mask: u8, nib: u8)
    by (bit_vector)
    requires
        mask < 16,
        nib < 16,
    ensures
        (mask ^ nib) < 16,
        mask ^ (mask ^ nib) == nib,
{
}

/// Round trip of the mask stream: unmasking the masked chunks of `m` with
/// the same modulus and squared seed, and re-packing the nibbles, restores
/// `m` exactly. This is the keystream half of the round-trip law; it holds
/// for every modulus, every seed and every plaintext.
pub proof fn lemma_stream_round_trip(n: nat, x0: nat, m: Seq<u8>, c: Seq<nat>)
    requires
        encrypts_to(n, x0, m, c),
    ensures
        dec_bytes(x0, n, c, (2 * m.len()) as nat) == m,
{
    let t = (2 * m.len()) as nat;
    let d = dec_bytes(x0, n, c, t);
    assert(d.len() == m.len());
    assert forall|k: int| 0 <= k < m.len() implies d[k] == m[k] by {
        let byte = m[k];
        lemma_byte_split(byte);
        lemma_nib_roundtrip(x0, n, m, c, 2 * k);
        lemma_nib_roundtrip(x0, n, m, c, 2 * k + 1);
        assert(plain_nib(m, 2 * k) == byte >> 4u8);
        assert(plain_nib(m, 2 * k + 1) == byte & 0x0fu8);
        assert(d[k] == ((byte >> 4u8) << 4u8) | (byte & 0x0fu8));
    }
    assert(d =~= m);
}

/// Unmasking one masked chunk yields the plaintext nibble.
proof fn lemma_nib_roundtrip(x0: nat, n: nat, m: Seq<u8>, c: Seq<nat>, i: int)
    requires
        encrypts_to(n, x0, m, c),
        0 <= i < 2 * m.len(),
    ensures
        dec_nib(x0, n, c, i) == plain_nib(m, i),
{
    let mask = mask_nib(x0, n, i);
    let pn = plain_nib(m, i);
    lemma_mod_bound(xseq(x0, n, (i + 1) as nat) as int, 16);
    assert(mask < 16);
    lemma_plain_nib_small(m, i);
    assert(c[i] == (mask ^ pn) as nat);
    lemma_xor_cancel(mask, pn);
    assert(c[i] < 16);
    assert(c[i] % 16 == c[i]);
    assert((c[i] % 16) as u8 == mask ^ pn);
    assert(dec_nib(x0, n, c, i) == mask ^ (mask ^ pn));
}

/// Plaintext nibbles are nibble-sized.
proof fn lemma_plain_nib_small(m: Seq<u8>, i: int)
    requires
        0 <= i < 2 * m.len(),
    ensures
        plain_nib(m, i) < 16,
{
    lemma_byte_split(m[i / 2]);
}

/// Full round trip, conditioned on seed recovery: whenever the jump-ahead
/// reconstruction returns the squared seed the encryption started from —
/// which the number theory of Blum integers guarantees for every key pair
/// whose factors are distinct primes congruent to 3 modulo 4 — decryption
/// restores the plaintext exactly.
pub proof fn lemma_round_trip_when_seed_recovered(
    p: nat,
    q: nat,
    a: int,
    b: int,
    x0: nat,
    m: Seq<u8>,
    c: Seq<nat>,
)
    requires
        encrypts_to(p * q, x0, m, c),
        recon_x0(p, q, a, b, (2 * m.len()) as nat, c[c.len() - 1]) == x0,
    ensures
        bg_decrypt(p, q, a, b, c) == Result::<Seq<u8>, Error>::Ok(m),
{
    let t = (2 * m.len()) as nat;
    assert(c.len() == t + 1);
    assert(c[c.len() - 1] == xseq(x0, p * q, t + 1));
    lemma_stream_round_trip(p * q, x0, m, c);
}

/// Generates a matched key pair: two distinct primes congruent to 3 modulo
/// 4, of bit lengths that split the requested byte size roughly in half
/// with `p` taking the larger share, together with Bezout coefficients
/// satisfying `a * p + b * q == 1`. Reports
/// [`Error::CouldNotGeneratePublicKey`] when no Bezout decomposition with
/// sum one exists for the sampled pair, or when the bounded prime search
/// finds no primes at all.
pub fn generate_keys(byte_size: usize) -> (r: Result<
    (BlumGoldwasserPublicKey, BlumGoldwasserPrivateKey),
    Error,
>)
    requires
        byte_size >= 1,
        byte_size <= usize::MAX / 8,
    ensures
        r matches Ok(ks) ==> {
            &&& ks.0.wf()
            &&& ks.1.wf()
            &&& ks.0.n_val() == ks.1.p_val() * ks.1.q_val()
            &&& is_prime(ks.1.p_val())
            &&& is_prime(ks.1.q_val())
        },
        r matches Err(e) ==> e == Error::CouldNotGeneratePublicKey,
{
    proof {
        lemma_fundamental_div_mod(usize::MAX as int, 8);
        lemma_mod_bound(usize::MAX as int, 8);
    }
    let half = byte_size / 2;
    let p_bits_raw = 8 * (byte_size - half);
    let q_bits_raw = 8 * half;
    let p_bits: u64 = if p_bits_raw < 3 {
        3
    } else {
        p_bits_raw as u64
    };
    let q_bits: u64 = if q_bits_raw < 3 {
        3
    } else {
        q_bits_raw as u64
    };

    let p = match generate_prime_3mod4(p_bits) {
        Some(p) => p,
        None => {
            return Err(Error::CouldNotGeneratePublicKey);
        },
    };

    let mut q_found: Option<BigUint> = None;
    let mut tries: u64 = 0;
    while tries < 64 && q_found.is_none()
        invariant
            q_bits >= 3,
            is_prime(nat_of(p)),
            nat_of(p) % 4 == 3,
            q_found matches Some(qc) ==> {
                &&& is_prime(nat_of(qc))
                &&& nat_of(qc) % 4 == 3
                &&& nat_of(qc) != nat_of(p)
            },
        decreases 64 - tries,
    {
        match generate_prime_3mod4(q_bits) {
            Some(qc) => {
                if !big_eq(&qc, &p) {
                    q_found = Some(qc);
                }
            },
            None => {},
        }
        tries = tries + 1;
    }
    let q = match q_found {
        Some(q) => q,
        None => {
            return Err(Error::CouldNotGeneratePublicKey);
        },
    };

    let (g, a, b) = extended_euclidean(&p, &q);
    let one = big_from_u64(1);
    if !big_eq(&g, &one) {
        return Err(Error::CouldNotGeneratePublicKey);
    }
    let n = big_mul(&p, &q);
    proof {
        assert(nat_of(p) * nat_of(q) >= 9) by (nonlinear_arith)
            requires
                nat_of(p) >= 3,
                nat_of(q) >= 3,
        ;
    }
    let public_key = BlumGoldwasserPublicKey { n };
    let private_key = BlumGoldwasserPrivateKey { p, q, a, b };
    Ok((public_key, private_key))
}

} // verus!
