use num_bigint::{BigInt, BigUint};
use num_traits::ToPrimitive;

use probabilistic_pubkey::blum_goldwasser::{
    generate_keys, BlumGoldwasserPrivateKey, BlumGoldwasserPublicKey,
};
use probabilistic_pubkey::errors::Error;
use probabilistic_pubkey::key::{PrivateKey, PublicKey};
use probabilistic_pubkey::number::extended_euclidean;
use probabilistic_pubkey::prime::{generate_prime_3mod4, is_prime_exec};

fn big(v: u64) -> BigUint {
    BigUint::from(v)
}

fn bigi(v: i64) -> BigInt {
    BigInt::from(v)
}

/// The tiny key pair p = 7, q = 11, a = -3, b = 2: both primes are 3 mod 4,
/// and -3 * 7 + 2 * 11 == 1.
fn tiny_private_key() -> BlumGoldwasserPrivateKey {
    BlumGoldwasserPrivateKey::new(big(7), big(11), bigi(-3), bigi(2)).unwrap()
}

#[test]
fn test_encrypt_decrypt() {
    let plaintext: Vec<u8> = (0u8..32).map(|i| i.wrapping_mul(37).wrapping_add(11)).collect();
    match generate_keys(8) {
        Ok((public_key, private_key)) => {
            let ciphertext = public_key.encrypt(&plaintext);
            let decrypted = private_key.decrypt(&ciphertext).unwrap();
            assert_eq!(decrypted, plaintext);
        }
        _ => panic!("key generation failed"),
    }
}

#[test]
fn round_trip_various_sizes() {
    let (public_key, private_key) = generate_keys(4).unwrap();
    let messages: Vec<Vec<u8>> = vec![
        vec![],
        vec![0x00],
        vec![0xff],
        vec![1, 2, 3, 4, 5],
        b"The quick brown fox jumps over the lazy dog".to_vec(),
    ];
    for m in messages {
        let c = public_key.encrypt(&m);
        assert_eq!(c.len(), 2 * m.len() + 1);
        assert_eq!(private_key.decrypt(&c).unwrap(), m);
    }
}

#[test]
fn round_trip_smallest_key() {
    let (public_key, private_key) = generate_keys(1).unwrap();
    let m = vec![0xa5u8, 0x01, 0xfe];
    let c = public_key.encrypt(&m);
    assert_eq!(private_key.decrypt(&c).unwrap(), m);
}

#[test]
fn non_determinism() {
    let (public_key, _private_key) = generate_keys(8).unwrap();
    let m = b"hello world".to_vec();
    let c1 = public_key.encrypt(&m);
    let c2 = public_key.encrypt(&m);
    assert_ne!(c1, c2);
}

#[test]
fn length_property() {
    let (public_key, _private_key) = generate_keys(6).unwrap();
    for len in [0usize, 1, 2, 5, 11, 32] {
        let m = vec![0x5au8; len];
        let c = public_key.encrypt(&m);
        // ceil(8 * len / 4) + 1 chunks: two per byte plus the resume residue
        assert_eq!(c.len(), 2 * len + 1);
    }
}

#[test]
fn key_validity() {
    let (public_key, private_key) = generate_keys(8).unwrap();
    let p = private_key.p().clone();
    let q = private_key.q().clone();
    assert_ne!(p, q);
    assert_eq!((&p % &big(4)).to_u64().unwrap(), 3);
    assert_eq!((&q % &big(4)).to_u64().unwrap(), 3);
    assert!(primal::is_prime(p.to_u64().unwrap()));
    assert!(primal::is_prime(q.to_u64().unwrap()));
    assert_eq!(public_key.n(), &(&p * &q));
    let a = private_key.a().clone();
    let b = private_key.b().clone();
    let sum = a * BigInt::from(p) + b * BigInt::from(q);
    assert_eq!(sum, bigi(1));
}

#[test]
fn empty_ciphertext_decrypts_to_empty() {
    let (_public_key, private_key) = generate_keys(8).unwrap();
    let decrypted = private_key.decrypt(&[]).unwrap();
    assert!(decrypted.is_empty());
}

#[test]
fn hello_world_scenario() {
    let (public_key, private_key) = generate_keys(8).unwrap();
    let m = b"hello world".to_vec();
    assert_eq!(m.len(), 11);
    let c = public_key.encrypt(&m);
    assert_eq!(c.len(), 23);
    assert_eq!(private_key.decrypt(&c).unwrap(), m);
}

#[test]
fn malformed_ciphertext_is_reported() {
    let private_key = tiny_private_key();
    // 5 is not a quadratic residue modulo 77 (it is a non-residue modulo 7),
    // so no squaring sequence can end in it
    let c = vec![big(3), big(5)];
    assert_eq!(private_key.decrypt(&c), Err(Error::MalformedCiphertext));
}

#[test]
fn decrypt_known_values() {
    // built by hand from x0 = 9 modulo 77: the residue sequence is
    // 4, 16, 25; masks 4 and 0 encrypt the nibbles of 0xa7 as 14 and 7,
    // and the resume residue is 25
    let private_key = tiny_private_key();
    let c = vec![big(14), big(7), big(25)];
    assert_eq!(private_key.decrypt(&c), Ok(vec![0xa7]));
}

#[test]
fn decrypt_odd_chunk_count() {
    // one masked chunk and the resume residue: from x0 = 9 modulo 77 the
    // masks are 4 (from residue 4) and the next residue is 16; the single
    // nibble 0xa encrypts to 4 xor 10 == 14, and the lone recovered nibble
    // becomes the high half of the only output byte
    let private_key = tiny_private_key();
    let c = vec![big(14), big(16)];
    assert_eq!(private_key.decrypt(&c), Ok(vec![0xa0]));
}

#[test]
fn decrypt_single_element_genuine() {
    // the one-element ciphertext [x1] decrypts to the empty message when
    // x1 lies on a squaring sequence: 9^2 mod 77 == 4
    let private_key = tiny_private_key();
    assert_eq!(private_key.decrypt(&[big(4)]), Ok(vec![]));
}

#[test]
fn private_key_new_rejects_bad_parts() {
    // equal factors
    assert!(BlumGoldwasserPrivateKey::new(big(7), big(7), bigi(-3), bigi(2)).is_none());
    // factor not 3 modulo 4
    assert!(BlumGoldwasserPrivateKey::new(big(5), big(11), bigi(-3), bigi(2)).is_none());
    // factor below three
    assert!(BlumGoldwasserPrivateKey::new(big(2), big(11), bigi(-3), bigi(2)).is_none());
    // wrong Bezout coefficients
    assert!(BlumGoldwasserPrivateKey::new(big(7), big(11), bigi(2), bigi(-3)).is_none());
    // a valid set passes
    assert!(BlumGoldwasserPrivateKey::new(big(7), big(11), bigi(-3), bigi(2)).is_some());
}

#[test]
fn private_key_getters() {
    let k = tiny_private_key();
    assert_eq!(k.p(), &big(7));
    assert_eq!(k.q(), &big(11));
    assert_eq!(k.a(), &bigi(-3));
    assert_eq!(k.b(), &bigi(2));
}

#[test]
fn public_key_new() {
    assert!(BlumGoldwasserPublicKey::new(big(1)).is_none());
    let pk = BlumGoldwasserPublicKey::new(big(77)).unwrap();
    assert_eq!(pk.n(), &big(77));
}

#[test]
fn extended_euclidean_coprime() {
    let (g, a, b) = extended_euclidean(&big(7), &big(11));
    assert_eq!(g, big(1));
    assert_eq!(a * bigi(7) + b * bigi(11), bigi(1));
}

#[test]
fn extended_euclidean_common_factor() {
    let (g, a, b) = extended_euclidean(&big(12), &big(18));
    assert_eq!(g, big(6));
    assert_eq!(a * bigi(12) + b * bigi(18), bigi(6));
}

#[test]
fn extended_euclidean_zero() {
    let (g, a, b) = extended_euclidean(&big(9), &big(0));
    assert_eq!(g, big(9));
    assert_eq!(a * bigi(9) + b * bigi(0), bigi(9));
}

#[test]
fn trial_division_matches_primality() {
    let primes = [2u64, 3, 5, 7, 11, 97, 65537, 4294967291];
    let composites = [0u64, 1, 4, 9, 15, 91, 65535, 4294967295];
    for p in primes {
        assert!(is_prime_exec(&big(p)), "{} should be prime", p);
    }
    for c in composites {
        assert!(!is_prime_exec(&big(c)), "{} should not be prime", c);
    }
}

#[test]
fn generated_primes_have_requested_shape() {
    let p = generate_prime_3mod4(16).unwrap();
    let v = p.to_u64().unwrap();
    assert!(v >= 1 << 15 && v < 1 << 16);
    assert_eq!(v % 4, 3);
    assert!(primal::is_prime(v));
}
