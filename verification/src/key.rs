//! Capability interfaces shared by the probabilistic public-key schemes.

use vstd::prelude::*;

use num_bigint::BigUint;

use crate::errors::Error;

verus! {

/// A key that can encrypt byte sequences into sequences of big integers.
pub trait PublicKey: Sized {
    /// The key is structurally sound for use.
    spec fn wf(&self) -> bool;

    /// What the scheme guarantees of a ciphertext produced for `m`.
    spec fn cipher_ok(&self, m: Seq<u8>, c: Seq<BigUint>) -> bool;

    /// Encrypts a plaintext; the operation is total over byte sequences.
    fn encrypt(&self, plaintext: &[u8]) -> (c: Vec<BigUint>)
        requires
            self.wf(),
        ensures
            self.cipher_ok(plaintext@, c@),
    ;
}

/// A key that can decrypt sequences of big integers back into bytes.
pub trait PrivateKey: Sized {
    /// The key is structurally sound for use.
    spec fn wf(&self) -> bool;

    /// The exact result decryption computes on the given ciphertext.
    spec fn decryption(&self, c: Seq<BigUint>) -> Result<Seq<u8>, Error>;

    /// Decrypts a ciphertext, reporting a malformed one as an error.
    fn decrypt(&self, ciphertext: &[BigUint]) -> (r: Result<Vec<u8>, Error>)
        requires
            self.wf(),
        ensures
            match r {
                Ok(plain) => self.decryption(ciphertext@) matches Ok(s) && plain@ == s,
                Err(e) => self.decryption(ciphertext@) matches Err(e2) && e == e2,
            },
    ;
}

} // verus!
