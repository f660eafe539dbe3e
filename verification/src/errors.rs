//! Error taxonomy of the library.

use vstd::prelude::*;

verus! {

/// What key generation and decryption can report.
#[derive(Clone, Copy, Debug, PartialEq, Eq, Structural)]
pub enum Error {
    /// The sampled prime pair admitted no Bezout decomposition with
    /// coefficient sum one, or no suitable primes were found at all.
    CouldNotGeneratePublicKey,
    /// The ciphertext's trailing residue is not reachable by squaring from
    /// the value decryption reconstructs, so the input was not produced by a
    /// genuine encryption under this key.
    MalformedCiphertext,
}

} // verus!
