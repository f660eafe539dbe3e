//! Blum-Goldwasser probabilistic public-key encryption.
//!
//! Ciphertexts are randomized: a fresh quadratic residue seeds a squaring
//! sequence whose low bits mask the plaintext, and the final residue is
//! appended so that the holder of the factorization can jump directly back
//! to the start of the mask stream.

pub mod arith;
pub mod bigint;
pub mod blum_goldwasser;
pub mod errors;
pub mod key;
pub mod number;
pub mod prime;
