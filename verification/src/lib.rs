//! Private-set-intersection of contact lists over homomorphic encryption.
//!
//! One party enrolls: it encodes its contact identifiers, encrypts them under
//! a fresh secret key, and publishes the ciphertexts together with a
//! compute-only key.  The other party compares every remote ciphertext
//! against its own list homomorphically and returns, per remote entry, an
//! encrypted boolean that only the enrolling party can decrypt.

pub mod bundle;
pub mod codec;
pub mod compressor;
pub mod compute;
pub mod envelope;
pub mod errors;
