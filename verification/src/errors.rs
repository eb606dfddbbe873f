use vstd::prelude::*;

verus! {

/// The error kinds that the library's fallible operations surface.
///
/// Every failure of a core operation is reported as one of these values;
/// none of the library's verified functions panics.
#[derive(Clone, Copy, Debug, PartialEq, Eq, Structural)]
pub enum Error {
    /// An external identifier string does not match the expected shape.
    FormatError,
    /// A compressed payload is corrupt and could not be decompressed.
    DecompressionError,
    /// Bytes do not hold a well-formed serialized bundle structure.
    DeserializationError,
    /// A key and a ciphertext were produced under incompatible
    /// encryption-parameter profiles.
    CryptoConfigMismatch,
    /// An identifier list that must be non-empty was empty.
    EmptyInputError,
}

} // verus!
