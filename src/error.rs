use vstd::prelude::*;

verus! {

/// Error type for ML-KEM operations.
///
/// The variants are deliberately coarse, so that an error says nothing that
/// could help a side-channel attacker.
#[derive(Clone, Copy, Debug, PartialEq, Eq, Structural)]
pub enum KemError {
    /// An input has the wrong length or an encoded value is out of range.
    InvalidInput,
    /// Decapsulation failed (never returned: decapsulation rejects implicitly).
    DecapsulationFailure,
    /// An encoding or decoding step failed.
    EncodingError,
}

impl KemError {
    /// A short human-readable description of the error.
    pub fn message(&self) -> (r: &'static str)
        ensures
            *self == KemError::InvalidInput ==> r@ == "Invalid input"@,
            *self == KemError::DecapsulationFailure ==> r@ == "Decapsulation failed"@,
            *self == KemError::EncodingError ==> r@ == "Encoding error"@,
    {
        match self {
            KemError::InvalidInput => "Invalid input",
            KemError::DecapsulationFailure => "Decapsulation failed",
            KemError::EncodingError => "Encoding error",
        }
    }
}

/// Result type of the fallible ML-KEM operations.
pub type Result<T> = core::result::Result<T, KemError>;

} // verus!
