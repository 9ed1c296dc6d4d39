//! Failure kinds of the message codec.

use vstd::prelude::*;

verus! {

/// What went wrong while encoding or decoding a message body.
#[derive(Debug)]
pub enum AbiErrorKind {
    /// An argument's declared type does not match the corresponding input
    /// parameter's type.
    WrongParameterType,
    /// The leading 32-bit field does not match the expected identifier; the
    /// payload is the identifier actually read.
    WrongId(u32),
    /// The body ran out of data while a field was still owed, or data was
    /// left over after every declared parameter had been read.
    IncompleteDeserializationError,
    /// Malformed input found before identifier validation, such as a missing
    /// leading reference.
    InvalidInputData(String),
}

pub type AbiResult<T> = Result<T, AbiErrorKind>;

impl AbiErrorKind {
    /// A short description of the failure kind.
    pub fn describe(&self) -> (r: &'static str)
        ensures
            matches!(*self, AbiErrorKind::WrongParameterType) ==> r@ == "wrong parameter type"@,
            matches!(*self, AbiErrorKind::WrongId(_)) ==> r@ == "wrong function identifier"@,
            matches!(*self, AbiErrorKind::IncompleteDeserializationError) ==> r@
                == "incomplete deserialization"@,
            matches!(*self, AbiErrorKind::InvalidInputData(_)) ==> r@ == "invalid input data"@,
    {
        match self {
            AbiErrorKind::WrongParameterType => "wrong parameter type",
            AbiErrorKind::WrongId(_) => "wrong function identifier",
            AbiErrorKind::IncompleteDeserializationError => "incomplete deserialization",
            AbiErrorKind::InvalidInputData(_) => "invalid input data",
        }
    }
}

} // verus!
