use vstd::prelude::*;

verus! {

/// Errors that can arise while decoding an encoded option list.
///
/// `UnknownOption` and `InvalidValue` carry the raw bytes of the option name
/// they refer to.
#[derive(Debug, Clone, PartialEq, Eq)]
pub enum DecodeError {
    /// The option name is not in the registry.
    UnknownOption(Vec<u8>),
    /// The text itself is broken: a segment without `=`, or a `%` that is not
    /// followed by two hexadecimal digits.
    Malformed,
    /// The value does not parse as the kind the registry gives for the name.
    InvalidValue(Vec<u8>),
}

/// Mathematical model of `DecodeError`.
pub enum DecodeErrorV {
    UnknownOption(Seq<u8>),
    Malformed,
    InvalidValue(Seq<u8>),
}

impl View for DecodeError {
    type V = DecodeErrorV;

    open spec fn view(&self) -> DecodeErrorV {
        match self {
            DecodeError::UnknownOption(name) => DecodeErrorV::UnknownOption(name@),
            DecodeError::Malformed => DecodeErrorV::Malformed,
            DecodeError::InvalidValue(name) => DecodeErrorV::InvalidValue(name@),
        }
    }
}

} // verus!
