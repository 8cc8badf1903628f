//! The error type of score parsing and writing.

use vstd::prelude::*;

verus! {

/// An I/O error, carried through unchanged.
#[verifier::external_type_specification]
#[verifier::external_body]
pub struct ExIoError(std::io::Error);

/// Error of Guitar Pro file parsing and writing.
#[derive(Debug)]
#[non_exhaustive]
pub enum GpError {
    /// Reached the end of the binary data unexpectedly.
    UnexpectedEof { offset: usize, needed: usize },
    /// An invalid enum or flag value was met while parsing.
    InvalidValue { context: &'static str, value: i64 },
    /// A string could not be decoded.
    StringDecode { offset: usize },
    /// A ZIP, XML or format-level error of GP6/GP7 parsing.
    FormatError(String),
    /// An I/O error.
    Io(std::io::Error),
    /// A value was out of range for its target type.
    TypeConversion { context: &'static str, value: i64 },
    /// Required state was not set.
    MissingState { field: &'static str },
    /// A write failed.
    WriteError(String),
}

/// A result whose error is a `GpError`.
pub type GpResult<T> = Result<T, GpError>;

impl From<String> for GpError {
    /// A message becomes a format error.
    fn from(msg: String) -> (r: GpError) {
        GpError::FormatError(msg)
    }
}

impl vstd::std_specs::convert::FromSpecImpl<String> for GpError {
    open spec fn obeys_from_spec() -> bool {
        true
    }

    open spec fn from_spec(msg: String) -> GpError {
        GpError::FormatError(msg)
    }
}

impl From<std::io::Error> for GpError {
    /// An I/O error is wrapped as such.
    fn from(e: std::io::Error) -> (r: GpError) {
        GpError::Io(e)
    }
}

impl vstd::std_specs::convert::FromSpecImpl<std::io::Error> for GpError {
    open spec fn obeys_from_spec() -> bool {
        true
    }

    open spec fn from_spec(e: std::io::Error) -> GpError {
        GpError::Io(e)
    }
}

} // verus!
