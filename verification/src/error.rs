//! Errors of loading and reading timelines.
use vstd::prelude::*;

verus! {

/// How JSON reading failed.
#[derive(Debug)]
pub enum JsonFailure {
    /// The text is not JSON, or serde could not read a value; its message.
    Message(String),
    /// A value cannot be read as the type that it was asked for as.
    Shape(&'static str),
}

/// Why loading or reading a timeline failed.
#[allow(inconsistent_fields)]
#[derive(Debug)]
pub enum TimelineError {
    /// Reading the data failed; the reader's message.
    Io(String),
    /// The data is not JSON, or a JSON value does not have the shape of the
    /// type that it is read as.
    JsonError(JsonFailure),
    /// A JSON value does not have the type that was expected.
    IncorrectValueType(&'static str),
    /// Keyframes were asked for as another type than they hold.
    TypeNotMatch { request: &'static str, actual: &'static str },
    /// No value type is known by the name that a target gives.
    UnknownTargetType(String),
    /// Any other failure.
    UnknownError(String),
    /// A key that is needed is missing.
    NotExistItem(&'static str),
    /// An array does not have the length that was expected.
    InvalidLength { required: usize, actual: usize },
}

} // verus!
