//! Error values reported when a wire record cannot be decoded.

use vstd::prelude::*;

verus! {

/// The fields that the run-request and run-result wire records know about.
#[derive(Clone, Copy, Debug, PartialEq, Eq, Structural)]
pub enum WireField {
    /// `target`: the build target to run (required on a request).
    Target,
    /// `originId`: the client's correlation token (optional).
    OriginId,
    /// `arguments`: arguments for the executed application (optional).
    Arguments,
    /// `dataKind`: discriminator for the shape of `data` (optional).
    DataKind,
    /// `data`: open-ended extension value (optional).
    Data,
    /// `statusCode`: the execution status (required on a result).
    StatusCode,
}

/// Why decoding a wire record failed.
#[derive(Clone, Copy, Debug, PartialEq, Eq, Structural)]
pub enum MalformedMessage {
    /// The text is not a well-formed record: bad punctuation, an unterminated
    /// string, an unbalanced bracket, and the like.
    Syntax,
    /// A field that the record must carry is not present.
    MissingRequiredField(WireField),
    /// A field is present but its value does not have the expected shape,
    /// for instance a `statusCode` that is not a non-negative integer.
    InvalidFieldValue(WireField),
    /// The same field appears twice in one record.
    DuplicateField(WireField),
}

} // verus!
