//! The failure taxonomy of the conversion pipeline. Every failure is
//! terminal for its invocation; no partial output is ever produced.

use vstd::prelude::*;

verus! {

/// Spec-level picture of a failure, over mathematical values.
pub enum ErrorV {
    /// The input held no record at all.
    MissingHeader,
    /// The input text could not be read: invalid encoding, or a quoted
    /// field in the header record left unterminated.
    MalformedHeader,
    /// The resolved header name set differs from the schema; carries the
    /// two sides of the symmetric difference.
    SchemaMismatch { missing: Seq<Seq<char>>, unexpected: Seq<Seq<char>> },
    /// A data record whose field count differs from the header's, or one
    /// truncated by a quoted field left unterminated.
    RowShapeMismatch { row: int },
    /// An `address_type` value outside the closed enumeration.
    InvalidEnumValue { field: Seq<char>, value: Seq<char> },
    /// A `street_number` value that is not a strict unsigned decimal.
    InvalidNumericValue { field: Seq<char>, value: Seq<char> },
    /// The serialisation back-end refused a validated record; indicates a
    /// defect in the encoder, never bad input.
    SerializationFailure,
}

/// Why a conversion was rejected.
#[derive(Debug)]
pub enum ParseError {
    /// The input held no record at all.
    MissingHeader,
    /// The input text could not be read.
    MalformedHeader,
    /// The header names are not exactly the schema: `missing` lists schema
    /// names absent from the header, in schema order; `unexpected` lists
    /// header names outside the schema, in input order.
    SchemaMismatch { missing: Vec<String>, unexpected: Vec<String> },
    /// A data record with the wrong shape; `row` is its position among the
    /// data records, counted from zero.
    RowShapeMismatch { row: usize },
    /// The offending field and its text.
    InvalidEnumValue { field: String, value: String },
    /// The offending field and its text.
    InvalidNumericValue { field: String, value: String },
    /// The serialisation back-end refused a validated record.
    SerializationFailure,
}

impl View for ParseError {
    type V = ErrorV;

    open spec fn view(&self) -> ErrorV {
        match self {
            ParseError::MissingHeader => ErrorV::MissingHeader,
            ParseError::MalformedHeader => ErrorV::MalformedHeader,
            ParseError::SchemaMismatch { missing, unexpected } => ErrorV::SchemaMismatch {
                missing: missing.deep_view(),
                unexpected: unexpected.deep_view(),
            },
            ParseError::RowShapeMismatch { row } => ErrorV::RowShapeMismatch { row: *row as int },
            ParseError::InvalidEnumValue { field, value } => ErrorV::InvalidEnumValue {
                field: field@,
                value: value@,
            },
            ParseError::InvalidNumericValue { field, value } => ErrorV::InvalidNumericValue {
                field: field@,
                value: value@,
            },
            ParseError::SerializationFailure => ErrorV::SerializationFailure,
        }
    }
}

} // verus!
