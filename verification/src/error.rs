//! The error type shared by all converter operations.

use vstd::prelude::*;

use crate::strutil::concat2;

verus! {

/// Spec-level value of a [`CuriesError`]: the same variants over character
/// sequences.
pub enum ErrorView {
    NotFound(Seq<char>),
    InvalidCurie(Seq<char>),
    InvalidFormat(Seq<char>),
    DuplicateRecord(Seq<char>),
    Utf8(Seq<char>),
    StdIo(Seq<char>),
    SerdeJson(Seq<char>),
    Reqwest(Seq<char>),
}

/// Errors returned by this library.
///
/// The converter logic itself only produces the first four variants; the
/// remaining ones exist so that callers doing I/O or parsing around the
/// library can surface their failures under the same type.
#[derive(Debug)]
pub enum CuriesError {
    NotFound(String),
    InvalidCurie(String),
    InvalidFormat(String),
    DuplicateRecord(String),
    Utf8(String),
    StdIo(String),
    SerdeJson(String),
    Reqwest(String),
}

impl View for CuriesError {
    type V = ErrorView;

    open spec fn view(&self) -> ErrorView {
        match self {
            CuriesError::NotFound(s) => ErrorView::NotFound(s@),
            CuriesError::InvalidCurie(s) => ErrorView::InvalidCurie(s@),
            CuriesError::InvalidFormat(s) => ErrorView::InvalidFormat(s@),
            CuriesError::DuplicateRecord(s) => ErrorView::DuplicateRecord(s@),
            CuriesError::Utf8(s) => ErrorView::Utf8(s@),
            CuriesError::StdIo(s) => ErrorView::StdIo(s@),
            CuriesError::SerdeJson(s) => ErrorView::SerdeJson(s@),
            CuriesError::Reqwest(s) => ErrorView::Reqwest(s@),
        }
    }
}

/// The human-readable message of an error: its category followed by the
/// offending key or detail.
pub open spec fn spec_message(e: ErrorView) -> Seq<char> {
    match e {
        ErrorView::NotFound(s) => "Not found: "@ + s,
        ErrorView::InvalidCurie(s) => "Invalid CURIE: "@ + s,
        ErrorView::InvalidFormat(s) => "Invalid format: "@ + s,
        ErrorView::DuplicateRecord(s) => "Duplicate record found for prefix: "@ + s,
        ErrorView::Utf8(s) => "Error decoding UTF-8: "@ + s,
        ErrorView::StdIo(s) => "Error reading file: "@ + s,
        ErrorView::SerdeJson(s) => "Error parsing JSON: "@ + s,
        ErrorView::Reqwest(s) => "Error sending request: "@ + s,
    }
}

impl CuriesError {
    /// Renders the error as a message prefixed by its category.
    pub fn to_string(&self) -> (r: String)
        ensures
            r@ == spec_message(self@),
    {
        match self {
            CuriesError::NotFound(s) => concat2("Not found: ", s.as_str()),
            CuriesError::InvalidCurie(s) => concat2("Invalid CURIE: ", s.as_str()),
            CuriesError::InvalidFormat(s) => concat2("Invalid format: ", s.as_str()),
            CuriesError::DuplicateRecord(s) => concat2(
                "Duplicate record found for prefix: ",
                s.as_str(),
            ),
            CuriesError::Utf8(s) => concat2("Error decoding UTF-8: ", s.as_str()),
            CuriesError::StdIo(s) => concat2("Error reading file: ", s.as_str()),
            CuriesError::SerdeJson(s) => concat2("Error parsing JSON: ", s.as_str()),
            CuriesError::Reqwest(s) => concat2("Error sending request: ", s.as_str()),
        }
    }
}

} // verus!
