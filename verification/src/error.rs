//! The error taxonomy of the fetch layer.

use vstd::prelude::*;

verus! {

/// Why a fetch or decode failed.
///
/// Every failure of the library is one of these; errors propagate unchanged
/// to the caller, with no local recovery, retry or fallback content.
#[derive(Clone, Copy, Debug, PartialEq, Eq, Structural)]
pub enum FetchError {
    /// The resource does not exist under the base location.
    NotFound,
    /// A request failed: transport failure, non-success status, body read failure.
    NetworkError,
    /// Bytes were not valid UTF-8 where text was expected.
    EncodingError,
    /// The fetched text is not a valid model or material description.
    ParseError,
}

impl FetchError {
    /// A short human-readable description of the error.
    pub fn describe(&self) -> (r: &'static str)
        ensures
            r@ == self.spec_describe(),
    {
        match self {
            FetchError::NotFound => "resource not found under the base location",
            FetchError::NetworkError => "network request failed",
            FetchError::EncodingError => "resource bytes are not valid UTF-8",
            FetchError::ParseError => "resource text is not a valid model description",
        }
    }

    /// What `describe` returns, for each variant.
    pub open spec fn spec_describe(&self) -> Seq<char> {
        match self {
            FetchError::NotFound => "resource not found under the base location"@,
            FetchError::NetworkError => "network request failed"@,
            FetchError::EncodingError => "resource bytes are not valid UTF-8"@,
            FetchError::ParseError => "resource text is not a valid model description"@,
        }
    }
}

} // verus!
