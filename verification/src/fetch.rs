//! Turning the raw outcome of a read into fetched content.
//!
//! The host program resolves a name through [`crate::base::BaseLocation`],
//! performs the read there (a file read or an HTTP GET) and reports what
//! happened as a [`FetchOutcome`]. The functions here decide, for every
//! possible outcome, what the fetch returns: raw bytes, decoded text, or
//! which error.

use vstd::prelude::*;
use vstd::utf8::{decode_utf8, valid_utf8};

use crate::error::FetchError;

verus! {

/// What a single read attempt came to, as the host program reports it.
#[derive(Debug)]
pub enum FetchOutcome {
    /// The resource was found and read whole; these are its bytes.
    Data(Vec<u8>),
    /// The resource does not exist under the base location.
    Absent,
    /// A request was made and failed: transport failure, non-success
    /// status, or a body that could not be read.
    Failed,
}

/// What a binary fetch returns for each outcome: the bytes as read, or the
/// error the outcome dictates.
pub open spec fn spec_complete_binary(o: FetchOutcome) -> Result<Seq<u8>, FetchError> {
    match o {
        FetchOutcome::Data(b) => Ok(b@),
        FetchOutcome::Absent => Err(FetchError::NotFound),
        FetchOutcome::Failed => Err(FetchError::NetworkError),
    }
}

/// What a text fetch returns for each outcome: the bytes decoded as UTF-8,
/// or the error the outcome dictates; bytes that are not valid UTF-8 are an
/// encoding error.
pub open spec fn spec_complete_text(o: FetchOutcome) -> Result<Seq<char>, FetchError> {
    match o {
        FetchOutcome::Data(b) => if valid_utf8(b@) {
            Ok(decode_utf8(b@))
        } else {
            Err(FetchError::EncodingError)
        },
        FetchOutcome::Absent => Err(FetchError::NotFound),
        FetchOutcome::Failed => Err(FetchError::NetworkError),
    }
}

/// Relies on `String::from_utf8`: it returns `Ok` exactly when the bytes
/// are valid UTF-8, and the string then reads back as those bytes, so its
/// characters are their UTF-8 decoding.
#[verifier::external_body]
fn string_from_utf8(v: &Vec<u8>) -> (r: Option<String>)
    ensures
        r is Some <==> valid_utf8(v@),
        r matches Some(s) ==> s@ == decode_utf8(v@),
{
    String::from_utf8(v.clone()).ok()
}

/// Completes a binary fetch: hands the bytes through untouched, or reports
/// the error the outcome dictates. Content is never invented: an `Ok` comes
/// only from a read that found the resource.
pub fn complete_binary(o: FetchOutcome) -> (r: Result<Vec<u8>, FetchError>)
    ensures
        (r matches Ok(b) ==> spec_complete_binary(o) == Ok::<Seq<u8>, FetchError>(b@)),
        (r matches Err(e) ==> spec_complete_binary(o) == Err::<Seq<u8>, FetchError>(e)),
{
    match o {
        FetchOutcome::Data(b) => Ok(b),
        FetchOutcome::Absent => Err(FetchError::NotFound),
        FetchOutcome::Failed => Err(FetchError::NetworkError),
    }
}

/// Completes a text fetch: decodes the bytes as UTF-8, or reports the error
/// the outcome dictates.
pub fn complete_text(o: FetchOutcome) -> (r: Result<String, FetchError>)
    ensures
        (r matches Ok(t) ==> spec_complete_text(o) == Ok::<Seq<char>, FetchError>(t@)),
        (r matches Err(e) ==> spec_complete_text(o) == Err::<Seq<char>, FetchError>(e)),
{
    match o {
        FetchOutcome::Data(b) => match string_from_utf8(&b) {
            Some(s) => Ok(s),
            None => Err(FetchError::EncodingError),
        },
        FetchOutcome::Absent => Err(FetchError::NotFound),
        FetchOutcome::Failed => Err(FetchError::NetworkError),
    }
}

/// Law: a text fetch and a binary fetch of the same resource agree. When
/// the text fetch succeeds, the binary fetch succeeds on the same outcome
/// and decoding its bytes as UTF-8 gives back exactly the text; conversely,
/// when the binary fetch yields valid UTF-8 bytes, the text fetch succeeds
/// with their decoding.
pub proof fn lemma_text_binary_round_trip(o: FetchOutcome)
    ensures
        spec_complete_text(o) matches Ok(t) ==> (spec_complete_binary(o) matches Ok(b)
            && valid_utf8(b) && decode_utf8(b) == t),
        o is Data && valid_utf8(o->Data_0@) ==> spec_complete_binary(o) == Ok::<
            Seq<u8>,
            FetchError,
        >(o->Data_0@) && spec_complete_text(o) == Ok::<Seq<char>, FetchError>(
            decode_utf8(o->Data_0@),
        ),
{
}

/// Law: a name that does not resolve to a resource always fails, with
/// `NotFound` for a missing file and `NetworkError` for a failed request;
/// no outcome other than a successful read ever yields content, so nothing
/// is ever silently returned empty.
pub proof fn lemma_missing_resource_fails(o: FetchOutcome)
    ensures
        o is Absent ==> spec_complete_binary(o) == Err::<Seq<u8>, FetchError>(FetchError::NotFound)
            && spec_complete_text(o) == Err::<Seq<char>, FetchError>(FetchError::NotFound),
        o is Failed ==> spec_complete_binary(o) == Err::<Seq<u8>, FetchError>(
            FetchError::NetworkError,
        ) && spec_complete_text(o) == Err::<Seq<char>, FetchError>(FetchError::NetworkError),
        spec_complete_binary(o) is Ok ==> o is Data,
        spec_complete_text(o) is Ok ==> o is Data,
{
}

} // verus!
