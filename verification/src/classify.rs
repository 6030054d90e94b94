//! Content classification: a pure function of a payload's leading bytes
//! ("magic numbers"), never of a client-supplied filename or MIME claim.

use vstd::prelude::*;

use crate::error::ApiError;
use crate::records::ContentType;

verus! {

/// What `infer::get` detects for the given bytes: a category code and a file
/// extension, or nothing when no known signature matches. A function of the
/// bytes alone.
pub uninterp spec fn sniff_of(b: Seq<u8>) -> Option<(int, Seq<char>)>;

/// The coarse category a detected code falls under.
pub open spec fn category_of(code: int) -> ContentType {
    if code == 0 {
        ContentType::Video
    } else if code == 1 {
        ContentType::Image
    } else {
        ContentType::Other
    }
}

/// The classification of a payload: its category and extension, or nothing.
pub open spec fn spec_classify(b: Seq<u8>) -> Option<(ContentType, Seq<char>)> {
    match sniff_of(b) {
        None => None,
        Some(p) => Some((category_of(p.0), p.1)),
    }
}

/// Relies on `infer::get`: the detected type, its matcher category and its
/// extension depend on the buffer's bytes alone; detection fails when no
/// known signature matches.
#[verifier::external_body]
fn sniff(data: &Vec<u8>) -> (r: Option<(ContentType, String)>)
    ensures
        r is Some <==> sniff_of(data@) is Some,
        r matches Some((c, e)) ==> sniff_of(data@) matches Some(p) && c == category_of(p.0) && e@
            == p.1,
{
    match infer::get(data) {
        Some(t) => {
            let c = match t.matcher_type() {
                infer::MatcherType::Video => ContentType::Video,
                infer::MatcherType::Image => ContentType::Image,
                _ => ContentType::Other,
            };
            Some((c, t.extension().to_string()))
        },
        None => None,
    }
}

/// Classifies a payload; an unclassifiable payload is an internal error, as
/// the ingestion contract demands.
pub fn classify(data: &Vec<u8>) -> (r: Result<(ContentType, String), ApiError>)
    ensures
        r matches Ok((c, e)) ==> spec_classify(data@) == Some((c, e@)),
        r is Ok <==> spec_classify(data@) is Some,
        r matches Err(e) ==> e == ApiError::Internal,
{
    match sniff(data) {
        Some(x) => Ok(x),
        None => Err(ApiError::Internal),
    }
}

/// Classification is idempotent: equal byte buffers classify to the same
/// category and extension, however often the question is asked.
pub proof fn lemma_classification_deterministic(b1: Seq<u8>, b2: Seq<u8>)
    requires
        b1 == b2,
    ensures
        spec_classify(b1) == spec_classify(b2),
{
}

} // verus!
