//! Reason phrases of status codes, taken from the `http` crate.

use vstd::prelude::*;

verus! {

/// What `http::StatusCode::canonical_reason` returns for the status code
/// `status`: the standard reason phrase, where the code has one.
pub uninterp spec fn canonical_reason_of(status: u16) -> Option<Seq<u8>>;

/// Calls `http::StatusCode::canonical_reason` for the code `status`.
///
/// Believed, not proved: the result is the phrase named
/// `canonical_reason_of`. Codes from 100 to 999 are the ones that
/// `http::StatusCode` can hold.
#[verifier::external_body]
pub(crate) fn canonical_reason(status: u16) -> (r: Option<Vec<u8>>)
    requires
        100 <= status <= 999,
    ensures
        match r {
            Some(phrase) => canonical_reason_of(status) == Some(phrase@),
            None => canonical_reason_of(status) is None,
        },
{
    http::StatusCode::from_u16(status).unwrap().canonical_reason().map(|s| s.as_bytes().to_vec())
}

/// The phrase that goes with `status` on a status line: its standard
/// reason phrase, or nothing where it has none.
pub open spec fn reason_text(status: u16) -> Seq<u8> {
    if 100 <= status <= 999 {
        phrase_or_empty(canonical_reason_of(status))
    } else {
        Seq::empty()
    }
}

/// `found`, or the empty phrase where nothing was found.
pub open spec fn phrase_or_empty(found: Option<Seq<u8>>) -> Seq<u8> {
    match found {
        Some(phrase) => phrase,
        None => Seq::empty(),
    }
}

/// The phrase to write where the lookup of a reason phrase gave `found`.
pub fn phrase_from(found: Option<Vec<u8>>) -> (r: Vec<u8>)
    ensures
        r@ == phrase_or_empty(
            match found {
                Some(phrase) => Some(phrase@),
                None => None,
            },
        ),
{
    match found {
        Some(phrase) => phrase,
        None => Vec::new(),
    }
}

/// The phrase that goes with `status` on a status line.
pub fn reason_phrase(status: u16) -> (r: Vec<u8>)
    ensures
        r@ == reason_text(status),
{
    if 100 <= status && status <= 999 {
        phrase_from(canonical_reason(status))
    } else {
        Vec::new()
    }
}

} // verus!
