//! The trusted bridges to the outside crates the vault relies on:
//! identifiers, wall-clock readings and base64 decoding.

use vstd::prelude::*;

verus! {

/// What the standard base64 alphabet decodes a string to, when the
/// string is well-formed; ill-formed input decodes to nothing.
pub uninterp spec fn base64_decoded(s: Seq<char>) -> Option<Seq<u8>>;

/// Relies on uuid's version-4 generation and hyphenated rendering: a
/// fresh random identifier, written as 36 characters. Like an
/// allocation failure, an OS random source failure aborts rather than
/// returning.
#[verifier::external_body]
pub fn new_uuid() -> (r: String)
    ensures
        r@.len() == 36,
{
    uuid::Uuid::new_v4().to_string()
}

/// Relies on chrono's wall clock and RFC 3339 rendering. The reading
/// depends on the moment of the call, so nothing is promised beyond a
/// non-empty text.
#[verifier::external_body]
pub fn now_rfc3339() -> (r: String)
    ensures
        r@.len() > 0,
{
    chrono::Utc::now().to_rfc3339()
}

/// Relies on chrono's wall clock: the current time as UNIX
/// milliseconds. The reading depends on the moment of the call, so
/// nothing is promised about it.
#[verifier::external_body]
pub fn now_millis() -> (r: i64) {
    chrono::Utc::now().timestamp_millis()
}

/// Relies on base64's standard-alphabet engine: decodes the text, or
/// reports that it is not valid base64. The outcome depends on the
/// characters alone.
#[verifier::external_body]
pub fn base64_decode(s: &str) -> (r: Result<Vec<u8>, ()>)
    ensures
        match r {
            Ok(bytes) => base64_decoded(s@) == Some(bytes@),
            Err(_) => base64_decoded(s@) is None,
        },
{
    match base64::Engine::decode(&base64::engine::general_purpose::STANDARD, s.as_bytes()) {
        Ok(bytes) => Ok(bytes),
        Err(_) => Err(()),
    }
}

} // verus!
