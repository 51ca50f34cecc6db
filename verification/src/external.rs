//! Trusted declarations for the outside crates the library computes with:
//! semver (version compatibility of stored segments) and uuid (segment
//! directory names and UUID point ids).

use vstd::prelude::*;

verus! {

/// The version triple that semver reads out of a version string, when the
/// string is a valid semantic version. The result depends on the string
/// alone.
pub uninterp spec fn semver_of(s: Seq<char>) -> Option<(u64, u64, u64)>;

/// Relies on semver::Version::parse: parses a semantic version and exposes
/// its numeric major, minor and patch components.
#[verifier::external_body]
pub(crate) fn parse_version(s: &str) -> (r: Option<(u64, u64, u64)>)
    ensures
        r == semver_of(s@),
{
    match semver::Version::parse(s) {
        Ok(v) => Some((v.major, v.minor, v.patch)),
        Err(_) => None,
    }
}

/// The 128-bit value that the uuid crate reads out of a UUID string, when
/// the string is one of its accepted formats. The result depends on the
/// string alone.
pub uninterp spec fn uuid_of(s: Seq<char>) -> Option<u128>;

/// Relies on uuid::Uuid::parse_str: parses a UUID string to its 128-bit
/// value.
#[verifier::external_body]
pub(crate) fn parse_uuid(s: &str) -> (r: Option<u128>)
    ensures
        r == uuid_of(s@),
{
    match uuid::Uuid::parse_str(s) {
        Ok(u) => Some(u.as_u128()),
        Err(_) => None,
    }
}

/// The hyphenated textual form of a UUID value. The result depends on the
/// value alone.
pub uninterp spec fn uuid_text_of(v: u128) -> Seq<char>;

/// Relies on uuid::Uuid::as_hyphenated / Display: formats a UUID value in
/// the hyphenated form, which is 36 characters long.
#[verifier::external_body]
pub(crate) fn format_uuid(v: u128) -> (r: String)
    ensures
        r@ == uuid_text_of(v),
        r@.len() == 36,
{
    uuid::Uuid::from_u128(v).as_hyphenated().to_string()
}

/// Relies on uuid::Uuid::new_v4: draws a fresh random UUID. Nothing is
/// promised of the value beyond its being a 128-bit integer; callers treat
/// it as an arbitrary identifier.
#[verifier::external_body]
pub(crate) fn new_random_uuid() -> (r: u128) {
    uuid::Uuid::new_v4().as_u128()
}


/// Relies on std::backtrace::Backtrace::force_capture: captures the
/// current call stack for error reports. The text depends on the moment
/// and the machine, so nothing is promised of it.
#[verifier::external_body]
pub(crate) fn capture_backtrace() -> (r: String) {
    std::backtrace::Backtrace::force_capture().to_string()
}

} // verus!
