//! Parsing of the document's absolute timestamps.

use vstd::prelude::*;

verus! {

/// The meaning of an RFC 3339 timestamp string: the instant it denotes,
/// in whole seconds since the Unix epoch, or nothing when the string is
/// not a well-formed timestamp. The result is a function of the
/// characters alone; its definition lives in the `time` crate.
pub uninterp spec fn rfc3339_seconds(s: Seq<char>) -> Option<int>;

/// Relies on `time::OffsetDateTime::parse` with the well-known RFC 3339
/// format, followed by `time::OffsetDateTime::unix_timestamp`, to turn a
/// timestamp string into whole seconds since the Unix epoch. Both are
/// pure functions of the input string.
#[verifier::external_body]
pub fn parse_rfc3339_seconds(s: &str) -> (r: Option<i64>)
    ensures
        r is Some <==> rfc3339_seconds(s@) is Some,
        r is Some ==> r.unwrap() as int == rfc3339_seconds(s@).unwrap(),
{
    match time::OffsetDateTime::parse(s, &time::format_description::well_known::Rfc3339) {
        Ok(d) => Some(d.unix_timestamp()),
        Err(_) => None,
    }
}

} // verus!
