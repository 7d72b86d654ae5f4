//! Reading dates and identifiers from text: chrono reads timestamps, uuid
//! reads identifiers. What they accept is named here, not restated.

use vstd::prelude::*;

use crate::board::Timestamp;

verus! {

/// What chrono's `DateTime<Utc>` parser (`FromStr`, a relaxed RFC 3339)
/// reads from `s`: the instant as seconds since the epoch and nanoseconds,
/// or the text of its error.
pub uninterp spec fn utc_from_str(s: Seq<char>) -> Result<(i64, u32), Seq<char>>;

/// What chrono's `NaiveDateTime::parse_from_str` reads from `s` with the
/// format `fmt`, taken as UTC: seconds since the epoch and nanoseconds.
pub uninterp spec fn naive_from_str(s: Seq<char>, fmt: Seq<char>) -> Option<(i64, u32)>;

/// What uuid's `Uuid` parser (`FromStr`) reads from `s`, as a 128-bit
/// number (`Uuid::as_u128`).
pub uninterp spec fn uuid_from_str(s: Seq<char>) -> Option<u128>;

/// `s.parse::<DateTime<Utc>>()` (chrono): the contract names the result,
/// the instant taken apart into seconds and nanoseconds, or the text of the
/// parse error.
#[verifier::external_body]
pub(crate) fn parse_utc(s: &str) -> (r: Result<Timestamp, String>)
    ensures
        match utc_from_str(s@) {
            Ok((secs, nanos)) => r matches Ok(t) && t.secs == secs && t.nanos == nanos,
            Err(m) => r matches Err(e) && e@ == m,
        },
{
    match s.parse::<chrono::DateTime<chrono::Utc>>() {
        Ok(dt) => Ok(Timestamp { secs: dt.timestamp(), nanos: dt.timestamp_subsec_nanos() }),
        Err(e) => Err(e.to_string()),
    }
}

/// `NaiveDateTime::parse_from_str(s, fmt)` (chrono), taken as UTC
/// (`and_utc`): the contract names the result.
#[verifier::external_body]
pub(crate) fn parse_naive_utc(s: &str, fmt: &str) -> (r: Option<Timestamp>)
    ensures
        r == match naive_from_str(s@, fmt@) {
            Some((secs, nanos)) => Some(Timestamp { secs, nanos }),
            None => None,
        },
{
    match chrono::NaiveDateTime::parse_from_str(s, fmt) {
        Ok(naive) => {
            let dt = naive.and_utc();
            Some(Timestamp { secs: dt.timestamp(), nanos: dt.timestamp_subsec_nanos() })
        },
        Err(_) => None,
    }
}

/// `s.parse::<Uuid>()` (uuid), as a 128-bit number: the contract names the
/// result.
#[verifier::external_body]
pub(crate) fn parse_uuid(s: &str) -> (r: Option<u128>)
    ensures
        r == uuid_from_str(s@),
{
    match s.parse::<uuid::Uuid>() {
        Ok(u) => Some(u.as_u128()),
        Err(_) => None,
    }
}

} // verus!
