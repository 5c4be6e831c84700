//! Instants read from RFC 3339 timestamps.
//!
//! An instant is `(seconds, nanoseconds)` since the Unix epoch, as chrono reports
//! them: the seconds are floored, and the nanoseconds can exceed 999,999,999 during
//! a leap second.

use vstd::prelude::*;

verus! {

/// What `chrono::DateTime::parse_from_rfc3339` makes of `ts`, as the parsed instant's
/// `timestamp()` and `timestamp_subsec_nanos()`; `None` when it is not RFC 3339.
pub uninterp spec fn rfc3339_instant(ts: Seq<char>) -> Option<(i64, u32)>;

/// Parses an RFC 3339 timestamp with `chrono::DateTime::parse_from_rfc3339` and
/// reads its Unix seconds and sub-second nanoseconds. The grammar and the calendar
/// are chrono's, so the result is only named, by `rfc3339_instant`.
#[verifier::external_body]
pub(crate) fn parse_rfc3339(ts: &str) -> (r: Option<(i64, u32)>)
    ensures
        r == rfc3339_instant(ts@),
{
    match chrono::DateTime::parse_from_rfc3339(ts) {
        Ok(dt) => Some((dt.timestamp(), dt.timestamp_subsec_nanos())),
        Err(_) => None,
    }
}

/// Whether instant `a` is later than instant `b`.
pub open spec fn later(a: (i64, u32), b: (i64, u32)) -> bool {
    a.0 > b.0 || (a.0 == b.0 && a.1 > b.1)
}

/// The Flow Bar is hidden now when `until` is a valid RFC 3339 timestamp later
/// than `now`.
pub open spec fn hidden_now(until: Option<Seq<char>>, now: (i64, u32)) -> bool {
    match until {
        Some(ts) => match rfc3339_instant(ts) {
            Some(at) => later(at, now),
            None => false,
        },
        None => false,
    }
}

/// True if `until` is a valid RFC 3339 timestamp still in the future of `now`
/// (Unix seconds and nanoseconds).
pub fn is_hidden_now(until: Option<&str>, now: (i64, u32)) -> (r: bool)
    ensures
        r == hidden_now(
            match until {
                Some(t) => Some(t@),
                None => None,
            },
            now,
        ),
{
    match until {
        Some(ts) => match parse_rfc3339(ts) {
            Some(at) => at.0 > now.0 || (at.0 == now.0 && at.1 > now.1),
            None => false,
        },
        None => false,
    }
}

} // verus!
