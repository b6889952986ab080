//! Reading stored timestamps as Unix seconds.
use vstd::prelude::*;
use crate::text::concat_str;

verus! {

/// Seconds since the Unix epoch of an RFC 3339 date-time text, as chrono's
/// `DateTime::parse_from_rfc3339` reads it; `None` where it refuses the text.
pub uninterp spec fn rfc3339_seconds(text: Seq<char>) -> Option<i64>;

/// Seconds since the Unix epoch of a date-time text read with chrono's
/// `NaiveDateTime::parse_from_str` in the given format and taken as UTC;
/// `None` where it refuses the text.
pub uninterp spec fn naive_utc_seconds(text: Seq<char>, format: Seq<char>) -> Option<i64>;

/// Calls `chrono::DateTime::parse_from_rfc3339` and keeps the Unix seconds
/// (`DateTime::timestamp`) of what it read.
/// Claimed: the result is `rfc3339_seconds` of the text.
#[verifier::external_body]
fn parse_rfc3339_seconds(text: &str) -> (r: Option<i64>)
    ensures
        r == rfc3339_seconds(text@),
{
    match chrono::DateTime::parse_from_rfc3339(text) {
        Ok(dt) => Some(dt.timestamp()),
        Err(_) => None,
    }
}

/// Calls `chrono::NaiveDateTime::parse_from_str`, reads the result as UTC
/// (`and_utc`) and keeps its Unix seconds.
/// Claimed: the result is `naive_utc_seconds` of the text and the format.
#[verifier::external_body]
fn parse_naive_utc_seconds(text: &str, format: &str) -> (r: Option<i64>)
    ensures
        r == naive_utc_seconds(text@, format@),
{
    match chrono::NaiveDateTime::parse_from_str(text, format) {
        Ok(dt) => Some(dt.and_utc().timestamp()),
        Err(_) => None,
    }
}

/// The second format stored timestamps may have.
pub const PLAIN_TIMESTAMP_FORMAT: &'static str = "%Y-%m-%d %H:%M:%S";

/// A timestamp that neither format reads.
#[derive(Debug, Clone, PartialEq, Eq)]
pub struct InvalidTimestamp {
    pub text: String,
}

impl InvalidTimestamp {
    /// `Invalid timestamp format: ` followed by the text.
    pub fn message(&self) -> (m: String)
        ensures
            m@ == "Invalid timestamp format: "@ + self.text@,
    {
        concat_str("Invalid timestamp format: ", self.text.as_str())
    }
}

/// Seconds as the unsigned count they are stored as (two's complement, so a
/// date before 1970 wraps around).
pub open spec fn unsigned_seconds(s: i64) -> u64 {
    s as u64
}

/// What a timestamp reads as, given what each format made of it: the RFC
/// 3339 reading wins, then the plain one, else the text is refused.
pub fn timestamp_from_readings(rfc3339: Option<i64>, plain: Option<i64>, text: &str) -> (r: Result<
    u64,
    InvalidTimestamp,
>)
    ensures
        rfc3339 is Some ==> r == Ok::<u64, InvalidTimestamp>(unsigned_seconds(rfc3339->0)),
        rfc3339 is None && plain is Some ==> r == Ok::<u64, InvalidTimestamp>(
            unsigned_seconds(plain->0),
        ),
        rfc3339 is None && plain is None ==> r is Err && r->Err_0.text@ == text@,
{
    match rfc3339 {
        Some(s) => Ok(s as u64),
        None => match plain {
            Some(s) => Ok(s as u64),
            None => Err(InvalidTimestamp { text: crate::text::owned(text) }),
        },
    }
}

/// Unix seconds of a stored timestamp: RFC 3339 first, then
/// `YYYY-MM-DD HH:MM:SS` taken as UTC.
pub fn parse_timestamp(text: &str) -> (r: Result<u64, InvalidTimestamp>)
    ensures
        rfc3339_seconds(text@) is Some ==> r == Ok::<u64, InvalidTimestamp>(
            unsigned_seconds(rfc3339_seconds(text@)->0),
        ),
        rfc3339_seconds(text@) is None && naive_utc_seconds(text@, PLAIN_TIMESTAMP_FORMAT@) is Some
            ==> r == Ok::<u64, InvalidTimestamp>(
            unsigned_seconds(naive_utc_seconds(text@, PLAIN_TIMESTAMP_FORMAT@)->0),
        ),
        rfc3339_seconds(text@) is None && naive_utc_seconds(text@, PLAIN_TIMESTAMP_FORMAT@) is None
            ==> r is Err && r->Err_0.text@ == text@,
{
    let rfc = parse_rfc3339_seconds(text);
    if rfc.is_some() {
        return timestamp_from_readings(rfc, None, text);
    }
    let plain = parse_naive_utc_seconds(text, PLAIN_TIMESTAMP_FORMAT);
    timestamp_from_readings(rfc, plain, text)
}

} // verus!
