//! Calls into the `time` crate: RFC 3339 parsing and formatting, and the UTC
//! calendar fields of a Unix timestamp.

use vstd::prelude::*;

verus! {

/// Earliest Unix timestamp (seconds) that `time::OffsetDateTime` represents:
/// -9999-01-01T00:00:00Z.
pub const MIN_REPRESENTABLE_UNIX_SECONDS: i64 = -377_705_116_800;
/// Latest Unix timestamp (seconds) that `time::OffsetDateTime` represents:
/// 9999-12-31T23:59:59Z.
pub const MAX_REPRESENTABLE_UNIX_SECONDS: i64 = 253_402_300_799;

/// What `time::OffsetDateTime::parse(text, &Rfc3339)` yields: the instant as
/// Unix nanoseconds, or the text of the parse error.
pub uninterp spec fn rfc3339_parse_result(text: Seq<char>) -> Result<i128, Seq<char>>;

/// What `time::OffsetDateTime::from_unix_timestamp_nanos(nanos)` followed by
/// `format(&Rfc3339)` yields: the RFC 3339 text of the instant, or the text
/// of the error when the instant cannot be represented or formatted.
pub uninterp spec fn rfc3339_format_result(nanos: i128) -> Result<Seq<char>, Seq<char>>;

/// The UTC calendar fields (year, month 1-12, day, hour, minute, second)
/// that `time::OffsetDateTime::from_unix_timestamp(seconds)` yields, when it
/// can represent the instant.
pub uninterp spec fn utc_fields_of_unix_seconds(seconds: i64) -> Option<(i32, u8, u8, u8, u8, u8)>;

/// Calls `time::OffsetDateTime::parse` with the RFC 3339 format. Its
/// contract claims only that the result (instant in Unix nanoseconds, or the
/// error's display text) is the one named by `rfc3339_parse_result`.
#[verifier::external_body]
pub(crate) fn parse_rfc3339(text: &str) -> (r: Result<i128, String>)
    ensures
        match r {
            Ok(nanos) => rfc3339_parse_result(text@) == Ok::<i128, Seq<char>>(nanos),
            Err(message) => rfc3339_parse_result(text@) == Err::<i128, Seq<char>>(message@),
        },
{
    match time::OffsetDateTime::parse(text, &time::format_description::well_known::Rfc3339) {
        Ok(instant) => Ok(instant.unix_timestamp_nanos()),
        Err(err) => Err(err.to_string()),
    }
}

/// Calls `time::OffsetDateTime::from_unix_timestamp_nanos` and formats the
/// instant with the RFC 3339 format. Its contract claims only that the
/// result (the text, or the display text of either call's error) is the one
/// named by `rfc3339_format_result`.
#[verifier::external_body]
pub(crate) fn format_rfc3339(nanos: i128) -> (r: Result<String, String>)
    ensures
        match r {
            Ok(text) => rfc3339_format_result(nanos) == Ok::<Seq<char>, Seq<char>>(text@),
            Err(message) => rfc3339_format_result(nanos) == Err::<Seq<char>, Seq<char>>(message@),
        },
{
    let instant = match time::OffsetDateTime::from_unix_timestamp_nanos(nanos) {
        Ok(instant) => instant,
        Err(err) => return Err(err.to_string()),
    };
    match instant.format(&time::format_description::well_known::Rfc3339) {
        Ok(text) => Ok(text),
        Err(err) => Err(err.to_string()),
    }
}

/// Calls `time::OffsetDateTime::from_unix_timestamp` and reads the UTC
/// calendar fields. Its contract claims that the fields are the ones named
/// by `utc_fields_of_unix_seconds`; that, as the crate's range check shows,
/// a timestamp between -9999-01-01 and 9999-12-31T23:59:59 is
/// representable; and the field ranges the crate documents for `month`
/// (1 to 12), `day` (1 to 31), `hour` (below 24), `minute` and `second`
/// (below 60).
#[verifier::external_body]
pub(crate) fn utc_fields(seconds: i64) -> (r: Option<(i32, u8, u8, u8, u8, u8)>)
    ensures
        r == utc_fields_of_unix_seconds(seconds),
        MIN_REPRESENTABLE_UNIX_SECONDS <= seconds <= MAX_REPRESENTABLE_UNIX_SECONDS ==> r.is_some(),
        r matches Some(f) ==> 1 <= f.1 <= 12 && 1 <= f.2 <= 31 && f.3 < 24 && f.4 < 60 && f.5 < 60,
{
    match time::OffsetDateTime::from_unix_timestamp(seconds) {
        Ok(t) => Some((t.year(), u8::from(t.month()), t.day(), t.hour(), t.minute(), t.second())),
        Err(_) => None,
    }
}

} // verus!
