use vstd::prelude::*;

verus! {

#[verifier::external_type_specification]
#[verifier::external_body]
pub struct ExParseError(chrono::ParseError);

/// The Unix time, in seconds, of an RFC 3339 date and time, or `None` where
/// the text is not one.
pub uninterp spec fn rfc3339_seconds(s: Seq<char>) -> Option<int>;

/// Relies on `chrono::DateTime::parse_from_rfc3339`, which reads an RFC 3339
/// date and time or fails, and on `DateTime::timestamp`, its Unix time in seconds.
#[verifier::external_body]
fn parse_rfc3339_seconds(s: &str) -> (r: Result<i64, chrono::ParseError>)
    ensures
        match r {
            Ok(t) => rfc3339_seconds(s@) == Some(t as int),
            Err(_) => rfc3339_seconds(s@) is None,
        },
{
    chrono::DateTime::parse_from_rfc3339(s).map(|d| d.timestamp())
}

/// Relies on `chrono::Utc::now`: the current Unix time in seconds.
#[verifier::external_body]
fn now_seconds() -> (r: i64) {
    chrono::Utc::now().timestamp()
}

/// A date and time that could not be read as RFC 3339.
#[derive(Debug)]
pub struct DatetimeError {
    pub cause: chrono::ParseError,
}

/// The time of an entry: the RFC 3339 date and time given, read as Unix
/// seconds, or the current time where none is given.
pub fn resolve_timestamp(datetime: &Option<String>) -> (r: Result<i64, DatetimeError>)
    ensures
        match datetime {
            Some(s) => match r {
                Ok(t) => rfc3339_seconds(s@) == Some(t as int),
                Err(_) => rfc3339_seconds(s@) is None,
            },
            None => r is Ok,
        },
{
    match datetime {
        Some(s) => match parse_rfc3339_seconds(s.as_str()) {
            Ok(t) => Ok(t),
            Err(e) => Err(DatetimeError { cause: e }),
        },
        None => Ok(now_seconds()),
    }
}

} // verus!
