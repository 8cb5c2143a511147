//! The time of day, as the machine gives it.

use vstd::prelude::*;

verus! {

/// The current time in seconds since the Unix epoch, read with
/// `chrono::Local::now` and `DateTime::timestamp`. Nothing is claimed of its
/// value: it is the machine's clock.
#[verifier::external_body]
pub(crate) fn current_time() -> (now: i64) {
    chrono::Local::now().timestamp()
}

/// Whether `chrono::DateTime::from_timestamp` makes a date and time of this
/// number of seconds since the Unix epoch.
pub uninterp spec fn is_timestamp(seconds: i64) -> bool;

/// The date and time that `chrono::NaiveDateTime::parse_from_str` reads from
/// a text in the given format, in seconds since the Unix epoch, or `None`
/// where it reads none.
pub uninterp spec fn parsed_time(text: Seq<char>, format: Seq<char>) -> Option<i64>;

/// Asks `chrono::DateTime::from_timestamp` whether it makes a date and time
/// of this number of seconds, with no nanoseconds.
#[verifier::external_body]
pub(crate) fn timestamp_in_range(seconds: i64) -> (valid: bool)
    ensures
        valid == is_timestamp(seconds),
{
    chrono::DateTime::from_timestamp(seconds, 0).is_some()
}

/// Reads a date and time with `chrono::NaiveDateTime::parse_from_str`, and
/// gives it in seconds since the Unix epoch, as `timestamp` counts them.
#[verifier::external_body]
pub(crate) fn parse_time(text: &str, format: &str) -> (time: Option<i64>)
    ensures
        time == parsed_time(text@, format@),
{
    match chrono::NaiveDateTime::parse_from_str(text, format) {
        Ok(time) => Some(time.and_utc().timestamp()),
        Err(_) => None,
    }
}

} // verus!
