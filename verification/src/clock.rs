//! The monotonic clock and the system clock of the standard library, and
//! the calendar of chrono.

use chrono::{Datelike, Timelike};
use vstd::prelude::*;

verus! {

/// `std::time::Instant`: a reading of the monotonic clock. Nothing is known
/// of what a reading holds.
#[verifier::external_type_specification]
#[verifier::external_body]
pub struct ExInstant(std::time::Instant);

/// `Clone::clone` of `Instant`: a copy of the reading. Nothing is promised of
/// it.
pub assume_specification[ <std::time::Instant as Clone>::clone ](
    reading: &std::time::Instant,
) -> std::time::Instant
;

/// `Instant::now` of the standard library: the present reading of the
/// monotonic clock. Nothing is promised of it.
#[verifier::external_body]
pub(crate) fn now() -> (reading: std::time::Instant) {
    std::time::Instant::now()
}

/// `Instant::elapsed` of the standard library, in whole nanoseconds: the time
/// that has passed since `start` was read. Nothing is promised of it.
#[verifier::external_body]
pub(crate) fn elapsed_nanos(start: &std::time::Instant) -> (nanos: u128) {
    start.elapsed().as_nanos()
}

/// `std::time::SystemTime`: a reading of the system clock. Nothing is known
/// of what a reading holds.
#[verifier::external_type_specification]
#[verifier::external_body]
pub struct ExSystemTime(std::time::SystemTime);

/// `SystemTime::now` of the standard library: the present reading of the
/// system clock. Nothing is promised of it.
#[verifier::external_body]
pub(crate) fn system_now() -> (reading: std::time::SystemTime) {
    std::time::SystemTime::now()
}

/// `SystemTime::duration_since` of the standard library, against the Unix
/// epoch: whole seconds and nanoseconds that have passed since the epoch,
/// `None` for a reading before it. Nothing is promised of the numbers.
#[verifier::external_body]
pub(crate) fn since_unix_epoch(reading: &std::time::SystemTime) -> (elapsed: Option<(u64, u32)>) {
    match reading.duration_since(std::time::UNIX_EPOCH) {
        Ok(elapsed) => Some((elapsed.as_secs(), elapsed.subsec_nanos())),
        Err(_) => None,
    }
}

/// A moment of the calendar, in universal time.
#[derive(Debug, Clone, Copy, PartialEq, Eq, Structural)]
pub struct CivilTime {
    /// Year of the proleptic Gregorian calendar.
    pub year: i32,
    /// Month of the year, from one.
    pub month: u32,
    /// Day of the month, from one.
    pub day: u32,
    /// Hour of the day.
    pub hour: u32,
    /// Minute of the hour.
    pub minute: u32,
    /// Second of the minute.
    pub second: u32,
}

/// The moment of the calendar that lies `secs` seconds after the Unix
/// epoch, where the calendar reaches that far.
pub uninterp spec fn civil_time(secs: int) -> Option<CivilTime>;

/// The moment `secs` seconds and `nanos` nanoseconds after the Unix epoch
/// as RFC 3339 writes it, where the calendar reaches that far.
pub uninterp spec fn rfc3339_text(secs: int, nanos: int) -> Option<Seq<char>>;

/// `DateTime::from_timestamp` of chrono, read through `Datelike` and
/// `Timelike`: the result is the calendar's moment for `secs`, `None` where
/// chrono's calendar does not reach that far.
#[verifier::external_body]
fn civil_at(secs: i64) -> (time: Option<CivilTime>)
    ensures
        time == civil_time(secs as int),
{
    match chrono::DateTime::from_timestamp(secs, 0) {
        Some(t) => Some(
            CivilTime {
                year: t.year(),
                month: t.month(),
                day: t.day(),
                hour: t.hour(),
                minute: t.minute(),
                second: t.second(),
            },
        ),
        None => None,
    }
}

/// `DateTime::from_timestamp` of chrono, written by `DateTime::to_rfc3339`:
/// the result is the RFC 3339 text of the moment, `None` where chrono's
/// calendar does not reach that far or `nanos` is no part of a second.
#[verifier::external_body]
fn rfc3339_at(secs: i64, nanos: u32) -> (text: Option<String>)
    ensures
        text is Some <==> rfc3339_text(secs as int, nanos as int) is Some,
        text is Some ==> text->Some_0@ == rfc3339_text(secs as int, nanos as int)->Some_0,
{
    match chrono::DateTime::from_timestamp(secs, nanos) {
        Some(t) => Some(t.to_rfc3339()),
        None => None,
    }
}

/// Seconds and nanoseconds since the Unix epoch as the system clock reads
/// now; `None` where the clock reads a moment before the epoch or beyond
/// 63 bits of seconds.
pub fn utc_now() -> (reading: Option<(i64, u32)>) {
    let reading = system_now();
    match since_unix_epoch(&reading) {
        Some((secs, nanos)) => {
            if secs <= 0x7fff_ffff_ffff_ffff {
                Some((secs as i64, nanos))
            } else {
                None
            }
        },
        None => None,
    }
}

/// The moment of the calendar that lies `secs` seconds after the Unix
/// epoch.
pub fn civil_time_at(secs: i64) -> (time: Option<CivilTime>)
    ensures
        time == civil_time(secs as int),
{
    civil_at(secs)
}

/// The moment `secs` seconds and `nanos` nanoseconds after the Unix epoch
/// as RFC 3339 writes it.
pub fn timestamp_at(secs: i64, nanos: u32) -> (text: Option<String>)
    ensures
        text is Some <==> rfc3339_text(secs as int, nanos as int) is Some,
        text is Some ==> text->Some_0@ == rfc3339_text(secs as int, nanos as int)->Some_0,
{
    rfc3339_at(secs, nanos)
}

} // verus!
