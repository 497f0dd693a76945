//! The clock, in milliseconds since the Unix epoch.
use std::time::{Duration, SystemTime};
use vstd::prelude::*;

verus! {

/// A reading of the system clock.
#[verifier::external_type_specification]
#[verifier::external_body]
pub struct ExSystemTime(std::time::SystemTime);

/// The time that had passed since the Unix epoch at a reading of the clock.
pub uninterp spec fn span_since_epoch(reading: SystemTime) -> Option<Duration>;

/// The length of a span of time, in nanoseconds.
pub uninterp spec fn span_nanos(span: Duration) -> nat;

/// The whole milliseconds that had passed since the Unix epoch at a reading of
/// the clock, or nothing for a reading before it.
pub open spec fn reading_millis(reading: SystemTime) -> Option<u128> {
    match span_since_epoch(reading) {
        Some(span) => Some((span_nanos(span) / 1_000_000) as u128),
        None => None,
    }
}

/// `SystemTime::now`: whatever the clock shows.
#[verifier::external_body]
fn read_clock() -> SystemTime {
    SystemTime::now()
}

/// `SystemTime::duration_since` the Unix epoch: the time passed since then, as
/// `span_since_epoch` names it, or nothing for a reading before it.
#[verifier::external_body]
fn since_epoch(reading: SystemTime) -> (span: Option<Duration>)
    ensures
        span == span_since_epoch(reading),
{
    reading.duration_since(SystemTime::UNIX_EPOCH).ok()
}

/// `Duration::as_millis`: the whole milliseconds of a span of time, its length
/// in nanoseconds divided by a million and rounded down.
#[verifier::external_body]
fn as_millis(span: &Duration) -> (millis: u128)
    ensures
        millis == span_nanos(*span) / 1_000_000,
{
    span.as_millis()
}

/// The time of a reading that is `millis` milliseconds after the Unix epoch, or
/// before it.
pub open spec fn clock_millis(millis: Option<u128>) -> i64 {
    match millis {
        Some(n) => n as i64,
        None => 0,
    }
}

/// The time of a clock reading, given the milliseconds that had passed since
/// the Unix epoch, or nothing for a reading before it: those milliseconds, cut
/// to 64 bits, or zero.
pub fn epoch_millis(millis: Option<u128>) -> (ms: i64)
    ensures
        ms == clock_millis(millis),
        millis matches Some(n) ==> (n <= i64::MAX ==> ms == n),
        millis is None ==> ms == 0,
{
    match millis {
        Some(n) => #[verifier::truncate]
        (n as i64),
        None => 0,
    }
}

/// The current time in milliseconds since the Unix epoch, or zero where the
/// clock stands before it: the time of some reading of the clock.
pub fn now_ms() -> (ms: i64)
    ensures
        exists|reading: SystemTime| ms == clock_millis(#[trigger] reading_millis(reading)),
{
    let reading = read_clock();
    let ghost shown = reading;
    let millis = match since_epoch(reading) {
        Some(span) => Some(as_millis(&span)),
        None => None,
    };
    assert(millis == reading_millis(shown));
    epoch_millis(millis)
}

/// A reading shows the whole milliseconds since the epoch, rounded down, as long as
/// they fit, and zero before it.
pub proof fn law_clock_shows_whole_milliseconds(reading: SystemTime)
    ensures
        ({
            let shown = clock_millis(reading_millis(reading));
            &&& span_since_epoch(reading) matches Some(span) ==> (span_nanos(span)
                < 0x8000_0000_0000_0000 * 1_000_000 ==> shown * 1_000_000 <= span_nanos(span) < (
            shown + 1) * 1_000_000)
            &&& span_since_epoch(reading) is None ==> shown == 0
        }),
{
}

} // verus!
