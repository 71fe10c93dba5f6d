//! Wall-clock time, and times as text.

use vstd::prelude::*;
use crate::budget::Timestamp;

verus! {

/// A moment of the machine's clock, as std holds it.
#[verifier::external_type_specification]
#[verifier::external_body]
pub struct ExSystemTime(std::time::SystemTime);

/// Calls `SystemTime::now`: the moment that the machine's clock shows.
/// Nothing is claimed of it.
#[verifier::external_body]
fn read_clock() -> (r: std::time::SystemTime) {
    std::time::SystemTime::now()
}

/// Calls `SystemTime::duration_since` with the Unix epoch: the time that
/// has passed since, or `None` where the call reports that the moment
/// lies before the epoch. Nothing is claimed of the span.
#[verifier::external_body]
fn since_unix_epoch(moment: std::time::SystemTime) -> (r: Option<std::time::Duration>) {
    match moment.duration_since(std::time::UNIX_EPOCH) {
        Ok(span) => Some(span),
        Err(_) => None,
    }
}

/// Calls `Duration::as_millis`: the whole milliseconds of a span. Nothing
/// is claimed of the number.
#[verifier::external_body]
fn whole_millis(span: &std::time::Duration) -> (r: u128) {
    span.as_millis()
}

/// The milliseconds since the Unix epoch on this machine's clock: 0 where
/// the clock stands before the epoch, and the greatest number where there
/// are more than a `u64` holds.
pub(crate) fn timestamp() -> (r: u64) {
    match since_unix_epoch(read_clock()) {
        None => 0,
        Some(span) => {
            let millis: u128 = whole_millis(&span);
            if millis > 0xffff_ffff_ffff_ffffu128 {
                u64::MAX
            } else {
                millis as u64
            }
        },
    }
}

/// The moment that a text names, as `chrono` reads a `DateTime<Utc>` from
/// it: a date and a time of day with an offset, in the relaxed RFC 3339
/// form that the crate documents; `None` where the crate reports an error.
pub uninterp spec fn parsed_datetime(text: Seq<char>) -> Option<Timestamp>;

/// Calls `str::parse::<chrono::DateTime<chrono::Utc>>`, and then
/// `timestamp` and `timestamp_subsec_nanos` on what it gives. The contract
/// names what comes back.
#[verifier::external_body]
pub(crate) fn parse_datetime(text: &str) -> (r: Option<Timestamp>)
    ensures
        r == parsed_datetime(text@),
{
    match text.parse::<chrono::DateTime<chrono::Utc>>() {
        Ok(dt) => Some(Timestamp { seconds: dt.timestamp(), nanos: dt.timestamp_subsec_nanos() }),
        Err(_) => None,
    }
}

} // verus!
