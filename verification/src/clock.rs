//! Readings of the clocks the clients stamp their requests with. What a
//! reading returns is the time, so little is stated of it: that a wall-clock
//! reading is at or after the Unix epoch, and how its seconds and
//! milliseconds agree. A reading before the epoch gives `None`.
use vstd::prelude::*;

verus! {

/// `std::time::SystemTime::now().duration_since(UNIX_EPOCH)`: the whole
/// seconds and the nanoseconds past them (below one second, as
/// `Duration::subsec_nanos` documents); `None` when the system clock reads
/// before the epoch.
#[verifier::external_body]
pub(crate) fn system_now_parts() -> (r: Option<(u64, u32)>)
    ensures
        r matches Some(p) ==> p.1 < 1_000_000_000,
{
    match std::time::SystemTime::now().duration_since(std::time::UNIX_EPOCH) {
        Ok(d) => Some((d.as_secs(), d.subsec_nanos())),
        Err(_) => None,
    }
}

/// `chrono::DateTime::<Utc>::from_timestamp(secs, nanos)`, then `timestamp`
/// and `timestamp_millis` of it: the seconds given back, and the seconds in
/// milliseconds plus the whole milliseconds of `nanos`; `None` when the
/// instant is outside the range `chrono` represents.
#[verifier::external_body]
fn chrono_utc_reading(secs: i64, nanos: u32) -> (r: Option<(i64, i64)>)
    requires
        nanos < 1_000_000_000,
    ensures
        r matches Some(p) ==> p.0 == secs && p.1 == secs * 1000 + nanos / 1_000_000,
{
    match chrono::DateTime::<chrono::Utc>::from_timestamp(secs, nanos) {
        Some(d) => Some((d.timestamp(), d.timestamp_millis())),
        None => None,
    }
}

/// The current instant as Unix seconds and milliseconds, read once, as
/// `chrono::Utc::now()` gives them but without its panic on a system clock
/// before the epoch: `None` then, and when the instant is out of `chrono`'s
/// range. The timestamp of an instant does not depend on the time zone, so
/// this is also the reading of `chrono::Local::now()`.
pub(crate) fn utc_now() -> (r: Option<(i64, i64)>)
    ensures
        r matches Some(p) ==> 0 <= p.0 && p.0 * 1000 <= p.1 < p.0 * 1000 + 1000,
{
    let (secs, nanos) = match system_now_parts() {
        Some(p) => p,
        None => return None,
    };
    if secs > 9_223_372_036_854_775_807u64 {
        return None;
    }
    chrono_utc_reading(secs as i64, nanos)
}

/// Milliseconds since the Unix epoch; `None` as for `utc_now`.
pub(crate) fn utc_now_millis() -> (r: Option<i64>)
    ensures
        r matches Some(ms) ==> ms >= 0,
{
    match utc_now() {
        Some(p) => Some(p.1),
        None => None,
    }
}

/// Seconds since the Unix epoch; `None` as for `utc_now`.
pub(crate) fn utc_now_secs() -> (r: Option<i64>)
    ensures
        r matches Some(s) ==> s >= 0,
{
    match utc_now() {
        Some(p) => Some(p.0),
        None => None,
    }
}

/// A monotonic instant of `tokio::time`, to measure time from.
#[verifier::external_type_specification]
#[verifier::external_body]
pub struct ExInstant(tokio::time::Instant);

/// `tokio::time::Instant::now()`. Nothing is stated of it: it is the time.
#[verifier::external_body]
pub(crate) fn instant_now() -> (i: tokio::time::Instant) {
    tokio::time::Instant::now()
}

/// `start.elapsed()` in whole milliseconds (`Duration::as_millis`, cut to
/// `u64`, which holds over 500 million years): the monotonic time since
/// `start`. Nothing else is stated: it is the time.
#[verifier::external_body]
pub(crate) fn millis_since(start: &tokio::time::Instant) -> (ms: u64) {
    start.elapsed().as_millis() as u64
}

} // verus!
