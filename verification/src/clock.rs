//! Reading the clocks: process-relative milliseconds and wall-clock
//! nanoseconds. What the clocks read is not stated; what is made of a reading
//! is.

use vstd::prelude::*;
use std::time::{Duration, Instant, SystemTime};

verus! {

/// `std::time::Instant`, carried through opaquely.
#[verifier::external_type_specification]
#[verifier::external_body]
pub struct ExInstant(Instant);

/// `std::time::SystemTime`, carried through opaquely.
#[verifier::external_type_specification]
#[verifier::external_body]
pub struct ExSystemTime(SystemTime);

/// Reads the wall clock with `SystemTime::now`; nothing is stated of the
/// reading.
#[verifier::external_body]
fn system_now() -> SystemTime {
    SystemTime::now()
}

/// `SystemTime::duration_since(UNIX_EPOCH)`: how long after the Unix epoch
/// `t` is, or `None` when `t` is earlier. Nothing is stated of the duration.
#[verifier::external_body]
fn since_unix_epoch(t: &SystemTime) -> Option<Duration> {
    t.duration_since(std::time::UNIX_EPOCH).ok()
}

/// `Instant::elapsed`: how long ago `anchor` was, read from the monotonic
/// clock; nothing is stated of the duration.
#[verifier::external_body]
fn instant_elapsed(anchor: &Instant) -> Duration {
    anchor.elapsed()
}

/// `Duration::as_nanos`: the whole nanoseconds of `d`. A duration is opaque
/// here, so nothing is stated of the number.
#[verifier::external_body]
fn duration_nanos(d: &Duration) -> u128 {
    d.as_nanos()
}

/// `Duration::as_millis`: the whole milliseconds of `d`. A duration is opaque
/// here, so nothing is stated of the number.
#[verifier::external_body]
fn duration_millis(d: &Duration) -> u128 {
    d.as_millis()
}

/// A creation timestamp from the nanoseconds since the Unix epoch: the count
/// cast to `i64` (wrapping as the cast does), or zero when the clock reads
/// before the epoch.
pub fn created_at_from_epoch_nanos(nanos: Option<u128>) -> (r: i64)
    ensures
        r == match nanos {
            Some(n) => n as i64,
            None => 0i64,
        },
{
    match nanos {
        Some(n) => n as i64,
        None => 0,
    }
}

/// The current wall-clock time in nanoseconds since the Unix epoch, as node
/// creation timestamps record it.
pub fn created_at_now_ns() -> i64 {
    let now = system_now();
    let nanos = match since_unix_epoch(&now) {
        Some(d) => Some(duration_nanos(&d)),
        None => None,
    };
    created_at_from_epoch_nanos(nanos)
}

/// A process-relative timestamp: milliseconds since the process's anchor
/// instant.
#[derive(Clone, Copy, Debug, PartialEq, Eq, Structural)]
pub struct PTime(pub u64);

/// `ms`, saturated at `u64::MAX`.
pub open spec fn saturated_ms(ms: u128) -> u64 {
    if ms > u64::MAX as u128 {
        u64::MAX
    } else {
        ms as u64
    }
}

impl PTime {
    /// The timestamp `ms` milliseconds after the anchor, saturating at
    /// `u64::MAX`.
    pub fn from_elapsed_ms(ms: u128) -> (t: PTime)
        ensures
            t.0 == saturated_ms(ms),
    {
        if ms > u64::MAX as u128 {
            PTime(u64::MAX)
        } else {
            PTime(ms as u64)
        }
    }

    /// The current process-relative time, measured from `anchor`, the
    /// instant the process took as its birth.
    pub fn now(anchor: &Instant) -> PTime {
        let d = instant_elapsed(anchor);
        PTime::from_elapsed_ms(duration_millis(&d))
    }
}

/// A later elapsed time never gives an earlier timestamp.
pub proof fn lemma_ptime_monotonic(a: u128, b: u128)
    requires
        a <= b,
    ensures
        saturated_ms(a) <= saturated_ms(b),
{
}

} // verus!
