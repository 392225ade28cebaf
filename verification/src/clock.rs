use vstd::prelude::*;
use std::time::{Duration, Instant, SystemTime};

verus! {

#[verifier::external_type_specification]
#[verifier::external_body]
pub struct ExInstant(std::time::Instant);

#[verifier::external_type_specification]
#[verifier::external_body]
pub struct ExSystemTime(std::time::SystemTime);

/// The current time of the system clock.
///
/// Trusted: `SystemTime::now` returns a reading of the clock; nothing about
/// its value is stated.
#[verifier::external_body]
pub(crate) fn system_now() -> (r: SystemTime) {
    SystemTime::now()
}

/// The time from the Unix epoch to `t`, or nothing when `t` lies before it.
///
/// Trusted: `SystemTime::duration_since(UNIX_EPOCH)` returns that span, and
/// an error (mapped to `None`) when `t` is earlier; nothing is stated of the
/// value.
#[verifier::external_body]
pub(crate) fn since_unix_epoch(t: &SystemTime) -> (r: Option<Duration>) {
    t.duration_since(std::time::UNIX_EPOCH).ok()
}

/// The current instant of the monotonic clock.
///
/// Trusted: `Instant::now` returns a reading of the clock; nothing about its
/// value is stated.
#[verifier::external_body]
pub(crate) fn instant_now() -> (r: Instant) {
    Instant::now()
}

/// The span from the instant `earlier` to the instant `later`, zero when
/// `earlier` is the later one, as `Instant::saturating_duration_since` gives it.
pub uninterp spec fn span_of(later: Instant, earlier: Instant) -> Duration;

/// The time from `earlier` to `later`, zero when `earlier` is the later one.
///
/// Trusted: `Instant::saturating_duration_since` returns that span, zero
/// rather than a panic when `earlier` is later; it depends on the two instants
/// alone, and is named `span_of`.
#[verifier::external_body]
pub(crate) fn duration_since(later: &Instant, earlier: &Instant) -> (r: Duration)
    ensures
        r == span_of(*later, *earlier),
{
    later.saturating_duration_since(*earlier)
}

/// The whole number of nanoseconds in the span `d`, as `Duration::as_nanos`
/// gives it.
pub uninterp spec fn nanos_of(d: Duration) -> u128;

/// The whole number of nanoseconds in `d`.
///
/// Trusted: `Duration::as_nanos` returns that count, a function of `d` alone,
/// named `nanos_of`.
#[verifier::external_body]
pub(crate) fn duration_as_nanos(d: &Duration) -> (r: u128)
    ensures
        r == nanos_of(*d),
{
    d.as_nanos()
}

/// `n` capped at the largest `u64`.
pub open spec fn saturated(n: u128) -> u64 {
    if n <= u64::MAX {
        n as u64
    } else {
        u64::MAX
    }
}

/// `n` capped at the largest `u64`.
pub fn saturate_u64(n: u128) -> (r: u64)
    ensures
        r == saturated(n),
{
    if n <= u64::MAX as u128 {
        n as u64
    } else {
        u64::MAX
    }
}

/// Nanoseconds of the span from `origin` to the instant `now`, capped at the
/// largest `u64`.
pub open spec fn nanos_between(now: Instant, origin: Instant) -> u64 {
    saturated(nanos_of(span_of(now, origin)))
}

/// Nanoseconds from `origin` to now, capped at the largest `u64`.
pub fn nanos_since(origin: &Instant) -> (r: u64)
    ensures
        exists|now: Instant| r == #[trigger] nanos_between(now, *origin),
{
    let now = instant_now();
    let d = duration_since(&now, origin);
    let r = saturate_u64(duration_as_nanos(&d));
    proof {
        assert(r == nanos_between(now, *origin));
    }
    r
}

/// Nanoseconds in `d`, capped at the largest `u64`.
pub fn duration_nanos(d: &Duration) -> (r: u64)
    ensures
        r == saturated(nanos_of(*d)),
{
    saturate_u64(duration_as_nanos(d))
}

} // verus!
