//! Clock readings and duration comparisons.
//!
//! Instants come from the machine's monotonic clock, so nothing is stated
//! of the instant a reading gives; what the library decides from it it
//! states for every outcome. An instant is modelled by its position on that
//! clock in nanoseconds, [`instant_nanos`], and a duration, a plain length
//! of time, by its whole number of nanoseconds, [`duration_nanos`].

use vstd::prelude::*;
use std::time::{Duration, Instant};

verus! {

/// `std::time::Instant`.
#[verifier::external_type_specification]
#[verifier::external_body]
pub struct ExInstant(Instant);

/// Calls `Instant::now`: the current time, of which nothing is stated.
#[verifier::external_body]
pub(crate) fn instant_now() -> Instant {
    Instant::now()
}

/// Calls `Instant::elapsed`: the time since `since`, which depends on the
/// clock; nothing is stated.
#[verifier::external_body]
pub(crate) fn instant_elapsed(since: &Instant) -> Duration {
    since.elapsed()
}

/// The position of an `std::time::Instant` on the monotonic clock it was
/// read from, in nanoseconds from that clock's origin: the contents of the
/// opaque type, of which [`instant_duration_since`] speaks.
pub uninterp spec fn instant_nanos(t: Instant) -> int;

/// The nanoseconds from `earlier` to `later`, or zero when `earlier` is the
/// later of the two.
pub open spec fn nanos_between(later: Instant, earlier: Instant) -> nat {
    if instant_nanos(later) >= instant_nanos(earlier) {
        (instant_nanos(later) - instant_nanos(earlier)) as nat
    } else {
        0
    }
}

/// Calls `Instant::duration_since`, which returns the time elapsed from
/// `earlier` to `later`, or a zero duration when `earlier` is the later one.
#[verifier::external_body]
pub(crate) fn instant_duration_since(later: &Instant, earlier: &Instant) -> (r: Duration)
    ensures
        duration_nanos(r) == if instant_nanos(*later) >= instant_nanos(*earlier) {
            instant_nanos(*later) - instant_nanos(*earlier)
        } else {
            0
        },
{
    later.duration_since(*earlier)
}

/// The length of a `std::time::Duration` in nanoseconds, what
/// `Duration::as_nanos` returns: the contents of the opaque type, of which
/// the wrappers below speak.
pub uninterp spec fn duration_nanos(d: Duration) -> nat;

/// Calls `Duration::from_secs`, which makes a duration of `secs` whole
/// seconds, that is `secs * 1_000_000_000` nanoseconds.
#[verifier::external_body]
pub(crate) fn duration_from_secs(secs: u64) -> (r: Duration)
    ensures
        duration_nanos(r) == secs * 1_000_000_000,
{
    Duration::from_secs(secs)
}

/// Calls `Duration`'s `>=`; durations are ordered by their length.
#[verifier::external_body]
pub(crate) fn duration_at_least(a: &Duration, b: &Duration) -> (r: bool)
    ensures
        r == (duration_nanos(*a) >= duration_nanos(*b)),
{
    *a >= *b
}

/// Calls `Duration`'s `>`; durations are ordered by their length.
#[verifier::external_body]
pub(crate) fn duration_exceeds(a: &Duration, b: &Duration) -> (r: bool)
    ensures
        r == (duration_nanos(*a) > duration_nanos(*b)),
{
    *a > *b
}

} // verus!
