//! Time values: `std::time::Instant` readings and the `Duration`s between
//! them. Readings depend on the clock, so nothing is promised of them beyond
//! what every outcome satisfies.

use vstd::prelude::*;
use std::time::{Duration, Instant};

verus! {

/// `std::time::Instant`, carried through as an opaque value.
#[verifier::external_type_specification]
#[verifier::external_body]
pub struct ExInstant(Instant);

/// The current instant (`Instant::now`); it depends on the clock, so nothing
/// is stated about it.
#[verifier::external_body]
pub(crate) fn instant_now() -> Instant {
    Instant::now()
}

/// Time passed since `i` (`Instant::elapsed`); it depends on the clock.
#[verifier::external_body]
pub(crate) fn elapsed_since(i: &Instant) -> Duration {
    i.elapsed()
}

/// The time from `earlier` to `later`, as `Instant`'s `Sub` gives it (zero
/// where `later` is not after `earlier`); it depends on the two instants
/// alone.
pub uninterp spec fn instant_sub(later: Instant, earlier: Instant) -> Duration;

/// `later - earlier` (`Instant`'s `Sub`); saturates at zero.
#[verifier::external_body]
pub(crate) fn instant_diff(later: &Instant, earlier: &Instant) -> (d: Duration)
    ensures
        d == instant_sub(*later, *earlier),
{
    *later - *earlier
}

/// The length of a `Duration` in whole nanoseconds, as `Duration::as_nanos`
/// gives it; it depends on the duration alone.
pub uninterp spec fn duration_nanos_of(d: Duration) -> u128;

/// `d.as_nanos()`: the length of `d` in nanoseconds.
#[verifier::external_body]
pub(crate) fn duration_nanos(d: &Duration) -> (n: u128)
    ensures
        n == duration_nanos_of(*d),
{
    d.as_nanos()
}

} // verus!
