//! The monotonic clock, as the caches use it to age their entries. What it
//! reads depends on when it is read, so its readings are not named; the time
//! between two given instants, and a duration's length, are.

use std::time::{Duration, Instant};

use vstd::prelude::*;

use crate::snapshot::host::now;

verus! {

#[verifier::external_type_specification]
#[verifier::external_body]
pub struct ExInstant(Instant);

/// `Instant::clone`: `Instant` is `Copy`, so a clone is the same instant.
pub assume_specification[ <Instant as Clone>::clone ](t: &Instant) -> (r: Instant)
    ensures
        r == *t,
;

/// The length of a duration in nanoseconds (`Duration::as_nanos`).
pub uninterp spec fn duration_nanos(d: Duration) -> u128;

/// The time from `earlier` to `later`, zero when `later` is not after it
/// (`Instant::saturating_duration_since`).
pub uninterp spec fn time_between(later: Instant, earlier: Instant) -> Duration;

/// `Duration::as_nanos`: the total length of `d` in nanoseconds.
#[verifier::external_body]
fn nanos(d: &Duration) -> (n: u128)
    ensures
        n == duration_nanos(*d),
{
    d.as_nanos()
}

/// `Instant::saturating_duration_since`: the time from `earlier` to `later`.
#[verifier::external_body]
fn since(later: &Instant, earlier: &Instant) -> (d: Duration)
    ensures
        d == time_between(*later, *earlier),
{
    later.saturating_duration_since(*earlier)
}

/// Seen from the instant `n`, more than `ttl` has passed since `t`.
pub open spec fn expired_at(t: Instant, ttl: Duration, n: Instant) -> bool {
    duration_nanos(time_between(n, t)) > duration_nanos(ttl)
}

/// Whether more than `ttl` has passed since `t`, as the clock reads now:
/// the time from `t` to the present instant is longer than `ttl`.
pub fn expired(t: &Instant, ttl: &Duration) -> (r: bool)
    ensures
        exists|n: Instant| r == expired_at(*t, *ttl, n),
{
    let n = now();
    let e = since(&n, t);
    let r = nanos(&e) > nanos(ttl);
    assert(r == expired_at(*t, *ttl, n));
    r
}

} // verus!
