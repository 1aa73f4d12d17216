//! The clocks that the crate reads.
use vstd::prelude::*;

verus! {

/// A reading of the monotonic clock.
#[verifier::external_type_specification]
#[verifier::external_body]
pub struct ExInstant(std::time::Instant);

/// The error of a clock reading before the moment it is measured from.
#[verifier::external_type_specification]
#[verifier::external_body]
pub struct ExSystemTimeError(std::time::SystemTimeError);

/// `Duration::as_secs` gives the whole seconds of a span. Nothing is claimed
/// of the number: the spans here come from clocks.
pub assume_specification[ std::time::Duration::as_secs ](d: &std::time::Duration) -> u64
;

/// `Duration::as_nanos` gives the nanoseconds of a span. Nothing is claimed of
/// the number: the spans here come from clocks.
pub assume_specification[ std::time::Duration::as_nanos ](d: &std::time::Duration) -> u128
;

/// `Instant::now` reads the monotonic clock. Nothing is claimed of the reading.
pub assume_specification[ std::time::Instant::now ]() -> std::time::Instant
;

/// `Instant::elapsed` gives the time since a reading of the monotonic clock.
/// Nothing is claimed of its length.
pub assume_specification[ std::time::Instant::elapsed ](
    since: &std::time::Instant,
) -> std::time::Duration
;

/// `SystemTime::elapsed` of the Unix epoch gives the time since the epoch, or
/// an error when the clock is set before it. Nothing is claimed of either.
#[verifier::external_body]
fn since_epoch() -> Result<std::time::Duration, std::time::SystemTimeError> {
    std::time::UNIX_EPOCH.elapsed()
}

/// Whether `secs` are the seconds that the clock has told as the time since the Unix
/// epoch, 0 when it is set before the epoch.
pub closed spec fn told_since_epoch(secs: u64) -> bool {
    exists|reading: Result<std::time::Duration, std::time::SystemTimeError>| #[trigger]
        call_ensures(since_epoch, (), reading) && match reading {
            Ok(d) => call_ensures(std::time::Duration::as_secs, (&d,), secs),
            Err(_) => secs == 0,
        }
}

/// Whether `nanos` are the nanoseconds that the clock has told as the time since `start`.
pub closed spec fn told_since(start: std::time::Instant, nanos: u128) -> bool {
    exists|d: std::time::Duration| #[trigger]
        call_ensures(std::time::Instant::elapsed, (&start,), d) && call_ensures(
            std::time::Duration::as_nanos,
            (&d,),
            nanos,
        )
}

/// What `f` tells.
fn ask<B, F: Fn() -> B>(f: F) -> (b: B)
    requires
        call_requires(f, ()),
    ensures
        call_ensures(f, (), b),
{
    f()
}

/// What `f` tells about `a`.
fn ask_about<A, B, F: Fn(&A) -> B>(f: F, a: &A) -> (b: B)
    requires
        call_requires(f, (a,)),
    ensures
        call_ensures(f, (a,), b),
{
    f(a)
}

/// The seconds since the Unix epoch, 0 when the clock is set before it. Only the clock
/// knows the number; this is what it has told.
pub(crate) fn unix_now() -> (r: u64)
    ensures
        told_since_epoch(r),
{
    let reading = ask(since_epoch);
    match &reading {
        Ok(d) => secs_or_zero(Some(ask_about(std::time::Duration::as_secs, d))),
        Err(_) => secs_or_zero(None),
    }
}

/// The nanoseconds that have passed since `start`. Only the clock knows the number; this
/// is what it has told.
pub(crate) fn nanos_since(start: &std::time::Instant) -> (r: u128)
    ensures
        told_since(*start, r),
{
    let d = ask_about(std::time::Instant::elapsed, start);
    ask_about(std::time::Duration::as_nanos, &d)
}

/// The seconds that a clock has told, 0 when it is set before the Unix epoch.
pub fn secs_or_zero(reading: Option<u64>) -> (r: u64)
    ensures
        r == match reading {
            Some(secs) => secs,
            None => 0,
        },
{
    match reading {
        Some(secs) => secs,
        None => 0,
    }
}

}
