//! A deadline around a call that may block: the call runs to its end and its result is
//! refused when it took longer than allowed.
use vstd::prelude::*;
use std::time::{Duration, Instant};

verus! {

#[verifier::external_type_specification]
#[verifier::external_body]
pub struct ExInstant(std::time::Instant);

/// `Instant::now`: the current time; nothing is known of it.
#[verifier::external_body]
pub(crate) fn instant_now() -> Instant {
    Instant::now()
}

/// `Instant::elapsed`: the time since `start`; nothing is known of it.
#[verifier::external_body]
fn instant_elapsed(start: &Instant) -> Duration {
    start.elapsed()
}

/// The whole nanoseconds of a duration, as `Duration::as_nanos` gives them.
pub uninterp spec fn duration_nanos(d: Duration) -> u128;

/// `Duration::as_nanos`: the whole nanoseconds of the duration.
#[verifier::external_body]
fn as_nanos(d: &Duration) -> (r: u128)
    ensures
        r == duration_nanos(*d),
{
    d.as_nanos()
}

/// The nanoseconds since `start`, as the clock reports them.
pub(crate) fn elapsed_nanos(start: &Instant) -> u128 {
    let d = instant_elapsed(start);
    as_nanos(&d)
}

/// The message of a call that overran its deadline.
pub open spec fn overrun_msg() -> Seq<char> {
    "ffi exceeded deadline (wall-clock heuristic)"@
}

/// The verdict on a finished call: its result when it took no longer than allowed, the
/// overrun error otherwise.
pub fn deadline_verdict<T>(elapsed_ns: u128, max_wait_ns: u128, out: T) -> (r: Result<T, &'static str>)
    ensures
        elapsed_ns > max_wait_ns ==> (r matches Err(e) && e@ == overrun_msg()),
        elapsed_ns <= max_wait_ns ==> r == Ok::<T, &'static str>(out),
{
    if elapsed_ns > max_wait_ns {
        return Err("ffi exceeded deadline (wall-clock heuristic)");
    }
    Ok(out)
}

/// Runs `f` and refuses its result when it took longer than `max_wait`; the time is read
/// from the clock, so either outcome can occur.
pub fn ffi_with_deadline<F, T>(max_wait: Duration, f: F) -> (r: Result<T, &'static str>) where
    F: FnOnce() -> T,

    requires
        f.requires(()),
    ensures
        r matches Ok(v) ==> f.ensures((), v),
        r matches Err(e) ==> e@ == overrun_msg(),
{
    let start = instant_now();
    let out = f();
    let elapsed = instant_elapsed(&start);
    let el = as_nanos(&elapsed);
    let max = as_nanos(&max_wait);
    deadline_verdict(el, max, out)
}

} // verus!
