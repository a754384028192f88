//! The system clock, read as whole seconds since the unix epoch.
use vstd::prelude::*;

verus! {

#[verifier::external_type_specification]
#[verifier::external_body]
pub struct ExSystemTime(std::time::SystemTime);

#[verifier::external_type_specification]
#[verifier::external_body]
pub struct ExSystemTimeError(std::time::SystemTimeError);

/// Calls `SystemTime::now` (std). The reading depends on the time, so
/// nothing is claimed about it.
#[verifier::external_body]
fn system_now() -> (t: std::time::SystemTime) {
    std::time::SystemTime::now()
}

/// Calls `SystemTime::duration_since(UNIX_EPOCH)` (std): the time elapsed
/// since the unix epoch, or an error for a time before it. Nothing is
/// claimed about the result, which depends on an opaque clock reading.
#[verifier::external_body]
fn since_unix_epoch(t: &std::time::SystemTime) -> (r: Result<
    core::time::Duration,
    std::time::SystemTimeError,
>) {
    t.duration_since(std::time::UNIX_EPOCH)
}

/// Calls `Duration::as_secs` (std): the whole seconds of a duration, which
/// is opaque here, so nothing is claimed about the number.
#[verifier::external_body]
fn whole_seconds(d: &core::time::Duration) -> (s: u64) {
    d.as_secs()
}

/// The current unix time in whole seconds; a clock set before the epoch
/// reads 0.
pub fn now_unix_secs() -> (r: u64) {
    let t = system_now();
    match since_unix_epoch(&t) {
        Ok(d) => whole_seconds(&d),
        Err(_) => 0,
    }
}

} // verus!
