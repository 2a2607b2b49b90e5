//! Time sources: a monotonic clock in milliseconds and the UNIX time.
use vstd::prelude::*;

use std::time::Instant;

verus! {

#[verifier::external_type_specification]
#[verifier::external_body]
pub struct ExInstant(Instant);

/// A monotonic clock that counts milliseconds from its creation.
pub struct Clock {
    start: Instant,
}

/// `Instant::now`: the current instant. Nothing is claimed of it.
#[verifier::external_body]
fn instant_now() -> Instant {
    Instant::now()
}

/// `Instant::elapsed`, in whole milliseconds. Nothing is claimed of the value:
/// it depends on the time.
#[verifier::external_body]
fn elapsed_millis(start: &Instant) -> u64 {
    start.elapsed().as_millis() as u64
}

/// The current UNIX time in seconds, or 0 when the system clock stands before
/// the epoch (`SystemTime::now` and `duration_since`). Nothing is claimed of
/// the value: it depends on the time.
#[verifier::external_body]
pub(crate) fn now_unix() -> u64 {
    match std::time::SystemTime::now().duration_since(std::time::UNIX_EPOCH) {
        Ok(d) => d.as_secs(),
        Err(_) => 0,
    }
}

impl Clock {
    /// A clock that starts now.
    pub(crate) fn new() -> Clock {
        Clock { start: instant_now() }
    }

    /// Milliseconds since the clock was created.
    pub(crate) fn now_millis(&self) -> u64 {
        elapsed_millis(&self.start)
    }
}

} // verus!
