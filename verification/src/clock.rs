//! The clock of the interpreter: whole seconds since it was started.

use vstd::prelude::*;

verus! {

#[verifier::external_type_specification]
#[verifier::external_body]
pub struct ExInstant(std::time::Instant);

/// The present moment, through `Instant::now`. Nothing is claimed of it.
#[verifier::external_body]
fn present() -> (now: std::time::Instant) {
    std::time::Instant::now()
}

/// The time that has passed since `origin`, through `Instant::elapsed`. Nothing is
/// claimed of it.
#[verifier::external_body]
fn elapsed_since(origin: &std::time::Instant) -> (d: std::time::Duration) {
    origin.elapsed()
}

/// The whole seconds of a duration, through `Duration::as_secs`. Nothing is claimed
/// of them.
#[verifier::external_body]
fn whole_seconds(d: &std::time::Duration) -> (seconds: u64) {
    d.as_secs()
}

/// A clock that counts whole seconds from the moment it was started. It can be set
/// ahead, and never goes back.
pub struct Clock {
    pub origin: std::time::Instant,
    /// The seconds by which the clock was set ahead.
    pub ahead: u64,
}

impl Clock {
    /// A clock started now.
    pub fn start() -> (c: Self)
        ensures
            c.ahead == 0,
    {
        Clock { origin: present(), ahead: 0 }
    }

    /// The seconds on the clock: those that passed since it was started and those by
    /// which it was set ahead.
    pub fn seconds(&self) -> (now: u64)
        ensures
            now >= self.ahead,
    {
        let d = elapsed_since(&self.origin);
        whole_seconds(&d).saturating_add(self.ahead)
    }

    /// Sets the clock ahead by `seconds`.
    pub fn advance(&mut self, seconds: u64)
        ensures
            final(self).ahead == if old(self).ahead + seconds > u64::MAX {
                u64::MAX
            } else {
                (old(self).ahead + seconds) as u64
            },
    {
        self.ahead = self.ahead.saturating_add(seconds);
    }
}

} // verus!
