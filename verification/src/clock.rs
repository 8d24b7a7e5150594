//! A per-task monotone stopwatch. Tick durations and total wall-clock time
//! are both read from one stopwatch started at task creation, so every
//! reading is at least as large as the one before it; the telemetry proofs
//! (CPU time never exceeds total time) rest on that single fact.

use vstd::prelude::*;

verus! {

#[verifier::external_type_specification]
#[verifier::external_body]
pub struct ExInstant(std::time::Instant);

/// Nanoseconds elapsed since the stopwatch was started, together with a
/// watermark of the largest value handed out so far.
pub struct Clock {
    base: std::time::Instant,
    last: u64,
}

impl Clock {
    /// The largest reading handed out so far.
    pub closed spec fn last_of(&self) -> u64 {
        self.last
    }

    /// The stopwatch's starting point. Opaque, but its identity lets a
    /// contract say that an operation kept the same stopwatch, so later
    /// readings still measure from the original start.
    pub closed spec fn base_of(&self) -> std::time::Instant {
        self.base
    }

    /// Relies on `std::time::Instant::now` to start the stopwatch.
    #[verifier::external_body]
    pub fn new() -> (c: Clock)
        ensures
            c.last_of() == 0,
    {
        Clock { base: std::time::Instant::now(), last: 0 }
    }

    /// Relies on `std::time::Instant::elapsed`, whose readings from one
    /// starting point never decrease because `Instant` is documented as
    /// monotonically nondecreasing; the conversion to `u64` saturates, which
    /// keeps the readings nondecreasing even past the word's range.
    #[verifier::external_body]
    pub fn read(&mut self) -> (r: u64)
        ensures
            r >= old(self).last_of(),
            final(self).last_of() == r,
            final(self).base_of() == old(self).base_of(),
    {
        let nanos = self.base.elapsed().as_nanos();
        let r = u64::try_from(nanos).unwrap_or(u64::MAX);
        self.last = r;
        r
    }
}

} // verus!
