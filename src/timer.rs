use vstd::prelude::*;

verus! {

/// Nanoseconds in one second.
pub const NANOS_PER_SEC: u128 = 1_000_000_000;

#[verifier::external_type_specification]
#[verifier::external_body]
pub struct ExInstant(std::time::Instant);

/// Relies on `Instant::now`: a reading of the monotonic clock. Nothing is
/// promised of its value.
pub assume_specification[ std::time::Instant::now ]() -> std::time::Instant;

/// A monotonic clock that reads nanoseconds since its creation.
pub struct Clock {
    origin: std::time::Instant,
}

impl Clock {
    /// A clock whose origin is now.
    pub fn new() -> (r: Clock) {
        Clock { origin: std::time::Instant::now() }
    }

    /// Relies on `Instant::elapsed` and `Duration::as_nanos`: nanoseconds
    /// since the clock's origin, which never decrease from one reading to the
    /// next. Nothing is promised of the value.
    #[verifier::external_body]
    fn reading(&self) -> (r: u128) {
        self.origin.elapsed().as_nanos()
    }

    /// The current reading, in nanoseconds since the clock's origin.
    pub fn now_nanos(&self) -> (r: u128) {
        self.reading()
    }
}

/// A clock reading came before the timer's start.
#[derive(Debug, Clone, Copy, PartialEq, Eq)]
pub struct TimeError {
    /// How far, in nanoseconds, the reading lies before the start.
    pub behind_nanos: u128,
}

/// A stopwatch started at a fixed reading of a monotonic clock.
#[derive(Debug, Clone, Copy, PartialEq, Eq)]
pub struct Timer {
    start_nanos: u128,
}

/// Whole seconds between `start` and `now`, capped at `u64::MAX`.
pub open spec fn elapsed_secs(start: u128, now: u128) -> int
    recommends
        start <= now,
{
    let s = (now - start) / (NANOS_PER_SEC as int);
    if s > u64::MAX as int {
        u64::MAX as int
    } else {
        s
    }
}

impl Timer {
    /// The clock reading, in nanoseconds, at which the timer was started.
    pub closed spec fn start(&self) -> u128 {
        self.start_nanos
    }

    /// A timer started at the current reading of `clock`.
    pub fn new(clock: &Clock) -> (t: Timer) {
        Timer { start_nanos: clock.now_nanos() }
    }

    /// The timer started at the clock reading `start_nanos`.
    pub closed spec fn started_at_spec(start_nanos: u128) -> Timer {
        Timer { start_nanos }
    }

    /// A timer started at the clock reading `start_nanos`.
    pub fn started_at(start_nanos: u128) -> (t: Timer)
        ensures
            t == Timer::started_at_spec(start_nanos),
            t.start() == start_nanos,
    {
        Timer { start_nanos }
    }

    /// The clock reading, in nanoseconds, at which the timer was started.
    pub fn start_nanos(&self) -> (r: u128)
        ensures
            r == self.start(),
    {
        self.start_nanos
    }

    /// Whole seconds from the start to the reading `now_nanos`; an error when
    /// the reading lies before the start.
    pub fn elapsed_at(&self, now_nanos: u128) -> (r: Result<u64, TimeError>)
        ensures
            now_nanos >= self.start() ==> r == Ok::<u64, TimeError>(
                elapsed_secs(self.start(), now_nanos) as u64,
            ),
            now_nanos < self.start() ==> r == Err::<u64, TimeError>(
                TimeError { behind_nanos: (self.start() - now_nanos) as u128 },
            ),
    {
        if now_nanos >= self.start_nanos {
            let s = (now_nanos - self.start_nanos) / NANOS_PER_SEC;
            if s > u64::MAX as u128 {
                Ok(u64::MAX)
            } else {
                Ok(s as u64)
            }
        } else {
            Err(TimeError { behind_nanos: self.start_nanos - now_nanos })
        }
    }

    /// Whole seconds from the start to the current reading of `clock`; an
    /// error when that reading lies before the start (a timer started on
    /// another clock).
    pub fn get_time(&self, clock: &Clock) -> (r: Result<u64, TimeError>)
        ensures
            r is Ok ==> exists|now: u128|
                now >= self.start() && r->Ok_0 == elapsed_secs(self.start(), now),
    {
        self.elapsed_at(clock.now_nanos())
    }
}

} // verus!
