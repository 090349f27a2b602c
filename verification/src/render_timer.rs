//! Frame timing on the host.

use vstd::prelude::*;
use std::time::{Duration, Instant};

verus! {

/// `std::time::Instant`, a moment of the clock.  Nothing of what it holds
/// is visible here.
#[verifier::external_type_specification]
#[verifier::external_body]
pub struct ExInstant(std::time::Instant);

/// Reads the clock: `std::time::Instant::now`.  Nothing is claimed of the
/// instant that comes back.
#[verifier::external_body]
fn clock_now() -> (now: Instant) {
    Instant::now()
}

/// The time from `origin` to now: `std::time::Instant::elapsed`, which
/// reads the clock.  Nothing is claimed of the time that comes back.
#[verifier::external_body]
fn time_since(origin: &Instant) -> (elapsed: Duration) {
    origin.elapsed()
}

/// The whole nanoseconds of a length of time: `std::time::Duration::as_nanos`.
/// Nothing is claimed of the number, as nothing of a `Duration` is
/// visible here.
#[verifier::external_body]
fn nanos_of(time: &Duration) -> (nanos: u128) {
    time.as_nanos()
}

/// Measures the time between frames and keeps their count and total.
pub struct RenderTimer {
    origin: Instant,
    last_render_nanos: u128,
    total_render_nanos: u128,
    frame_count: u64,
}

impl RenderTimer {
    /// Time of the last frame, in nanoseconds since the timer was made.
    pub closed spec fn last_render_time(&self) -> nat {
        self.last_render_nanos as nat
    }

    /// Sum of all frame times, in nanoseconds.
    pub closed spec fn total_render_time(&self) -> nat {
        self.total_render_nanos as nat
    }

    /// Number of frames measured.
    pub closed spec fn frames(&self) -> nat {
        self.frame_count as nat
    }

    /// The timer after a frame that ended at `now`: the frame took the time
    /// since the last one, or none where the clock went back.
    pub open spec fn frame_time(&self, now: nat) -> nat {
        if now >= self.last_render_time() {
            (now - self.last_render_time()) as nat
        } else {
            0
        }
    }

    /// A timer that starts now, with no frame measured.
    pub fn new() -> (timer: Self)
        ensures
            timer.last_render_time() == 0,
            timer.total_render_time() == 0,
            timer.frames() == 0,
    {
        RenderTimer {
            origin: clock_now(),
            last_render_nanos: 0,
            total_render_nanos: 0,
            frame_count: 0,
        }
    }

    /// Records a frame that ended `now` nanoseconds after the timer was
    /// made, and returns the time it took.  Count and total stop at the
    /// largest number they can hold.
    pub fn record_frame(&mut self, now: u128) -> (delta_time: u128)
        ensures
            delta_time == old(self).frame_time(now as nat),
            final(self).last_render_time() == now,
            final(self).total_render_time() == if old(self).total_render_time() + delta_time
                > u128::MAX {
                u128::MAX as nat
            } else {
                old(self).total_render_time() + delta_time as nat
            },
            final(self).frames() == if old(self).frames() == u64::MAX {
                u64::MAX as nat
            } else {
                old(self).frames() + 1
            },
    {
        let delta_time: u128 = if now >= self.last_render_nanos {
            now - self.last_render_nanos
        } else {
            0
        };
        self.last_render_nanos = now;
        self.total_render_nanos = if delta_time > u128::MAX - self.total_render_nanos {
            u128::MAX
        } else {
            self.total_render_nanos + delta_time
        };
        self.frame_count = if self.frame_count == u64::MAX {
            u64::MAX
        } else {
            self.frame_count + 1
        };
        delta_time
    }

    /// Ends a frame now: reads the clock and records the frame.  Returns
    /// the time since the last frame in nanoseconds.
    pub fn get_delta(&mut self) -> (delta_time: u128)
        ensures
            delta_time == old(self).frame_time(final(self).last_render_time()),
            final(self).total_render_time() == if old(self).total_render_time() + delta_time
                > u128::MAX {
                u128::MAX as nat
            } else {
                old(self).total_render_time() + delta_time as nat
            },
            final(self).frames() == if old(self).frames() == u64::MAX {
                u64::MAX as nat
            } else {
                old(self).frames() + 1
            },
    {
        let elapsed: Duration = time_since(&self.origin);
        let now: u128 = nanos_of(&elapsed);
        self.record_frame(now)
    }

    /// Mean frame time in nanoseconds, rounded down; `None` before the
    /// first frame.
    pub fn get_average_render_time(&self) -> (average: Option<u128>)
        ensures
            self.frames() == 0 ==> average.is_none(),
            self.frames() > 0 ==> average == Some(
                (self.total_render_time() / self.frames()) as u128,
            ),
    {
        if self.frame_count == 0 {
            None
        } else {
            Some(self.total_render_nanos / (self.frame_count as u128))
        }
    }

    /// Number of frames measured.
    pub fn frame_count(&self) -> (count: u64)
        ensures
            count == self.frames(),
    {
        self.frame_count
    }

    /// Sum of all frame times in nanoseconds.
    pub fn total_render_nanos(&self) -> (total: u128)
        ensures
            total == self.total_render_time(),
    {
        self.total_render_nanos
    }
}

} // verus!
