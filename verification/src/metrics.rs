//! The best coverage so far and the time since it last improved.
//!
//! Times are milliseconds on a clock of the caller's choosing that does not
//! run backwards.  The metrics only report; they never reject or change
//! coverage.

use vstd::prelude::*;

verus! {

/// The time from `since` to `now`, and none when `now` is the earlier one.
pub open spec fn elapsed(since: u64, now: u64) -> u64 {
    if now >= since {
        (now - since) as u64
    } else {
        0
    }
}

/// The running maximum of the coverage and the time at which it last rose.
#[derive(Clone, Copy, Debug, PartialEq, Eq, Structural)]
pub struct RunMetrics {
    /// The largest total reported so far.
    pub running_max: u64,
    /// When `running_max` last rose, or when the metrics were made.
    pub last_improved_at: u64,
}

impl RunMetrics {
    /// Metrics that start at `now` with nothing covered.
    pub fn new(now: u64) -> (metrics: RunMetrics)
        ensures
            metrics == (RunMetrics { running_max: 0, last_improved_at: now }),
    {
        RunMetrics { running_max: 0, last_improved_at: now }
    }

    /// Takes note of the total after one more run, at time `now`.
    ///
    /// Returns whether the total is a new maximum, the maximum after the run,
    /// and the time since the maximum last rose, which is none when it rose
    /// just now.
    pub fn update(&mut self, current_total: u64, now: u64) -> (report: (bool, u64, u64))
        ensures
            report.0 <==> current_total > old(self).running_max,
            final(self).running_max == if current_total > old(self).running_max {
                current_total
            } else {
                old(self).running_max
            },
            final(self).last_improved_at == if report.0 {
                now
            } else {
                old(self).last_improved_at
            },
            report.1 == final(self).running_max,
            report.2 == elapsed(final(self).last_improved_at, now),
    {
        let is_new_max = current_total > self.running_max;
        if is_new_max {
            self.running_max = current_total;
            self.last_improved_at = now;
        }
        let since: u64 = if now >= self.last_improved_at {
            now - self.last_improved_at
        } else {
            0
        };
        (is_new_max, self.running_max, since)
    }
}

/// Whole milliseconds in a span of `secs` seconds and `subsec_nanos`
/// nanoseconds.
pub fn as_millis(secs: u64, subsec_nanos: u32) -> (millis: u64)
    requires
        secs * 1000 + subsec_nanos / 1_000_000 <= u64::MAX,
    ensures
        millis == secs * 1000 + subsec_nanos / 1_000_000,
{
    secs * 1000 + (subsec_nanos as u64 / 1000000)
}

} // verus!
