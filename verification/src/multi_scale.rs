//! Time scales of the multi-scale temporal detector and their windowing rules.
//!
//! The statistics computed per window (moving averages, seasonal models, spectra)
//! are floating point and live with the detector outside this crate.

use vstd::prelude::*;

verus! {

/// Time scale of analysis.
#[derive(Debug, Clone, Copy, PartialEq, Eq, Structural)]
pub enum TimeScale {
    Second,
    Minute,
    Hour,
    Day,
}

impl TimeScale {
    /// Aggregation window of the scale in nanoseconds: a second, minute, hour or day.
    pub open spec fn window_ns_spec(self) -> u64 {
        match self {
            TimeScale::Second => 1_000_000_000,
            TimeScale::Minute => 60_000_000_000,
            TimeScale::Hour => 3_600_000_000_000,
            TimeScale::Day => 86_400_000_000_000,
        }
    }

    /// Number of window values kept for spectral analysis: 10, 60, 24 and 7.
    pub open spec fn buffer_size_spec(self) -> usize {
        match self {
            TimeScale::Second => 10,
            TimeScale::Minute => 60,
            TimeScale::Hour => 24,
            TimeScale::Day => 7,
        }
    }

    /// Season length of the trend model: hours repeat daily (24), days weekly (7);
    /// the two short scales have no seasonal model.
    pub open spec fn seasonal_period_spec(self) -> Option<usize> {
        match self {
            TimeScale::Hour => Some(24),
            TimeScale::Day => Some(7),
            _ => None,
        }
    }

    /// Aggregation window of the scale in nanoseconds.
    pub fn window_ns(self) -> (r: u64)
        ensures
            r == self.window_ns_spec(),
    {
        match self {
            TimeScale::Second => 1_000_000_000,
            TimeScale::Minute => 60_000_000_000,
            TimeScale::Hour => 3_600_000_000_000,
            TimeScale::Day => 86_400_000_000_000,
        }
    }

    /// Number of window values kept for spectral analysis.
    pub fn buffer_size(self) -> (r: usize)
        ensures
            r == self.buffer_size_spec(),
    {
        match self {
            TimeScale::Second => 10,
            TimeScale::Minute => 60,
            TimeScale::Hour => 24,
            TimeScale::Day => 7,
        }
    }

    /// Season length of the trend model, if the scale has one.
    pub fn seasonal_period(self) -> (r: Option<usize>)
        ensures
            r == self.seasonal_period_spec(),
    {
        match self {
            TimeScale::Hour => Some(24),
            TimeScale::Day => Some(7),
            _ => None,
        }
    }
}

/// Whether a sample at `timestamp_ns` closes the current window: some sample is in the
/// window, and at least a window's length has passed since the window opened. Before
/// the first sample (`last_update_ns == 0`) no time counts as passed.
pub open spec fn window_closes_spec(
    last_update_ns: u64,
    timestamp_ns: u64,
    window_ns: u64,
    window_count: u64,
) -> bool {
    let elapsed: int = if last_update_ns == 0 || timestamp_ns <= last_update_ns {
        0
    } else {
        timestamp_ns - last_update_ns
    };
    elapsed >= window_ns && window_count > 0
}

/// Whether a sample at `timestamp_ns` closes the current window.
pub fn window_closes(last_update_ns: u64, timestamp_ns: u64, window_ns: u64, window_count: u64) -> (r:
    bool)
    ensures
        r == window_closes_spec(last_update_ns, timestamp_ns, window_ns, window_count),
{
    let elapsed = if last_update_ns == 0 {
        0
    } else {
        timestamp_ns.saturating_sub(last_update_ns)
    };
    elapsed >= window_ns && window_count > 0
}


/// A window closes once a whole window length has passed since the last update (on a
/// running clock, with samples in the window), and only then, or at once for a window
/// of length 0; a later sample with the same state closes it too.
pub proof fn lemma_window_closes_when_elapsed(
    last_update_ns: u64,
    timestamp_ns: u64,
    later_ns: u64,
    window_ns: u64,
    window_count: u64,
)
    ensures
        last_update_ns > 0 && timestamp_ns >= last_update_ns + window_ns && window_count > 0
            ==> window_closes_spec(last_update_ns, timestamp_ns, window_ns, window_count),
        window_closes_spec(last_update_ns, timestamp_ns, window_ns, window_count) ==> window_count
            > 0 && (window_ns == 0 || (last_update_ns > 0 && timestamp_ns >= last_update_ns
            + window_ns)),
        window_closes_spec(last_update_ns, timestamp_ns, window_ns, window_count) && later_ns
            >= timestamp_ns ==> window_closes_spec(
            last_update_ns,
            later_ns,
            window_ns,
            window_count,
        ),
{
}

} // verus!
