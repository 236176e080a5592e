//! Progress reporting.
//!
//! Callers supply a sink that receives `(completed, total)` pairs while an
//! engine works. The engines compute what to report; a sink only carries the
//! report out, so it promises nothing.

use vstd::prelude::*;

verus! {

/// A receiver for `(completed, total)` progress reports.
pub trait ProgressSink {
    fn report(&mut self, completed: usize, total: usize);
}

/// A sink that discards every report.
pub struct NoProgress {
}

impl ProgressSink for NoProgress {
    fn report(&mut self, completed: usize, total: usize) {
    }
}

/// A sink that records every report, in order.
pub struct RecordingSink {
    pub calls: Vec<(usize, usize)>,
}

impl RecordingSink {
    pub fn new() -> (r: RecordingSink)
        ensures
            r.calls@ == Seq::<(usize, usize)>::empty(),
    {
        RecordingSink { calls: Vec::new() }
    }
}

impl ProgressSink for RecordingSink {
    fn report(&mut self, completed: usize, total: usize) {
        self.calls.push((completed, total));
    }
}

/// Integer percentage of `done` out of `total`, rounded half away from zero
/// and capped at 100.
pub open spec fn spec_percent(done: int, total: int) -> int {
    if total <= 0 {
        100
    } else {
        let p = (done * 200 + total) / (2 * total);
        if p > 100 {
            100
        } else {
            p
        }
    }
}

/// Whether a new percentage is worth logging: the first report always is,
/// and later ones when they gained at least five points or first reached
/// one hundred.
pub open spec fn spec_should_log(last: Option<int>, percent: int) -> bool {
    match last {
        Some(prev) => percent >= prev + 5 || (percent == 100 && percent != prev),
        None => true,
    }
}

/// Turns raw `(completed, total)` progress into occasional percentage steps:
/// it answers with a percentage only when that percentage is worth logging.
pub struct LoggingProgress {
    total_hint: usize,
    last_percent: Option<u8>,
}

/// The percentage that `LoggingProgress::update` works out for a report,
/// with a zero reported total falling back to the constructor's hint.
pub open spec fn spec_logged_percent(total_hint: int, completed: int, total: int) -> int {
    let total_units = if total == 0 {
        if total_hint > 1 {
            total_hint
        } else {
            1
        }
    } else {
        total
    };
    let display_total = if total == 0 {
        total_hint
    } else {
        total
    };
    let done_units = if display_total == 0 {
        completed
    } else if completed > display_total {
        display_total
    } else {
        completed
    };
    let capped = if done_units > total_units {
        total_units
    } else {
        done_units
    };
    spec_percent(capped, total_units)
}

impl LoggingProgress {
    /// The hint used in place of a zero reported total.
    pub closed spec fn spec_total_hint(&self) -> int {
        self.total_hint as int
    }

    /// The last percentage answered, if any.
    pub closed spec fn spec_last_percent(&self) -> Option<int> {
        match self.last_percent {
            Some(p) => Some(p as int),
            None => None,
        }
    }

    pub fn new(total_hint: usize) -> (r: LoggingProgress)
        ensures
            r.spec_total_hint() == total_hint as int,
            r.spec_last_percent() is None,
    {
        LoggingProgress { total_hint, last_percent: None }
    }

    /// Work out the percentage for a report and answer it when it is worth
    /// logging, remembering it; otherwise answer nothing and stay unchanged.
    pub fn update(&mut self, completed: usize, total: usize) -> (r: Option<usize>)
        ensures
            ({
                let percent = spec_logged_percent(
                    old(self).spec_total_hint(),
                    completed as int,
                    total as int,
                );
                if spec_should_log(old(self).spec_last_percent(), percent) {
                    &&& r == Some(percent as usize)
                    &&& 0 <= percent <= 100
                    &&& final(self).spec_last_percent() == Some(percent)
                } else {
                    &&& r is None
                    &&& final(self).spec_last_percent() == old(self).spec_last_percent()
                }
            }),
            final(self).spec_total_hint() == old(self).spec_total_hint(),
    {
        let total_units: usize = if total == 0 {
            if self.total_hint > 1 {
                self.total_hint
            } else {
                1
            }
        } else {
            total
        };
        let display_total: usize = if total == 0 {
            self.total_hint
        } else {
            total
        };
        let done_units: usize = if display_total == 0 {
            completed
        } else if completed > display_total {
            display_total
        } else {
            completed
        };
        let capped: usize = if done_units > total_units {
            total_units
        } else {
            done_units
        };
        let percent = percent_of(capped, total_units);
        let should = match self.last_percent {
            Some(prev) => percent >= prev as usize + 5 || (percent == 100 && percent
                != prev as usize),
            None => true,
        };
        if should {
            self.last_percent = Some(percent as u8);
            Some(percent)
        } else {
            None
        }
    }
}

/// A percentage logger for a task expected to span `total_hint` units,
/// used when a caller supplies no progress sink of its own.
pub fn make_logging_progress_callback(total_hint: usize) -> (r: LoggingProgress)
    ensures
        r.spec_total_hint() == total_hint as int,
        r.spec_last_percent() is None,
{
    LoggingProgress::new(total_hint)
}

/// Integer percentage, rounded half away from zero and capped at 100.
pub fn percent_of(done: usize, total: usize) -> (r: usize)
    ensures
        r == spec_percent(done as int, total as int),
        0 <= r <= 100,
{
    if total == 0 {
        return 100;
    }
    let d = done as u128;
    let t = total as u128;
    let p = (d * 200 + t) / (2 * t);
    if p > 100 {
        100
    } else {
        p as usize
    }
}

} // verus!
