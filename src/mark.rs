use vstd::prelude::*;

use crate::time::Timestamp;
use crate::window::Window;

verus! {

/// A point in the log, or a boundary inferred between two log entries of the
/// same kind.
#[derive(Debug)]
pub enum Mark {
    Start { time: Timestamp, message: String },
    Stop { time: Timestamp, message: String },
    /// Presumed activity between two consecutive stops.
    InferredStart { start: Timestamp, end: Timestamp },
    /// Presumed inactivity between two consecutive starts.
    InferredStop { start: Timestamp, end: Timestamp },
}

impl Mark {
    pub open spec fn spec_start_bound(&self) -> Timestamp {
        match self {
            Mark::Start { time, .. } => *time,
            Mark::Stop { time, .. } => *time,
            Mark::InferredStart { start, .. } => *start,
            Mark::InferredStop { start, .. } => *start,
        }
    }

    pub open spec fn spec_end_bound(&self) -> Timestamp {
        match self {
            Mark::Start { time, .. } => *time,
            Mark::Stop { time, .. } => *time,
            Mark::InferredStart { end, .. } => *end,
            Mark::InferredStop { end, .. } => *end,
        }
    }

    pub open spec fn wf(&self) -> bool {
        self.spec_start_bound().wf() && self.spec_end_bound().wf()
    }

    /// A mark lies within a window when one of its bounds does.
    pub open spec fn spec_within(&self, window: &Window<Timestamp>) -> bool {
        window.holds(&self.spec_start_bound()) || window.holds(&self.spec_end_bound())
    }

    /// The local day of the start bound.
    pub open spec fn spec_day(&self) -> int {
        self.spec_start_bound().spec_day()
    }

    pub fn start_bound(&self) -> (r: Timestamp)
        ensures
            r == self.spec_start_bound(),
    {
        match self {
            Mark::Start { time, .. } => *time,
            Mark::Stop { time, .. } => *time,
            Mark::InferredStart { start, .. } => *start,
            Mark::InferredStop { start, .. } => *start,
        }
    }

    pub fn end_bound(&self) -> (r: Timestamp)
        ensures
            r == self.spec_end_bound(),
    {
        match self {
            Mark::Start { time, .. } => *time,
            Mark::Stop { time, .. } => *time,
            Mark::InferredStart { end, .. } => *end,
            Mark::InferredStop { end, .. } => *end,
        }
    }

    pub fn is_within(&self, window: &Window<Timestamp>) -> (r: bool)
        ensures
            r == self.spec_within(window),
    {
        match self {
            Mark::Start { time, .. } => window.contains(time),
            Mark::Stop { time, .. } => window.contains(time),
            Mark::InferredStart { start, end } => window.contains(start) || window.contains(end),
            Mark::InferredStop { start, end } => window.contains(start) || window.contains(end),
        }
    }

    /// The local calendar day of the start bound, counted from 1970-01-01.
    pub fn start_of_day(&self) -> (r: i64)
        requires
            self.wf(),
        ensures
            r as int == self.spec_day(),
    {
        self.start_bound().day()
    }
}

} // verus!
