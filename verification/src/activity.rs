//! The activity record: an immutable unit of tracked work.

use vstd::prelude::*;

verus! {

/// Largest magnitude, in seconds from the epoch, of a timestamp the core
/// accepts: 92 000 000 days on either side of the epoch, comfortably inside
/// the range a calendar library can represent.
pub const TS_BOUND: i64 = 7_948_800_000_000;

/// Seconds in a day.
pub const SECS_PER_DAY: i64 = 86_400;

/// A timestamp the core accepts.
pub open spec fn ts_in_range(t: int) -> bool {
    -TS_BOUND <= t <= TS_BOUND
}

/// The calendar day a timestamp falls on, as days from the epoch
/// (timestamps before the epoch fall on negative days).
pub open spec fn day_of(t: int) -> int {
    t / (SECS_PER_DAY as int)
}

/// The second of the day a timestamp falls on, in `[0, 86 400)`.
pub open spec fn sec_of_day(t: int) -> int {
    t % (SECS_PER_DAY as int)
}

/// One recorded activity. `end` is absent while the activity is still
/// running; the label strings are free text, grouped on exact equality.
pub struct Activity {
    pub start: i64,
    pub end: Option<i64>,
    pub project: String,
    pub description: String,
}

/// The mathematical value of an [`Activity`]: unbounded integers for the
/// timestamps, character sequences for the labels.
pub ghost struct ActivityView {
    pub start: int,
    pub end: Option<int>,
    pub project: Seq<char>,
    pub description: Seq<char>,
}

impl View for Activity {
    type V = ActivityView;

    open spec fn view(&self) -> ActivityView {
        ActivityView {
            start: self.start as int,
            end: match self.end {
                Some(e) => Some(e as int),
                None => None,
            },
            project: self.project@,
            description: self.description@,
        }
    }
}

impl ActivityView {
    /// Both timestamps lie in the range the core accepts.
    pub open spec fn in_range(self) -> bool {
        &&& ts_in_range(self.start)
        &&& match self.end {
            Some(e) => ts_in_range(e),
            None => true,
        }
    }

    /// The duration an activity contributes to aggregation: `end - start`
    /// when the activity is finished and well ordered; an unfinished
    /// activity, or one whose end precedes its start, contributes zero.
    pub open spec fn duration(self) -> int {
        match self.end {
            Some(e) => if e >= self.start {
                e - self.start
            } else {
                0
            },
            None => 0,
        }
    }
}

impl Activity {
    /// The duration used for aggregation; never negative.
    pub fn get_duration(&self) -> (d: i64)
        requires
            self@.in_range(),
        ensures
            d == self@.duration(),
            d >= 0,
    {
        match self.end {
            Some(e) => {
                if e >= self.start {
                    e - self.start
                } else {
                    0
                }
            },
            None => 0,
        }
    }
}

impl Clone for Activity {
    /// A clone carries the same value.
    fn clone(&self) -> (r: Self)
        ensures
            r@ == self@,
    {
        Activity {
            start: self.start,
            end: self.end,
            project: self.project.clone(),
            description: self.description.clone(),
        }
    }
}

} // verus!
