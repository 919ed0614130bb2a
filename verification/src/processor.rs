//! Activity processors and the processing pipeline.

use vstd::prelude::*;

use crate::activity::{ts_in_range, Activity, ActivityView, TS_BOUND};
use crate::round_util::{round_datetime, round_spec};
use crate::Error;

verus! {

/// What a status report shows: the running activity, the selected project,
/// and the durations tracked today, this week and this month, in seconds.
pub struct StatusReportData {
    pub activity: Option<Activity>,
    pub project: Option<String>,
    pub today: i64,
    pub current_week: i64,
    pub current_month: i64,
}

/// A consumer of status report data, implemented by the presentation layer.
pub trait StatusReportWriter {
    fn process(&self, data: &StatusReportData) -> Result<(), Error>;
}

/// What the grouped list consumes: the processed activities and the
/// presentation choices.
pub struct ListData {
    pub activities: Vec<Activity>,
    pub do_group_activities: bool,
    pub with_start_dates: bool,
}

/// A consumer of list data, implemented by the presentation layer.
pub trait ListWriter {
    fn process(&self, data: &ListData) -> Result<(), Error>;
}

/// What the report consumes: the processed activities.
pub struct ReportData {
    pub activities: Vec<Activity>,
}

/// A consumer of report data, implemented by the presentation layer.
pub trait ReportWriter {
    fn process(&self, data: &ReportData) -> Result<(), Error>;
}

/// A pure transformation from one activity to a new one.
pub trait ActivityProcessor {
    /// The processor's configuration is acceptable.
    spec fn wf(&self) -> bool;

    /// The transformation the processor performs, on activity values.
    spec fn spec_process(&self, a: ActivityView) -> ActivityView;

    /// Produces the transformed copy of `activity`; the input is not
    /// changed.
    fn process(&self, activity: &Activity) -> (r: Activity)
        requires
            self.wf(),
            activity@.in_range(),
        ensures
            r@ == self.spec_process(activity@),
    ;
}

/// Replaces both timestamps by their rounding to `interval`; labels are
/// copied unchanged.
pub open spec fn round_view(a: ActivityView, interval: int) -> ActivityView {
    ActivityView {
        start: round_spec(a.start, interval),
        end: match a.end {
            Some(e) => Some(round_spec(e, interval)),
            None => None,
        },
        project: a.project,
        description: a.description,
    }
}

/// Adds the signed offset `d` to both timestamps; labels are copied
/// unchanged.
pub open spec fn shift_view(a: ActivityView, d: int) -> ActivityView {
    ActivityView {
        start: a.start + d,
        end: match a.end {
            Some(e) => Some(e + d),
            None => None,
        },
        project: a.project,
        description: a.description,
    }
}

/// Shifting forward and then back by the same offset returns the original
/// activity value.
pub proof fn lemma_shift_inverse(a: ActivityView, d: int)
    ensures
        shift_view(shift_view(a, d), -d) == a,
{
}

/// Rounds both timestamps of an activity to a configured interval.
#[derive(Clone, Copy)]
pub struct RoundProcessor {
    pub round: i64,
}

impl ActivityProcessor for RoundProcessor {
    open spec fn wf(&self) -> bool {
        0 < self.round <= TS_BOUND
    }

    open spec fn spec_process(&self, a: ActivityView) -> ActivityView {
        round_view(a, self.round as int)
    }

    fn process(&self, activity: &Activity) -> (r: Activity) {
        let start = match round_datetime(activity.start, self.round) {
            Ok(v) => v,
            Err(_) => 0,
        };
        let end = match activity.end {
            Some(e) => Some(
                match round_datetime(e, self.round) {
                    Ok(v) => v,
                    Err(_) => 0,
                },
            ),
            None => None,
        };
        Activity {
            start,
            end,
            project: activity.project.clone(),
            description: activity.description.clone(),
        }
    }
}

/// Shifts both timestamps of an activity by a configured signed offset.
#[derive(Clone, Copy)]
pub struct ShiftProcessor {
    pub shift: i64,
}

impl ActivityProcessor for ShiftProcessor {
    open spec fn wf(&self) -> bool {
        -TS_BOUND <= self.shift <= TS_BOUND
    }

    open spec fn spec_process(&self, a: ActivityView) -> ActivityView {
        shift_view(a, self.shift as int)
    }

    fn process(&self, activity: &Activity) -> (r: Activity) {
        let start = activity.start + self.shift;
        let end = match activity.end {
            Some(e) => Some(e + self.shift),
            None => None,
        };
        Activity {
            start,
            end,
            project: activity.project.clone(),
            description: activity.description.clone(),
        }
    }
}

/// The closed set of processors a pipeline can hold.
#[derive(Clone, Copy)]
pub enum Processor {
    Round(RoundProcessor),
    Shift(ShiftProcessor),
}

impl ActivityProcessor for Processor {
    open spec fn wf(&self) -> bool {
        match self {
            Processor::Round(p) => p.wf(),
            Processor::Shift(p) => p.wf(),
        }
    }

    open spec fn spec_process(&self, a: ActivityView) -> ActivityView {
        match self {
            Processor::Round(p) => p.spec_process(a),
            Processor::Shift(p) => p.spec_process(a),
        }
    }

    fn process(&self, activity: &Activity) -> (r: Activity) {
        match self {
            Processor::Round(p) => p.process(activity),
            Processor::Shift(p) => p.process(activity),
        }
    }
}

/// An ordered pipeline of processors, applied left to right.
pub type ProcessorList = Vec<Processor>;

/// The value an activity takes after every processor of `ps` has been
/// applied in list order.
pub open spec fn apply_all(ps: Seq<Processor>, a: ActivityView) -> ActivityView
    decreases ps.len(),
{
    if ps.len() == 0 {
        a
    } else {
        ps.last().spec_process(apply_all(ps.drop_last(), a))
    }
}

/// An empty pipeline is the identity.
pub proof fn lemma_apply_all_empty(a: ActivityView)
    ensures
        apply_all(Seq::empty(), a) == a,
{
}

/// Every value the pipeline passes an activity through, the activity
/// included, stays inside the timestamp range the core accepts. Callers owe
/// this: outside that range the timestamp arithmetic of a calendar library
/// has no room, so the pipeline does not promise anything there.
pub open spec fn pipeline_in_range(ps: Seq<Processor>, a: ActivityView) -> bool {
    forall|k: int| 0 <= k <= ps.len() ==> (#[trigger] apply_all(ps.take(k), a)).in_range()
}

/// Applies every processor, in list order, to every activity; the result
/// replaces the original, and inputs are left unchanged.
pub fn process_activities(activities: &Vec<Activity>, processors: &Vec<Processor>) -> (out: Vec<
    Activity,
>)
    requires
        forall|j: int| 0 <= j < processors@.len() ==> (#[trigger] processors@[j]).wf(),
        forall|i: int|
            0 <= i < activities@.len() ==> pipeline_in_range(
                processors@,
                (#[trigger] activities@[i])@,
            ),
    ensures
        out@.len() == activities@.len(),
        forall|i: int|
            0 <= i < out@.len() ==> (#[trigger] out@[i])@ == apply_all(
                processors@,
                activities@[i]@,
            ),
        forall|i: int| 0 <= i < out@.len() ==> (#[trigger] out@[i])@.in_range(),
{
    let mut out: Vec<Activity> = Vec::new();
    let mut i: usize = 0;
    while i < activities.len()
        invariant
            i <= activities@.len(),
            out@.len() == i,
            forall|j: int| 0 <= j < processors@.len() ==> (#[trigger] processors@[j]).wf(),
            forall|k: int|
                0 <= k < activities@.len() ==> pipeline_in_range(
                    processors@,
                    (#[trigger] activities@[k])@,
                ),
            forall|k: int|
                0 <= k < i ==> (#[trigger] out@[k])@ == apply_all(processors@, activities@[k]@),
            forall|k: int| 0 <= k < i ==> (#[trigger] out@[k])@.in_range(),
        decreases activities@.len() - i,
    {
        let mut a = activities[i].clone();
        let mut j: usize = 0;
        while j < processors.len()
            invariant
                j <= processors@.len(),
                forall|k: int| 0 <= k < processors@.len() ==> (#[trigger] processors@[k]).wf(),
                pipeline_in_range(processors@, activities@[i as int]@),
                i < activities@.len(),
                a@ == apply_all(processors@.take(j as int), activities@[i as int]@),
            decreases processors@.len() - j,
        {
            proof {
                assert(apply_all(processors@.take(j as int), activities@[i as int]@).in_range());
            }
            let p = processors[j];
            a = p.process(&a);
            proof {
                assert(processors@.take(j as int + 1).drop_last() =~= processors@.take(j as int));
                assert(processors@.take(j as int + 1).last() == processors@[j as int]);
            }
            j = j + 1;
        }
        proof {
            assert(processors@.take(processors@.len() as int) =~= processors@);
        }
        out.push(a);
        i = i + 1;
    }
    out
}

} // verus!
