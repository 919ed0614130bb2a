//! The chronological grouped list: one project, rows in input order, a date
//! header wherever the calendar date changes.

use vstd::prelude::*;
use vstd::string::*;
use vstd::arithmetic::div_mod::{
    lemma_div_is_ordered, lemma_fundamental_div_mod, lemma_fundamental_div_mod_converse,
    lemma_mod_bound,
};

use crate::activity::{day_of, sec_of_day, ts_in_range, Activity, ActivityView, SECS_PER_DAY};
use crate::format_util::{format_duration_hh_mm, spec_hh_mm};
use crate::report::act_views;
use crate::Error;

verus! {

/// The `%Y-%m-%d` rendering of a day number counted from the epoch. The
/// calendar work is done by an outside library; the text is a function of
/// the day number alone.
pub uninterp spec fn date_str_of(day: int) -> Seq<char>;

/// Relies on `chrono::NaiveDate::from_epoch_days` and the `%Y-%m-%d`
/// rendering of `chrono::NaiveDate`: for a day number in the library's
/// range, the printed date depends on the day number alone.
#[verifier::external_body]
fn date_label(day: i64) -> (s: String)
    requires
        -92_000_000 <= day <= 92_000_000,
    ensures
        s@ == date_str_of(day as int),
{
    match chrono::NaiveDate::from_epoch_days(day as i32) {
        Some(d) => format!("{}", d),
        None => String::new(),
    }
}

/// A timestamp in range falls on a day number the calendar library accepts.
proof fn lemma_day_in_range(t: int)
    requires
        ts_in_range(t),
    ensures
        -92_000_000 <= day_of(t) <= 92_000_000,
{
    lemma_div_is_ordered(-7_948_800_000_000, t, SECS_PER_DAY as int);
    lemma_div_is_ordered(t, 7_948_800_000_000, SECS_PER_DAY as int);
}

/// Splits a timestamp into its day number and its second of the day.
fn time_parts(t: i64) -> (r: (i64, i64))
    requires
        ts_in_range(t as int),
    ensures
        r.0 == day_of(t as int),
        r.1 == sec_of_day(t as int),
        0 <= r.1 < 86_400,
{
    let (day, sod): (i64, i64) = if t >= 0 {
        (t / 86_400, t % 86_400)
    } else {
        let u = -t;
        let qu = u / 86_400;
        let ru = u % 86_400;
        if ru == 0 {
            (-qu, 0)
        } else {
            (-qu - 1, 86_400 - ru)
        }
    };
    proof {
        if t < 0 {
            let ti = t as int;
            let d = 86_400int;
            let ui = -ti;
            lemma_fundamental_div_mod(ui, d);
            lemma_mod_bound(ui, d);
            let qu = ui / d;
            let ru = ui % d;
            if ru == 0 {
                assert(ti == (-qu) * d + 0) by (nonlinear_arith)
                    requires
                        ui == d * qu + ru,
                        ru == 0,
                        ti == -ui,
                ;
                lemma_fundamental_div_mod_converse(ti, d, -qu, 0);
            } else {
                assert(ti == (-qu - 1) * d + (d - ru)) by (nonlinear_arith)
                    requires
                        ui == d * qu + ru,
                        ti == -ui,
                ;
                lemma_fundamental_div_mod_converse(ti, d, -qu - 1, d - ru);
            }
        }
        lemma_mod_bound(t as int, 86_400int);
    }
    (day, sod)
}

/// The `HH:MM` rendering of the time of day a timestamp falls on.
pub fn get_start_time(activity: &Activity) -> (s: String)
    requires
        activity@.in_range(),
    ensures
        s@ == spec_hh_mm(sec_of_day(activity@.start)),
{
    let (_, sod) = time_parts(activity.start);
    format_duration_hh_mm(sod)
}

/// The rendering of an activity's end: a dash while it still runs, the time
/// of day when it ends on its start's calendar date, and the date with the
/// time when it ends on another date.
pub open spec fn stop_time_spec(a: ActivityView) -> Seq<char> {
    match a.end {
        None => seq!['-'],
        Some(e) => if day_of(e) == day_of(a.start) {
            spec_hh_mm(sec_of_day(e))
        } else {
            date_str_of(day_of(e)) + seq![' '] + spec_hh_mm(sec_of_day(e))
        },
    }
}

/// Renders an activity's end for its list row.
pub fn get_stop_time(activity: &Activity) -> (s: String)
    requires
        activity@.in_range(),
    ensures
        s@ == stop_time_spec(activity@),
{
    proof {
        reveal_strlit("-");
        reveal_strlit(" ");
    }
    match activity.end {
        None => {
            let s = String::from_str("-");
            proof {
                assert(s@ =~= stop_time_spec(activity@));
            }
            s
        },
        Some(e) => {
            let (e_day, e_sod) = time_parts(e);
            let (s_day, _) = time_parts(activity.start);
            let clock = format_duration_hh_mm(e_sod);
            if e_day == s_day {
                clock
            } else {
                proof {
                    lemma_day_in_range(e as int);
                }
                let mut s = date_label(e_day);
                s.append(" ");
                s.append(clock.as_str());
                proof {
                    assert(s@ =~= stop_time_spec(activity@));
                }
                s
            }
        },
    }
}

/// The pattern collaborators use to render a full date with the time, or
/// the time alone, matching the renderings the rows carry.
pub fn get_date_time_format(with_date: bool) -> (s: &'static str)
    ensures
        with_date ==> s@ == "%Y-%m-%d %H:%M"@,
        !with_date ==> s@ == "%H:%M"@,
{
    if with_date {
        "%Y-%m-%d %H:%M"
    } else {
        "%H:%M"
    }
}

/// One rendered row of the grouped list: its date header when the row opens
/// a new calendar date, and the rendered fields.
pub struct ListRow {
    pub date_header: Option<String>,
    pub description: String,
    pub start_time: String,
    pub stop_time: String,
    pub duration: String,
}

/// All activities carry one and the same project.
pub open spec fn single_project(acts: Seq<ActivityView>) -> bool {
    forall|i: int, j: int|
        0 <= i < acts.len() && 0 <= j < acts.len() ==> (#[trigger] acts[i]).project == (
        #[trigger] acts[j]).project
}

/// Row `k` of the grouped list renders activity `k`: the date header stands
/// exactly on the first row and wherever the start's calendar date differs
/// from the previous row's, and the fields carry the renderings.
pub open spec fn row_wf(row: ListRow, acts: Seq<ActivityView>, k: int) -> bool {
    let a = acts[k];
    &&& match row.date_header {
        Some(h) => (k == 0 || day_of(acts[k - 1].start) != day_of(a.start)) && h@ == date_str_of(
            day_of(a.start),
        ),
        None => k > 0 && day_of(acts[k - 1].start) == day_of(a.start),
    }
    &&& row.description@ == a.description
    &&& row.start_time@ == spec_hh_mm(sec_of_day(a.start))
    &&& row.stop_time@ == stop_time_spec(a)
    &&& row.duration@ == spec_hh_mm(a.duration())
}

/// Renders the grouped list: refused with an error when the activities span
/// more than one project, otherwise one row per activity in the given
/// order. An empty list yields no rows.
#[verifier::loop_isolation(false)]
pub fn list_activities(activities: &Vec<Activity>) -> (r: Result<Vec<ListRow>, Error>)
    requires
        forall|t: int| 0 <= t < activities@.len() ==> (#[trigger] activities@[t])@.in_range(),
    ensures
        match r {
            Ok(rows) => single_project(act_views(activities@)) && rows@.len()
                == activities@.len() && forall|k: int|
                0 <= k < rows@.len() ==> row_wf(#[trigger] rows@[k], act_views(activities@), k),
            Err(e) => e == Error::MultipleProjects && !single_project(act_views(activities@)),
        },
{
    let ghost acts = act_views(activities@);
    if activities.len() == 0 {
        return Ok(Vec::new());
    }
    let mut k: usize = 1;
    while k < activities.len()
        invariant
            1 <= k <= activities@.len(),
            forall|t: int| 0 <= t < k ==> (#[trigger] acts[t]).project == acts[0].project,
        decreases activities@.len() - k,
    {
        if !(activities[k].project == activities[0].project) {
            proof {
                assert(acts[k as int].project != acts[0].project);
            }
            return Err(Error::MultipleProjects);
        }
        proof {
            assert(acts[k as int] == activities@[k as int]@);
        }
        k = k + 1;
    }
    let mut rows: Vec<ListRow> = Vec::new();
    let mut i: usize = 0;
    while i < activities.len()
        invariant
            i <= activities@.len(),
            rows@.len() == i,
            forall|w: int| 0 <= w < i ==> row_wf(#[trigger] rows@[w], acts, w),
        decreases activities@.len() - i,
    {
        let (day, _) = time_parts(activities[i].start);
        let new_date: bool = if i == 0 {
            true
        } else {
            let (prev_day, _) = time_parts(activities[i - 1].start);
            prev_day != day
        };
        let date_header: Option<String> = if new_date {
            proof {
                lemma_day_in_range(activities@[i as int]@.start);
            }
            Some(date_label(day))
        } else {
            None
        };
        let row = ListRow {
            date_header,
            description: activities[i].description.clone(),
            start_time: get_start_time(&activities[i]),
            stop_time: get_stop_time(&activities[i]),
            duration: format_duration_hh_mm(activities[i].get_duration()),
        };
        proof {
            assert(acts[i as int] == activities@[i as int]@);
            if i > 0 {
                assert(acts[i as int - 1] == activities@[i as int - 1]@);
            }
        }
        rows.push(row);
        i = i + 1;
    }
    Ok(rows)
}

} // verus!
