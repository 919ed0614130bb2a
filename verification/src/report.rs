//! Aggregation of activities into a report: totals per project and, within
//! each project, per description.

use vstd::prelude::*;

use crate::activity::{Activity, ActivityView};
use crate::ordering::{lemma_lex_connex, lemma_lex_irrefl, lemma_lex_trans, lex_lt, str_lt};

verus! {

/// The activity values of a list of activities.
pub open spec fn act_views(s: Seq<Activity>) -> Seq<ActivityView> {
    s.map_values(|a: Activity| a@)
}

/// The sum of the durations of a sequence of activity values.
pub open spec fn total_duration(acts: Seq<ActivityView>) -> int
    decreases acts.len(),
{
    if acts.len() == 0 {
        0
    } else {
        total_duration(acts.drop_last()) + acts.last().duration()
    }
}

/// A total of durations is never negative.
pub proof fn lemma_total_duration_nonneg(acts: Seq<ActivityView>)
    ensures
        total_duration(acts) >= 0,
    decreases acts.len(),
{
    if acts.len() > 0 {
        lemma_total_duration_nonneg(acts.drop_last());
    }
}

/// Appending one activity adds its duration to the total.
pub proof fn lemma_total_duration_push(acts: Seq<ActivityView>, a: ActivityView)
    ensures
        total_duration(acts.push(a)) == total_duration(acts) + a.duration(),
{
    assert(acts.push(a).drop_last() =~= acts);
}

/// A prefix never sums to more than the whole.
pub proof fn lemma_total_take_le(acts: Seq<ActivityView>, k: int)
    requires
        0 <= k <= acts.len(),
    ensures
        total_duration(acts.take(k)) <= total_duration(acts),
    decreases acts.len(),
{
    if k == acts.len() {
        assert(acts.take(k) =~= acts);
    } else {
        lemma_total_take_le(acts.drop_last(), k);
        assert(acts.drop_last().take(k) =~= acts.take(k));
    }
}

/// The predicate selecting the activities whose key is `v`.
pub open spec fn key_pred(key: spec_fn(ActivityView) -> Seq<char>, v: Seq<char>) -> spec_fn(
    ActivityView,
) -> bool {
    |a: ActivityView| key(a) == v
}

/// The activities of `acts` whose key is `v`, in their given order.
pub open spec fn key_filter(
    acts: Seq<ActivityView>,
    key: spec_fn(ActivityView) -> Seq<char>,
    v: Seq<char>,
) -> Seq<ActivityView> {
    acts.filter(key_pred(key, v))
}

/// The project label of an activity value.
pub open spec fn proj_of() -> spec_fn(ActivityView) -> Seq<char> {
    |a: ActivityView| a.project
}

/// The description label of an activity value.
pub open spec fn desc_of() -> spec_fn(ActivityView) -> Seq<char> {
    |a: ActivityView| a.description
}

/// The activities of `acts` recorded on project `p`.
pub open spec fn project_filter(acts: Seq<ActivityView>, p: Seq<char>) -> Seq<ActivityView> {
    key_filter(acts, proj_of(), p)
}

/// The activities of `acts` described as `d`.
pub open spec fn description_filter(acts: Seq<ActivityView>, d: Seq<char>) -> Seq<ActivityView> {
    key_filter(acts, desc_of(), d)
}

/// How one appended activity changes a filtered sequence.
pub proof fn lemma_key_filter_push(
    acts: Seq<ActivityView>,
    a: ActivityView,
    key: spec_fn(ActivityView) -> Seq<char>,
    v: Seq<char>,
)
    ensures
        key(a) == v ==> key_filter(acts.push(a), key, v) == key_filter(acts, key, v).push(a),
        key(a) != v ==> key_filter(acts.push(a), key, v) == key_filter(acts, key, v),
{
    reveal(Seq::filter);
    assert(acts.push(a).drop_last() =~= acts);
    assert(acts.push(a).last() == a);
}

/// A filtered total never exceeds the total of the whole sequence.
pub proof fn lemma_key_filter_total_le(
    acts: Seq<ActivityView>,
    key: spec_fn(ActivityView) -> Seq<char>,
    v: Seq<char>,
)
    ensures
        total_duration(key_filter(acts, key, v)) <= total_duration(acts),
    decreases acts.len(),
{
    reveal(Seq::filter);
    if acts.len() == 0 {
    } else {
        let prefix = acts.drop_last();
        let a = acts.last();
        lemma_key_filter_total_le(prefix, key, v);
        assert(prefix.push(a) =~= acts);
        lemma_key_filter_push(prefix, a, key, v);
        if key(a) == v {
            lemma_total_duration_push(key_filter(prefix, key, v), a);
        }
    }
}

/// Sums the aggregation durations of the given activities.
pub fn sum_duration(activities: &Vec<Activity>) -> (d: i64)
    requires
        forall|k: int| 0 <= k < activities@.len() ==> (#[trigger] activities@[k])@.in_range(),
        total_duration(act_views(activities@)) <= i64::MAX,
    ensures
        d == total_duration(act_views(activities@)),
{
    let ghost acts = act_views(activities@);
    let mut d: i64 = 0;
    let mut k: usize = 0;
    while k < activities.len()
        invariant
            k <= activities@.len(),
            acts == act_views(activities@),
            acts.len() == activities@.len(),
            forall|t: int| 0 <= t < activities@.len() ==> (#[trigger] activities@[t])@.in_range(),
            total_duration(acts) <= i64::MAX,
            d == total_duration(acts.take(k as int)),
        decreases activities@.len() - k,
    {
        let dk = activities[k].get_duration();
        proof {
            assert(acts.take(k as int + 1).drop_last() =~= acts.take(k as int));
            assert(acts[k as int] == activities@[k as int]@);
            lemma_total_take_le(acts, k as int + 1);
            lemma_total_duration_nonneg(acts.take(k as int));
        }
        d = d + dk;
        k = k + 1;
    }
    proof {
        assert(acts.take(acts.len() as int) =~= acts);
    }
    d
}

/// One description within a project: its activities, in input order, and
/// their summed duration.
pub struct DescriptionGroup {
    pub description: String,
    pub duration: i64,
    pub activities: Vec<Activity>,
}

/// One project of the report: its activities, their summed duration, and the
/// description groups within it.
pub struct ProjectGroup {
    pub project: String,
    pub duration: i64,
    pub activities: Vec<Activity>,
    pub descriptions: Vec<DescriptionGroup>,
}

/// The aggregated report: the grand total and the project groups in
/// lexicographic project order.
pub struct Report {
    pub total: i64,
    pub projects: Vec<ProjectGroup>,
}

/// Whether some name of `s` reads `p`.
pub open spec fn names_contain(s: Seq<String>, p: Seq<char>) -> bool {
    exists|i: int| 0 <= i < s.len() && (#[trigger] s[i])@ == p
}

/// The names of `s` are strictly increasing, so distinct.
pub open spec fn sorted_names(s: Seq<String>) -> bool {
    forall|i: int, j: int| 0 <= i < j < s.len() ==> lex_lt(s[i]@, s[j]@)
}

/// Inserts `x` into a sorted name list, keeping it sorted and free of
/// duplicates.
#[verifier::loop_isolation(false)]
fn insert_name(names: &mut Vec<String>, x: &String)
    requires
        sorted_names(old(names)@),
    ensures
        sorted_names(final(names)@),
        forall|p: Seq<char>|
            #[trigger] names_contain(final(names)@, p) <==> (names_contain(old(names)@, p) || p
                == x@),
{
    let ghost orig = names@;
    let mut idx: usize = 0;
    while idx < names.len() && str_lt(&names[idx], x)
        invariant
            idx <= names@.len(),
            names@ == orig,
            forall|i: int| 0 <= i < idx ==> lex_lt((#[trigger] names@[i])@, x@),
        decreases names@.len() - idx,
    {
        idx = idx + 1;
    }
    if idx < names.len() && names[idx] == *x {
        proof {
            assert(names_contain(names@, x@));
            assert forall|p: Seq<char>| #[trigger]
                names_contain(names@, p) <==> (names_contain(orig, p) || p == x@) by {
                if p == x@ {
                    assert(names@[idx as int]@ == p);
                }
            }
        }
        return ;
    }
    proof {
        if idx < names@.len() {
            lemma_lex_connex(x@, names@[idx as int]@);
            assert(lex_lt(x@, names@[idx as int]@));
        }
    }
    names.insert(idx, x.clone());
    proof {
        let cur = names@;
        assert forall|i: int, j: int| 0 <= i < j < cur.len() implies lex_lt(
            (#[trigger] cur[i])@,
            (#[trigger] cur[j])@,
        ) by {
            if j < idx {
                assert(cur[i] == orig[i] && cur[j] == orig[j]);
            } else if i < idx && j == idx {
                assert(cur[i] == orig[i]);
            } else if i < idx && j > idx {
                assert(cur[i] == orig[i] && cur[j] == orig[j - 1]);
            } else if i == idx && j > idx {
                assert(cur[j] == orig[j - 1]);
                if j - 1 > idx {
                    lemma_lex_trans(x@, orig[idx as int]@, orig[j - 1]@);
                }
            } else if i > idx {
                assert(cur[i] == orig[i - 1] && cur[j] == orig[j - 1]);
            }
        }
        assert forall|p: Seq<char>| #[trigger]
            names_contain(cur, p) implies (names_contain(orig, p) || p == x@) by {
            let w = choose|w: int| 0 <= w < cur.len() && (#[trigger] cur[w])@ == p;
            if w < idx {
                assert(orig[w]@ == p);
            } else if w > idx {
                assert(orig[w - 1]@ == p);
            }
        }
        assert forall|p: Seq<char>|
            names_contain(orig, p) || p == x@ implies #[trigger] names_contain(cur, p) by {
            if p == x@ {
                assert(cur[idx as int]@ == p);
            } else {
                let w = choose|w: int| 0 <= w < orig.len() && (#[trigger] orig[w])@ == p;
                if w < idx {
                    assert(cur[w]@ == p);
                } else {
                    assert(cur[w + 1]@ == p);
                }
            }
        }
    }
}

/// The list holds every key label seen in `acts`, and nothing else.
spec fn names_exact(names: Seq<String>, acts: Seq<ActivityView>, key: spec_fn(ActivityView) -> Seq<char>) -> bool {
    &&& forall|t: int| 0 <= t < acts.len() ==> names_contain(names, key(#[trigger] acts[t]))
    &&& forall|p: Seq<char>|
        #[trigger] names_contain(names, p) ==> exists|t: int|
            0 <= t < acts.len() && key(#[trigger] acts[t]) == p
}

/// Collects the distinct key labels of `acts`, sorted lexicographically.
#[verifier::loop_isolation(false)]
fn collect_names(activities: &Vec<Activity>, by_description: bool) -> (names: Vec<String>)
    ensures
        sorted_names(names@),
        names_exact(
            names@,
            act_views(activities@),
            if by_description {
                desc_of()
            } else {
                proj_of()
            },
        ),
{
    let ghost acts = act_views(activities@);
    let ghost key = if by_description {
        desc_of()
    } else {
        proj_of()
    };
    let mut names: Vec<String> = Vec::new();
    let mut k: usize = 0;
    while k < activities.len()
        invariant
            k <= activities@.len(),
            sorted_names(names@),
            forall|t: int| 0 <= t < k ==> names_contain(names@, key(#[trigger] acts[t])),
            forall|p: Seq<char>|
                #[trigger] names_contain(names@, p) ==> exists|t: int|
                    0 <= t < k && key(#[trigger] acts[t]) == p,
        decreases activities@.len() - k,
    {
        let x = if by_description {
            &activities[k].description
        } else {
            &activities[k].project
        };
        proof {
            assert(key(acts[k as int]) == x@);
        }
        insert_name(&mut names, x);
        k = k + 1;
    }
    names
}

/// One description group is faithful to `acts`: it holds exactly the
/// matching activities, in order, with their summed duration, and its
/// description occurs in `acts`.
pub open spec fn desc_group_wf(g: DescriptionGroup, acts: Seq<ActivityView>) -> bool {
    &&& act_views(g.activities@) == description_filter(acts, g.description@)
    &&& g.duration == total_duration(description_filter(acts, g.description@))
    &&& exists|k: int| 0 <= k < acts.len() && (#[trigger] acts[k]).description == g.description@
}

/// The description groups of `acts`: sorted strictly by description, each
/// faithful, and together covering every activity.
pub open spec fn desc_groups_wf(ds: Seq<DescriptionGroup>, acts: Seq<ActivityView>) -> bool {
    &&& forall|i: int, j: int|
        0 <= i < j < ds.len() ==> lex_lt(
            (#[trigger] ds[i]).description@,
            (#[trigger] ds[j]).description@,
        )
    &&& forall|i: int| 0 <= i < ds.len() ==> desc_group_wf(#[trigger] ds[i], acts)
    &&& forall|k: int|
        0 <= k < acts.len() ==> exists|i: int|
            0 <= i < ds.len() && (#[trigger] ds[i]).description@ == (#[trigger] acts[k]).description
}

/// Groups the given activities by description, lexicographically ordered,
/// with each group's total duration.
#[verifier::loop_isolation(false)]
pub fn group_activities_by_description(activities: &Vec<Activity>) -> (ds: Vec<DescriptionGroup>)
    requires
        forall|t: int| 0 <= t < activities@.len() ==> (#[trigger] activities@[t])@.in_range(),
        total_duration(act_views(activities@)) <= i64::MAX,
    ensures
        desc_groups_wf(ds@, act_views(activities@)),
{
    let ghost acts = act_views(activities@);
    let names = collect_names(activities, true);
    let mut ds: Vec<DescriptionGroup> = Vec::new();
    let mut i: usize = 0;
    while i < names.len()
        invariant
            i <= names@.len(),
            ds@.len() == i,
            forall|w: int| 0 <= w < i ==> (#[trigger] ds@[w]).description@ == names@[w]@,
            forall|w: int| 0 <= w < i ==> desc_group_wf(#[trigger] ds@[w], acts),
        decreases names@.len() - i,
    {
        let ghost v = names@[i as int]@;
        let mut group_acts: Vec<Activity> = Vec::new();
        let mut dur: i64 = 0;
        let mut k: usize = 0;
        while k < activities.len()
            invariant
                k <= activities@.len(),
                i < names@.len(),
                v == names@[i as int]@,
                act_views(group_acts@) == description_filter(acts.take(k as int), v),
                dur == total_duration(description_filter(acts.take(k as int), v)),
                forall|e: int|
                    0 <= e < group_acts@.len() ==> (#[trigger] group_acts@[e])@.in_range(),
            decreases activities@.len() - k,
        {
            proof {
                assert(acts.take(k as int + 1) =~= acts.take(k as int).push(acts[k as int]));
                lemma_key_filter_push(acts.take(k as int), acts[k as int], desc_of(), v);
                lemma_key_filter_total_le(acts.take(k as int + 1), desc_of(), v);
                lemma_total_take_le(acts, k as int + 1);
                lemma_total_duration_nonneg(description_filter(acts.take(k as int), v));
                assert(acts[k as int] == activities@[k as int]@);
            }
            if activities[k].description == names[i] {
                let c = activities[k].clone();
                let dk = activities[k].get_duration();
                proof {
                    lemma_total_duration_push(
                        description_filter(acts.take(k as int), v),
                        acts[k as int],
                    );
                    assert(act_views(group_acts@.push(c)) =~= act_views(group_acts@).push(c@));
                }
                group_acts.push(c);
                dur = dur + dk;
            }
            k = k + 1;
        }
        proof {
            assert(acts.take(acts.len() as int) =~= acts);
            assert(names_contain(names@, v));
        }
        let g = DescriptionGroup {
            description: names[i].clone(),
            duration: dur,
            activities: group_acts,
        };
        ds.push(g);
        i = i + 1;
    }
    proof {
        assert forall|k: int| 0 <= k < acts.len() implies exists|w: int|
            0 <= w < ds@.len() && (#[trigger] ds@[w]).description@ == (
            #[trigger] acts[k]).description by {
            assert(names_contain(names@, desc_of()(acts[k])));
            let w = choose|w: int|
                0 <= w < names@.len() && (#[trigger] names@[w])@ == desc_of()(acts[k]);
            assert(ds@[w].description@ == acts[k].description);
        }
    }
    ds
}

/// One project group is faithful to `acts`: it holds exactly the matching
/// activities, in order, their summed duration, faithful description groups
/// over them, and its project occurs in `acts`.
pub open spec fn proj_group_wf(g: ProjectGroup, acts: Seq<ActivityView>) -> bool {
    &&& act_views(g.activities@) == project_filter(acts, g.project@)
    &&& g.duration == total_duration(project_filter(acts, g.project@))
    &&& desc_groups_wf(g.descriptions@, project_filter(acts, g.project@))
    &&& exists|k: int| 0 <= k < acts.len() && (#[trigger] acts[k]).project == g.project@
}

/// The full report is faithful to `acts`: the grand total sums every
/// activity, the project groups are sorted strictly by project, each is
/// faithful, and together they cover every activity.
pub open spec fn report_wf(r: Report, acts: Seq<ActivityView>) -> bool {
    &&& r.total == total_duration(acts)
    &&& forall|i: int, j: int|
        0 <= i < j < r.projects@.len() ==> lex_lt(
            (#[trigger] r.projects@[i]).project@,
            (#[trigger] r.projects@[j]).project@,
        )
    &&& forall|i: int| 0 <= i < r.projects@.len() ==> proj_group_wf(#[trigger] r.projects@[i], acts)
    &&& forall|k: int|
        0 <= k < acts.len() ==> exists|i: int|
            0 <= i < r.projects@.len() && (#[trigger] r.projects@[i]).project@ == (
            #[trigger] acts[k]).project
}

/// Groups the given activities by project, lexicographically ordered, each
/// project with its total duration and its description groups.
#[verifier::loop_isolation(false)]
pub fn create_project_map(activities: &Vec<Activity>) -> (gs: Vec<ProjectGroup>)
    requires
        forall|t: int| 0 <= t < activities@.len() ==> (#[trigger] activities@[t])@.in_range(),
        total_duration(act_views(activities@)) <= i64::MAX,
    ensures
        forall|i: int, j: int|
            0 <= i < j < gs@.len() ==> lex_lt(
                (#[trigger] gs@[i]).project@,
                (#[trigger] gs@[j]).project@,
            ),
        forall|i: int| 0 <= i < gs@.len() ==> proj_group_wf(#[trigger] gs@[i], act_views(activities@)),
        forall|k: int|
            0 <= k < act_views(activities@).len() ==> exists|i: int|
                0 <= i < gs@.len() && (#[trigger] gs@[i]).project@ == (#[trigger] act_views(
                    activities@,
                )[k]).project,
{
    let ghost acts = act_views(activities@);
    let names = collect_names(activities, false);
    let mut gs: Vec<ProjectGroup> = Vec::new();
    let mut i: usize = 0;
    while i < names.len()
        invariant
            i <= names@.len(),
            gs@.len() == i,
            forall|w: int| 0 <= w < i ==> (#[trigger] gs@[w]).project@ == names@[w]@,
            forall|w: int| 0 <= w < i ==> proj_group_wf(#[trigger] gs@[w], acts),
        decreases names@.len() - i,
    {
        let ghost v = names@[i as int]@;
        let mut group_acts: Vec<Activity> = Vec::new();
        let mut dur: i64 = 0;
        let mut k: usize = 0;
        while k < activities.len()
            invariant
                k <= activities@.len(),
                i < names@.len(),
                v == names@[i as int]@,
                act_views(group_acts@) == project_filter(acts.take(k as int), v),
                dur == total_duration(project_filter(acts.take(k as int), v)),
                forall|e: int|
                    0 <= e < group_acts@.len() ==> (#[trigger] group_acts@[e])@.in_range(),
            decreases activities@.len() - k,
        {
            proof {
                assert(acts.take(k as int + 1) =~= acts.take(k as int).push(acts[k as int]));
                lemma_key_filter_push(acts.take(k as int), acts[k as int], proj_of(), v);
                lemma_key_filter_total_le(acts.take(k as int + 1), proj_of(), v);
                lemma_total_take_le(acts, k as int + 1);
                lemma_total_duration_nonneg(project_filter(acts.take(k as int), v));
                assert(acts[k as int] == activities@[k as int]@);
            }
            if activities[k].project == names[i] {
                let c = activities[k].clone();
                let dk = activities[k].get_duration();
                proof {
                    lemma_total_duration_push(
                        project_filter(acts.take(k as int), v),
                        acts[k as int],
                    );
                    assert(act_views(group_acts@.push(c)) =~= act_views(group_acts@).push(c@));
                }
                group_acts.push(c);
                dur = dur + dk;
            }
            k = k + 1;
        }
        proof {
            assert(acts.take(acts.len() as int) =~= acts);
            assert(names_contain(names@, v));
            lemma_total_duration_nonneg(project_filter(acts, v));
        }
        let descriptions = group_activities_by_description(&group_acts);
        let g = ProjectGroup {
            project: names[i].clone(),
            duration: dur,
            activities: group_acts,
            descriptions,
        };
        gs.push(g);
        i = i + 1;
    }
    proof {
        assert forall|k: int| 0 <= k < acts.len() implies exists|w: int|
            0 <= w < gs@.len() && (#[trigger] gs@[w]).project@ == (#[trigger] acts[k]).project by {
            assert(names_contain(names@, proj_of()(acts[k])));
            let w = choose|w: int|
                0 <= w < names@.len() && (#[trigger] names@[w])@ == proj_of()(acts[k]);
            assert(gs@[w].project@ == acts[k].project);
        }
    }
    gs
}

/// Builds the full report: the grand total and the ordered project groups
/// with their ordered description groups.
pub fn show_activities(activities: &Vec<Activity>) -> (r: Report)
    requires
        forall|t: int| 0 <= t < activities@.len() ==> (#[trigger] activities@[t])@.in_range(),
        total_duration(act_views(activities@)) <= i64::MAX,
    ensures
        report_wf(r, act_views(activities@)),
{
    let total = sum_duration(activities);
    let projects = create_project_map(activities);
    let r = Report { total, projects };
    proof {
        let acts = act_views(activities@);
        assert(r.total == total_duration(acts));
        assert(forall|i: int|
            0 <= i < r.projects@.len() ==> proj_group_wf(#[trigger] r.projects@[i], acts));
        assert forall|k: int| 0 <= k < acts.len() implies exists|i: int|
            0 <= i < r.projects@.len() && (#[trigger] r.projects@[i]).project@ == (
            #[trigger] acts[k]).project by {
            let w = choose|w: int|
                0 <= w < r.projects@.len() && (#[trigger] r.projects@[w]).project@
                    == acts[k].project;
            assert(0 <= w < r.projects@.len() && r.projects@[w].project@ == acts[k].project);
        }
    }
    r
}

/// The filtered totals of `acts`, summed over a list of names.
pub open spec fn sum_key_filters(
    acts: Seq<ActivityView>,
    key: spec_fn(ActivityView) -> Seq<char>,
    names: Seq<Seq<char>>,
) -> int
    decreases names.len(),
{
    if names.len() == 0 {
        0
    } else {
        sum_key_filters(acts, key, names.drop_last()) + total_duration(
            key_filter(acts, key, names.last()),
        )
    }
}

proof fn lemma_sum_key_filters_empty(
    key: spec_fn(ActivityView) -> Seq<char>,
    names: Seq<Seq<char>>,
)
    ensures
        sum_key_filters(Seq::empty(), key, names) == 0,
    decreases names.len(),
{
    reveal(Seq::filter);
    if names.len() > 0 {
        lemma_sum_key_filters_empty(key, names.drop_last());
    }
}

proof fn lemma_sum_key_filters_push(
    acts: Seq<ActivityView>,
    a: ActivityView,
    key: spec_fn(ActivityView) -> Seq<char>,
    names: Seq<Seq<char>>,
)
    requires
        forall|i: int, j: int| 0 <= i < j < names.len() ==> names[i] != names[j],
    ensures
        sum_key_filters(acts.push(a), key, names) == sum_key_filters(acts, key, names) + if names.contains(key(a)) {
            a.duration()
        } else {
            0
        },
    decreases names.len(),
{
    if names.len() == 0 {
        assert(!names.contains(key(a)));
    } else {
        let rest = names.drop_last();
        let v = names.last();
        lemma_sum_key_filters_push(acts, a, key, rest);
        lemma_key_filter_push(acts, a, key, v);
        if key(a) == v {
            lemma_total_duration_push(key_filter(acts, key, v), a);
            assert(names[names.len() - 1] == key(a));
            assert(names.contains(key(a)));
            if rest.contains(key(a)) {
                let w = choose|w: int| 0 <= w < rest.len() && rest[w] == key(a);
                assert(names[w] == names[names.len() - 1]);
                assert(false);
            }
        } else {
            if names.contains(key(a)) {
                let w = choose|w: int| 0 <= w < names.len() && names[w] == key(a);
                assert(w < names.len() - 1);
                assert(rest[w] == key(a));
                assert(rest.contains(key(a)));
            }
            if rest.contains(key(a)) {
                let w = choose|w: int| 0 <= w < rest.len() && rest[w] == key(a);
                assert(names[w] == key(a));
                assert(names.contains(key(a)));
            }
        }
    }
}

/// Distinct names whose groups cover every activity split the total: the
/// filtered totals sum to the total of the whole sequence.
pub proof fn lemma_partition_total(
    acts: Seq<ActivityView>,
    key: spec_fn(ActivityView) -> Seq<char>,
    names: Seq<Seq<char>>,
)
    requires
        forall|i: int, j: int| 0 <= i < j < names.len() ==> names[i] != names[j],
        forall|k: int| 0 <= k < acts.len() ==> names.contains(key(#[trigger] acts[k])),
    ensures
        sum_key_filters(acts, key, names) == total_duration(acts),
    decreases acts.len(),
{
    if acts.len() == 0 {
        lemma_sum_key_filters_empty(key, names);
        assert(acts =~= Seq::<ActivityView>::empty());
    } else {
        let prefix = acts.drop_last();
        let a = acts.last();
        lemma_partition_total(prefix, key, names);
        lemma_sum_key_filters_push(prefix, a, key, names);
        assert(prefix.push(a) =~= acts);
        assert(names.contains(key(a)));
    }
}

/// The project names of the groups, in group order.
pub open spec fn project_names(gs: Seq<ProjectGroup>) -> Seq<Seq<char>> {
    gs.map_values(|g: ProjectGroup| g.project@)
}

/// The description names of the groups, in group order.
pub open spec fn description_names(ds: Seq<DescriptionGroup>) -> Seq<Seq<char>> {
    ds.map_values(|g: DescriptionGroup| g.description@)
}

/// The project groups' durations, summed.
pub open spec fn sum_project_durations(gs: Seq<ProjectGroup>) -> int
    decreases gs.len(),
{
    if gs.len() == 0 {
        0
    } else {
        sum_project_durations(gs.drop_last()) + gs.last().duration
    }
}

/// The description groups' durations, summed.
pub open spec fn sum_description_durations(ds: Seq<DescriptionGroup>) -> int
    decreases ds.len(),
{
    if ds.len() == 0 {
        0
    } else {
        sum_description_durations(ds.drop_last()) + ds.last().duration
    }
}

/// Every description group duration of every project group, summed.
pub open spec fn sum_all_description_durations(gs: Seq<ProjectGroup>) -> int
    decreases gs.len(),
{
    if gs.len() == 0 {
        0
    } else {
        sum_all_description_durations(gs.drop_last()) + sum_description_durations(
            gs.last().descriptions@,
        )
    }
}

proof fn lemma_sum_proj_groups_eq(gs: Seq<ProjectGroup>, acts: Seq<ActivityView>)
    requires
        forall|i: int|
            0 <= i < gs.len() ==> (#[trigger] gs[i]).duration == total_duration(
                project_filter(acts, gs[i].project@),
            ),
    ensures
        sum_project_durations(gs) == sum_key_filters(acts, proj_of(), project_names(gs)),
    decreases gs.len(),
{
    if gs.len() > 0 {
        lemma_sum_proj_groups_eq(gs.drop_last(), acts);
        assert(project_names(gs).drop_last() =~= project_names(gs.drop_last()));
        assert(project_names(gs).last() == gs.last().project@);
    }
}

proof fn lemma_sum_desc_groups_eq(ds: Seq<DescriptionGroup>, acts: Seq<ActivityView>)
    requires
        forall|i: int|
            0 <= i < ds.len() ==> (#[trigger] ds[i]).duration == total_duration(
                description_filter(acts, ds[i].description@),
            ),
    ensures
        sum_description_durations(ds) == sum_key_filters(acts, desc_of(), description_names(ds)),
    decreases ds.len(),
{
    if ds.len() > 0 {
        lemma_sum_desc_groups_eq(ds.drop_last(), acts);
        assert(description_names(ds).drop_last() =~= description_names(ds.drop_last()));
        assert(description_names(ds).last() == ds.last().description@);
    }
}

proof fn lemma_sum_all_desc_eq(gs: Seq<ProjectGroup>)
    requires
        forall|i: int|
            0 <= i < gs.len() ==> sum_description_durations((#[trigger] gs[i]).descriptions@)
                == gs[i].duration,
    ensures
        sum_all_description_durations(gs) == sum_project_durations(gs),
    decreases gs.len(),
{
    if gs.len() > 0 {
        lemma_sum_all_desc_eq(gs.drop_last());
    }
}

proof fn lemma_report_project_totals(r: Report, acts: Seq<ActivityView>)
    requires
        report_wf(r, acts),
    ensures
        r.total == sum_project_durations(r.projects@),
{
    let gs = r.projects@;
    let names = project_names(gs);
    assert forall|i: int, j: int| 0 <= i < j < names.len() implies names[i] != names[j] by {
        assert(lex_lt(gs[i].project@, gs[j].project@));
        lemma_lex_irrefl(gs[i].project@);
    }
    assert forall|k: int| 0 <= k < acts.len() implies names.contains(
        proj_of()(#[trigger] acts[k]),
    ) by {
        let w = choose|w: int| 0 <= w < gs.len() && (#[trigger] gs[w]).project@ == acts[k].project;
        assert(names[w] == acts[k].project);
    }
    lemma_sum_proj_groups_eq(gs, acts);
    lemma_partition_total(acts, proj_of(), names);
}

proof fn lemma_group_desc_total(ds: Seq<DescriptionGroup>, filtered: Seq<ActivityView>)
    requires
        desc_groups_wf(ds, filtered),
    ensures
        sum_description_durations(ds) == total_duration(filtered),
{
    let dnames = description_names(ds);
    assert forall|x: int, y: int| 0 <= x < y < dnames.len() implies dnames[x] != dnames[y] by {
        assert(lex_lt(ds[x].description@, ds[y].description@));
        lemma_lex_irrefl(ds[x].description@);
    }
    assert forall|k: int| 0 <= k < filtered.len() implies dnames.contains(
        desc_of()(#[trigger] filtered[k]),
    ) by {
        let w = choose|w: int|
            0 <= w < ds.len() && (#[trigger] ds[w]).description@ == filtered[k].description;
        assert(dnames[w] == filtered[k].description);
    }
    lemma_sum_desc_groups_eq(ds, filtered);
    lemma_partition_total(filtered, desc_of(), dnames);
}

/// In a faithful report the grand total equals the sum of the per-project
/// totals, and also the sum of every per-description total across all
/// projects.
pub proof fn lemma_report_totals_consistent(r: Report, acts: Seq<ActivityView>)
    requires
        report_wf(r, acts),
    ensures
        r.total == sum_project_durations(r.projects@),
        r.total == sum_all_description_durations(r.projects@),
{
    let gs = r.projects@;
    lemma_report_project_totals(r, acts);
    assert forall|i: int|
        0 <= i < gs.len() implies sum_description_durations((#[trigger] gs[i]).descriptions@)
        == gs[i].duration by {
        let g = gs[i];
        assert(proj_group_wf(g, acts));
        lemma_group_desc_total(g.descriptions@, project_filter(acts, g.project@));
    }
    lemma_sum_all_desc_eq(gs);
}

} // verus!
