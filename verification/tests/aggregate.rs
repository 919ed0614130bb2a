use bartib::activity::Activity;
use bartib::format_util::format_duration_hh_mm;
use bartib::list::{get_date_time_format, get_start_time, get_stop_time, list_activities};
use bartib::report::{group_activities_by_description, show_activities, sum_duration};
use bartib::Error;

fn act(start: i64, end: Option<i64>, project: &str, description: &str) -> Activity {
    Activity {
        start,
        end,
        project: project.to_string(),
        description: description.to_string(),
    }
}

#[test]
fn report_two_descriptions_one_project() {
    // An hour of dev and half an hour of meet, both on project P1.
    let acts = vec![
        act(9 * 3600, Some(10 * 3600), "P1", "dev"),
        act(10 * 3600 + 30 * 60, Some(11 * 3600), "P1", "meet"),
    ];
    let r = show_activities(&acts);
    assert_eq!(format_duration_hh_mm(r.total), "01:30");
    assert_eq!(r.projects.len(), 1);
    let p = &r.projects[0];
    assert_eq!(p.project, "P1");
    assert_eq!(format_duration_hh_mm(p.duration), "01:30");
    assert_eq!(p.descriptions.len(), 2);
    assert_eq!(p.descriptions[0].description, "dev");
    assert_eq!(format_duration_hh_mm(p.descriptions[0].duration), "01:00");
    assert_eq!(p.descriptions[1].description, "meet");
    assert_eq!(format_duration_hh_mm(p.descriptions[1].duration), "00:30");
}

#[test]
fn report_projects_in_lexicographic_order() {
    let acts = vec![
        act(0, Some(60), "zeta", "a"),
        act(100, Some(160), "alpha", "b"),
        act(200, Some(260), "mid", "c"),
    ];
    let r = show_activities(&acts);
    let names: Vec<&str> = r.projects.iter().map(|p| p.project.as_str()).collect();
    assert_eq!(names, vec!["alpha", "mid", "zeta"]);
}

#[test]
fn report_totals_are_consistent() {
    let acts = vec![
        act(0, Some(600), "a", "x"),
        act(0, Some(60), "b", "x"),
        act(700, Some(1300), "a", "y"),
        act(2000, None, "b", "z"),
    ];
    let r = show_activities(&acts);
    assert_eq!(r.total, 600 + 60 + 600);
    let project_sum: i64 = r.projects.iter().map(|p| p.duration).sum();
    let description_sum: i64 = r
        .projects
        .iter()
        .flat_map(|p| p.descriptions.iter().map(|d| d.duration))
        .sum();
    assert_eq!(r.total, project_sum);
    assert_eq!(r.total, description_sum);
}

#[test]
fn unfinished_and_backward_activities_count_zero() {
    let acts = vec![
        act(100, None, "a", "open"),
        act(500, Some(400), "a", "backward"),
        act(0, Some(90), "a", "fine"),
    ];
    assert_eq!(sum_duration(&acts), 90);
}

#[test]
fn descriptions_grouped_and_sorted() {
    let acts = vec![
        act(0, Some(10), "p", "beta"),
        act(20, Some(40), "p", "alpha"),
        act(50, Some(80), "p", "beta"),
    ];
    let ds = group_activities_by_description(&acts);
    assert_eq!(ds.len(), 2);
    assert_eq!(ds[0].description, "alpha");
    assert_eq!(ds[0].duration, 20);
    assert_eq!(ds[0].activities.len(), 1);
    assert_eq!(ds[1].description, "beta");
    assert_eq!(ds[1].duration, 40);
    assert_eq!(ds[1].activities.len(), 2);
    assert_eq!(ds[1].activities[0].start, 0);
    assert_eq!(ds[1].activities[1].start, 50);
}

#[test]
fn grouped_list_rejects_two_projects() {
    let acts = vec![
        act(0, Some(10), "one", "x"),
        act(20, Some(30), "two", "y"),
    ];
    assert!(matches!(
        list_activities(&acts),
        Err(Error::MultipleProjects)
    ));
}

#[test]
fn grouped_list_empty_is_ok() {
    let rows = list_activities(&Vec::new()).unwrap();
    assert!(rows.is_empty());
}

#[test]
fn grouped_list_marks_two_dates() {
    // One activity on the epoch day, two on the next: two date headers.
    let day = 86_400i64;
    let acts = vec![
        act(9 * 3600, Some(10 * 3600), "p", "one"),
        act(day + 8 * 3600, Some(day + 9 * 3600), "p", "two"),
        act(day + 10 * 3600, Some(day + 11 * 3600), "p", "three"),
    ];
    let rows = list_activities(&acts).unwrap();
    assert_eq!(rows.len(), 3);
    assert_eq!(rows[0].date_header.as_deref(), Some("1970-01-01"));
    assert_eq!(rows[1].date_header.as_deref(), Some("1970-01-02"));
    assert_eq!(rows[2].date_header, None);
    assert_eq!(rows[1].description, "two");
    assert_eq!(rows[1].start_time, "08:00");
    assert_eq!(rows[1].stop_time, "09:00");
    assert_eq!(rows[1].duration, "01:00");
}

#[test]
fn stop_time_shows_dash_and_crossing_date() {
    let open = act(9 * 3600, None, "p", "d");
    assert_eq!(get_stop_time(&open), "-");
    let crossing = act(23 * 3600, Some(86_400 + 3600), "p", "d");
    assert_eq!(get_stop_time(&crossing), "1970-01-02 01:00");
    let same_day = act(9 * 3600, Some(10 * 3600 + 30 * 60), "p", "d");
    assert_eq!(get_stop_time(&same_day), "10:30");
}

#[test]
fn start_time_is_time_of_day() {
    let a = act(86_400 + 9 * 3600 + 7 * 60, None, "p", "d");
    assert_eq!(get_start_time(&a), "09:07");
}

#[test]
fn date_time_format_patterns() {
    assert_eq!(get_date_time_format(true), "%Y-%m-%d %H:%M");
    assert_eq!(get_date_time_format(false), "%H:%M");
}
