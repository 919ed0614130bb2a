use bartib::activity::Activity;
use bartib::processor::{
    process_activities, ActivityProcessor, Processor, RoundProcessor, ShiftProcessor,
};
use bartib::round_util::round_datetime;
use bartib::Error;

fn act(start: i64, end: Option<i64>, project: &str, description: &str) -> Activity {
    Activity {
        start,
        end,
        project: project.to_string(),
        description: description.to_string(),
    }
}

#[test]
fn rounding_nine_oh_seven_goes_down() {
    // 09:07 with a 15 minute interval rounds down to 09:00.
    let t = 9 * 3600 + 7 * 60;
    assert_eq!(round_datetime(t, 15 * 60), Ok(9 * 3600));
}

#[test]
fn rounding_nine_oh_eight_goes_up() {
    // 09:08 with a 15 minute interval rounds up to 09:15 (ties and above go forward).
    let t = 9 * 3600 + 8 * 60;
    assert_eq!(round_datetime(t, 15 * 60), Ok(9 * 3600 + 15 * 60));
}

#[test]
fn rounding_half_way_goes_up() {
    assert_eq!(round_datetime(450, 900), Ok(900));
    assert_eq!(round_datetime(449, 900), Ok(0));
}

#[test]
fn rounding_negative_timestamp() {
    assert_eq!(round_datetime(-450, 900), Ok(0));
    assert_eq!(round_datetime(-451, 900), Ok(-900));
}

#[test]
fn rounding_rejects_non_positive_interval() {
    assert_eq!(round_datetime(1000, 0), Err(Error::InvalidInterval));
    assert_eq!(round_datetime(1000, -60), Err(Error::InvalidInterval));
}

#[test]
fn rounding_twice_changes_nothing() {
    let interval = 15 * 60;
    for t in [-100_000i64, -1, 0, 1, 32820, 32880, 999_999] {
        let once = round_datetime(t, interval).unwrap();
        assert_eq!(round_datetime(once, interval), Ok(once));
    }
}

#[test]
fn empty_processor_list_is_identity() {
    let a = act(100, Some(200), "home", "mail");
    let out = process_activities(&vec![a.clone()], &Vec::new());
    assert_eq!(out.len(), 1);
    assert_eq!(out[0].start, a.start);
    assert_eq!(out[0].end, a.end);
    assert_eq!(out[0].project, a.project);
    assert_eq!(out[0].description, a.description);
}

#[test]
fn shift_then_inverse_shift_restores() {
    let a = act(5000, Some(9000), "p", "d");
    let shifted = ShiftProcessor { shift: 3600 }.process(&a);
    assert_eq!(shifted.start, 8600);
    assert_eq!(shifted.end, Some(12600));
    let back = ShiftProcessor { shift: -3600 }.process(&shifted);
    assert_eq!(back.start, a.start);
    assert_eq!(back.end, a.end);
    assert_eq!(back.project, a.project);
    assert_eq!(back.description, a.description);
}

#[test]
fn round_processor_rounds_both_ends() {
    let a = act(9 * 3600 + 7 * 60, Some(9 * 3600 + 8 * 60), "p", "d");
    let r = RoundProcessor { round: 15 * 60 }.process(&a);
    assert_eq!(r.start, 9 * 3600);
    assert_eq!(r.end, Some(9 * 3600 + 15 * 60));
    assert_eq!(r.project, "p");
}

#[test]
fn round_processor_keeps_missing_end() {
    let a = act(9 * 3600 + 7 * 60, None, "p", "d");
    let r = RoundProcessor { round: 15 * 60 }.process(&a);
    assert_eq!(r.end, None);
}

#[test]
fn pipeline_applies_in_order() {
    // Shifting by 8 minutes and then rounding to 15 differs from the
    // reverse order.
    let a = act(9 * 3600, None, "p", "d");
    let shift_then_round = vec![
        Processor::Shift(ShiftProcessor { shift: 8 * 60 }),
        Processor::Round(RoundProcessor { round: 15 * 60 }),
    ];
    let round_then_shift = vec![
        Processor::Round(RoundProcessor { round: 15 * 60 }),
        Processor::Shift(ShiftProcessor { shift: 8 * 60 }),
    ];
    let one = process_activities(&vec![a.clone()], &shift_then_round);
    let two = process_activities(&vec![a], &round_then_shift);
    assert_eq!(one[0].start, 9 * 3600 + 15 * 60);
    assert_eq!(two[0].start, 9 * 3600 + 8 * 60);
}
