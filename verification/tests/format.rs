use bartib::format_util::{format_duration, format_duration_hh_mm};

#[test]
fn hh_mm_ninety_minutes() {
    assert_eq!(format_duration_hh_mm(90 * 60), "01:30");
}

#[test]
fn hh_mm_zero() {
    assert_eq!(format_duration_hh_mm(0), "00:00");
}

#[test]
fn hh_mm_hours_above_two_digits() {
    assert_eq!(format_duration_hh_mm(100 * 3600 + 5 * 60), "100:05");
}

#[test]
fn hh_mm_seconds_truncated() {
    assert_eq!(format_duration_hh_mm(59), "00:00");
    assert_eq!(format_duration_hh_mm(61), "00:01");
}

#[test]
fn hh_mm_round_trips_in_whole_minutes() {
    for d in [0i64, 59, 60, 3599, 3600, 5400, 86399, 360000] {
        let s = format_duration_hh_mm(d);
        let (h, m) = s.split_once(':').unwrap();
        let h: i64 = h.parse().unwrap();
        let m: i64 = m.parse().unwrap();
        assert_eq!(h * 60 + m, d / 60);
    }
}

#[test]
fn informal_under_one_minute() {
    assert_eq!(format_duration(0), "<1m");
    assert_eq!(format_duration(59), "<1m");
}

#[test]
fn informal_minutes_only() {
    assert_eq!(format_duration(60), "01m");
    assert_eq!(format_duration(45 * 60), "45m");
}

#[test]
fn informal_hours_and_minutes() {
    assert_eq!(format_duration(3600), "1h 00m");
    assert_eq!(format_duration(2 * 3600 + 2 * 60), "2h 02m");
    assert_eq!(format_duration(26 * 3600 + 59 * 60), "26h 59m");
}
