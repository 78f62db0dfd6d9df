use rdom_charts::chart::axis::format_clock;

// The float part of the timestamp formatter: whole seconds, and whether
// the range spans more than two days.
fn format_timestamp(t: f64, range_duration: f64) -> String {
    format_clock(t as i64, range_duration > 86400.0 * 2.0)
}

#[test]
fn format_timestamp_intraday_vs_multiday() {
    let intraday = format_timestamp(3661.0, 3600.0);
    assert_eq!(intraday, "01:01");
    let multiday = format_timestamp(86400.0, 86400.0 * 5.0);
    assert!(multiday.contains('/'));
}

#[test]
fn clock_labels_exact() {
    assert_eq!(format_clock(0, false), "00:00");
    assert_eq!(format_clock(86399, false), "23:59");
    assert_eq!(format_clock(86400 + 45 * 60, false), "00:45");
    assert_eq!(format_clock(86400, true), "01/02");
    assert_eq!(format_clock(0, true), "01/01");
    // The last five days of the 365-day year stay in month 12.
    assert_eq!(format_clock(359 * 86400, true), "12/30");
    assert_eq!(format_clock(360 * 86400, true), "12/01");
    assert_eq!(format_clock(364 * 86400, true), "12/05");
    assert_eq!(format_clock(365 * 86400, true), "01/01");
}

#[test]
fn clock_labels_before_epoch_keep_signs() {
    assert_eq!(format_clock(-60, false), "00:-1");
    assert_eq!(format_clock(-3600 * 11, false), "-11:00");
    assert_eq!(format_clock(-86400 * 40, true), "00/-9");
}

#[test]
fn format_timestamp_month_never_exceeds_twelve() {
    let range = 86400.0 * 5.0;
    assert_eq!(format_timestamp(364.0 * 86400.0, range), "12/05");
    for day in 0..(3 * 365) {
        let label = format_timestamp(day as f64 * 86400.0 + 3600.0, range);
        let month: u32 = label[0..2].parse().unwrap();
        let dom: u32 = label[3..5].parse().unwrap();
        assert!((1..=12).contains(&month), "{label}");
        assert!((1..=30).contains(&dom), "{label}");
    }
}
