use track::report_fmt::HMSFormatter;

#[test]
fn formats_seconds() {
    let formatter = HMSFormatter::default();
    let text = formatter.format(5000);
    assert_eq!(text, "00:00:05");
}

#[test]
fn formats_zero() {
    let formatter = HMSFormatter::default();
    assert_eq!(formatter.format(0), "00:00:00");
}

#[test]
fn formats_hours_minutes_seconds() {
    let formatter = HMSFormatter::default();
    assert_eq!(formatter.format(3661000), "01:01:01");
    assert_eq!(formatter.format(59999), "00:00:59");
    assert_eq!(formatter.format(359999999), "99:59:59");
}

#[test]
fn formats_hours_beyond_two_digits() {
    let formatter = HMSFormatter::default();
    assert_eq!(formatter.format(360000000), "100:00:00");
}
