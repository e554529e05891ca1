use mike_dev_blog::dates::{
    format_date, format_date_iso, format_date_readable, format_date_relative, format_date_short,
    relative_label,
};

#[test]
fn readable_format_at_the_epoch() {
    assert_eq!(format_date_readable(0), "January 01, 1970");
}

#[test]
fn readable_format_of_a_known_instant() {
    // 2015-05-15T00:00:00Z
    assert_eq!(format_date_readable(1431648000), "May 15, 2015");
}

#[test]
fn short_format_at_the_epoch() {
    assert_eq!(format_date_short(0), "Jan 01, 1970");
}

#[test]
fn iso_format_at_the_epoch() {
    assert_eq!(format_date_iso(0), "1970-01-01T00:00:00+00:00");
}

#[test]
fn format_date_matches_readable() {
    assert_eq!(format_date(1431648000), format_date_readable(1431648000));
}

#[test]
fn relative_label_just_now_for_small_and_future_gaps() {
    assert_eq!(relative_label(0, 0), "Just now");
    assert_eq!(relative_label(0, 59), "Just now");
    assert_eq!(relative_label(100, 0), "Just now");
}

#[test]
fn relative_label_minutes_and_hours() {
    assert_eq!(relative_label(0, 120), "2 minutes ago");
    assert_eq!(relative_label(0, 7200), "2 hours ago");
    assert_eq!(relative_label(0, 86399), "23 hours ago");
}

#[test]
fn relative_label_days() {
    assert_eq!(relative_label(0, 86400), "1 days ago");
    assert_eq!(relative_label(0, 11 * 86400), "11 days ago");
    assert_eq!(relative_label(0, 30 * 86400), "30 days ago");
}

#[test]
fn relative_label_beyond_thirty_days_shows_the_date() {
    assert_eq!(relative_label(0, 31 * 86400), "January 01, 1970");
}

#[test]
fn relative_to_the_current_clock_sees_the_epoch_as_a_date() {
    assert_eq!(format_date_relative(0), "January 01, 1970");
}
