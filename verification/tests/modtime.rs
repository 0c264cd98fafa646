use sync_status::modtime::{format_mod_time, join_mod_time};

#[test]
fn mod_time_names_the_time_and_its_age() {
    assert_eq!(format_mod_time("2023-08-01  3:04PM", 86400), "2023-08-01  3:04PM (1 day ago)");
    assert_eq!(format_mod_time("t", 0), "t (now)");
    assert_eq!(format_mod_time("t", 59), "t (59 seconds ago)");
    assert_eq!(format_mod_time("t", 3600 + 60 + 3), "t (1 hour ago)");
    assert_eq!(format_mod_time("", 120), " (2 minutes ago)");
}

#[test]
fn time_ahead_counts_as_very_long_ago() {
    let ahead = format_mod_time("t", -1);
    let expected = timeago::Formatter::new().convert(std::time::Duration::new(u64::MAX, 0));
    assert_eq!(ahead, format!("t ({})", expected));
    let far = format_mod_time("t", i64::MIN);
    let expected = timeago::Formatter::new().convert(std::time::Duration::new(1u64 << 63, 0));
    assert_eq!(far, format!("t ({})", expected));
}

#[test]
fn join_puts_the_age_in_brackets() {
    assert_eq!(join_mod_time("yesterday", "1 day ago"), "yesterday (1 day ago)");
    assert_eq!(join_mod_time("", ""), " ()");
}
