use kinda_shell::entry::should_be_in_quotes;
use kinda_shell::mtime::format_time;
use kinda_shell::text::{decimal_text, trim_end};

#[test]
fn decimal_numerals() {
    assert_eq!(decimal_text(0), "0");
    assert_eq!(decimal_text(7), "7");
    assert_eq!(decimal_text(1024), "1024");
    assert_eq!(decimal_text(u64::MAX as u128), "18446744073709551615");
}

#[test]
fn trailing_whitespace_is_trimmed() {
    assert_eq!(trim_end(&"a b \n\t ".to_string()), "a b");
    assert_eq!(trim_end(&"  ".to_string()), "");
    assert_eq!(trim_end(&"x\u{3000}".to_string()), "x");
}

#[test]
fn names_that_need_quotes() {
    assert!(should_be_in_quotes(""));
    assert!(should_be_in_quotes("a b"));
    assert!(should_be_in_quotes("tab\there"));
    assert!(should_be_in_quotes("bell\u{7}"));
    assert!(should_be_in_quotes("it's"));
    assert!(should_be_in_quotes("$HOME"));
    assert!(should_be_in_quotes("a*"));
    assert!(should_be_in_quotes("x\u{a0}y"));
    assert!(!should_be_in_quotes("plain-name_1.txt"));
    assert!(!should_be_in_quotes("\u{e9}t\u{e9}"));
}

#[test]
fn recent_times_show_the_time_of_day() {
    assert_eq!(format_time("UTC", 0, 0).unwrap(), "Jan  1 00:00");
    assert_eq!(format_time("UTC", 1_700_000_000, 1_700_000_100).unwrap(), "Nov 14 22:13");
}

#[test]
fn older_and_future_times_show_the_year() {
    let six_months = 180 * 86400;
    assert_eq!(format_time("UTC", 0, six_months).unwrap(), "Jan  1  1970");
    assert_eq!(format_time("UTC", 0, six_months - 1).unwrap(), "Jan  1 00:00");
    assert_eq!(format_time("UTC", 100, 0).unwrap(), "Jan  1  1970");
}

#[test]
fn times_follow_the_zone() {
    assert_eq!(format_time("Asia/Tokyo", 0, 0).unwrap(), "Jan  1 09:00");
    assert_eq!(format_time("No/Such_Zone", 0, 0).unwrap(), "Jan  1 00:00");
}

#[test]
fn unrepresentable_times_give_none() {
    assert!(format_time("UTC", i64::MAX, 0).is_none());
}
