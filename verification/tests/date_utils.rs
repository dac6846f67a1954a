use eaa::date_utils::{self, CalendarDate, ExtractedDate};
use eaa::date_extractor;

fn day(y: i32, m: u32, d: u32) -> CalendarDate {
    CalendarDate { year: y, month: m, day: d }
}

fn parsed(v: &str) -> Option<(CalendarDate, String)> {
    date_utils::parse_date(v).map(|e| (e.date_value, e.precision))
}

#[test]
fn parse_eight_digit_number_as_day() {
    assert_eq!(parsed("20260621"), Some((day(2026, 6, 21), "day".to_string())));
    assert_eq!(parsed("  20260621 "), Some((day(2026, 6, 21), "day".to_string())));
}

#[test]
fn parse_six_digit_number_as_month() {
    assert_eq!(parsed("202606"), Some((day(2026, 6, 1), "month".to_string())));
}

#[test]
fn parse_invalid_number_falls_through() {
    assert_eq!(parsed("20261341"), None);
    assert_eq!(parsed("12345"), None);
}

#[test]
fn parse_range_gives_month_of_start() {
    assert_eq!(parsed("2026-06-01~2026-06-30"), Some((day(2026, 6, 1), "month".to_string())));
    assert_eq!(parsed("2026-06-01~2026-06-30~x"), None);
}

#[test]
fn parse_chinese_full_date() {
    assert_eq!(parsed("2026年6月21日"), Some((day(2026, 6, 21), "day".to_string())));
    assert_eq!(parsed("报表2026年06月21日"), Some((day(2026, 6, 21), "day".to_string())));
}

#[test]
fn parse_standard_formats() {
    assert_eq!(parsed("2026-06-21"), Some((day(2026, 6, 21), "day".to_string())));
    assert_eq!(parsed("2026/6/21"), Some((day(2026, 6, 21), "day".to_string())));
}

#[test]
fn parse_month_formats() {
    assert_eq!(parsed("2026-06"), Some((day(2026, 6, 1), "month".to_string())));
    assert_eq!(parsed("2026年6月"), Some((day(2026, 6, 1), "month".to_string())));
}

#[test]
fn parse_rejects_blank_and_garbage() {
    assert_eq!(parsed(""), None);
    assert_eq!(parsed("   "), None);
    assert_eq!(parsed("hello"), None);
    assert_eq!(parsed("2026-02-30"), None);
}

#[test]
fn parse_date_from_cell_is_parse_date() {
    let a = date_utils::parse_date_from_cell("20250101").map(|e| e.date_value);
    assert_eq!(a, Some(day(2025, 1, 1)));
}

#[test]
fn format_date_fills_pattern() {
    let e = ExtractedDate { date_value: day(2026, 6, 7), precision: "day".to_string() };
    assert_eq!(date_utils::format_date(&e, "报表_yyyyMMdd"), "报表_20260607");
    assert_eq!(date_utils::format_date(&e, "yyyy-MM-dd HH:mm:ss"), "2026-06-07 00:00:00");
    assert_eq!(date_utils::format_date(&e, "plain"), "plain");
}

#[test]
fn yesterday_crosses_month_and_year() {
    assert_eq!(date_utils::yesterday_of(day(2026, 3, 1)).date_value, day(2026, 2, 28));
    assert_eq!(date_utils::yesterday_of(day(2024, 3, 1)).date_value, day(2024, 2, 29));
    assert_eq!(date_utils::yesterday_of(day(2026, 1, 1)).date_value, day(2025, 12, 31));
    assert_eq!(date_utils::yesterday_of(day(2026, 6, 21)).precision, "day");
}

#[test]
fn get_yesterday_is_a_day() {
    let y = date_utils::get_yesterday().unwrap();
    assert_eq!(y.precision, "day");
    assert!(y.date_value.year >= 1969);
}

#[test]
fn calendar_checked_when_parsing() {
    assert_eq!(parsed("20240229"), Some((day(2024, 2, 29), "day".to_string())));
    assert_eq!(parsed("20230229"), None);
    assert_eq!(parsed("20231301"), None);
}

#[test]
fn date_order() {
    assert!(date_utils::date_on_or_before(day(2025, 12, 31), day(2026, 1, 1)));
    assert!(date_utils::date_on_or_before(day(2026, 1, 1), day(2026, 1, 1)));
    assert!(!date_utils::date_on_or_before(day(2026, 1, 2), day(2026, 1, 1)));
}

#[test]
fn extract_date_forces_precision() {
    let today = day(2026, 6, 22);
    let e = date_extractor::extract_date_on(today, "交易日期", Some("20260621".to_string()), "month");
    assert_eq!((e.date_value, e.precision.as_str()), (day(2026, 6, 21), "month"));
    let e = date_extractor::extract_date_on(today, "交易日期", Some("2026-06".to_string()), "day");
    assert_eq!((e.date_value, e.precision.as_str()), (day(2026, 6, 1), "day"));
    let e = date_extractor::extract_date_on(today, "交易日期", Some("2026-06".to_string()), "auto");
    assert_eq!((e.date_value, e.precision.as_str()), (day(2026, 6, 1), "month"));
}

#[test]
fn extract_date_falls_back_to_yesterday() {
    let today = day(2026, 6, 22);
    let e = date_extractor::extract_date_on(today, "", Some("20260101".to_string()), "month");
    assert_eq!((e.date_value, e.precision.as_str()), (day(2026, 6, 21), "day"));
    let e = date_extractor::extract_date_on(today, "交易日期", None, "auto");
    assert_eq!(e.date_value, day(2026, 6, 21));
    let e = date_extractor::extract_date_on(today, "交易日期", Some("not a date".to_string()), "auto");
    assert_eq!(e.date_value, day(2026, 6, 21));
}

#[test]
fn today_by_the_clock() {
    let t = date_utils::today().unwrap();
    assert!(t.year >= 1969);
    let e = date_extractor::extract_date("", None, "auto").unwrap();
    assert_eq!(e.precision, "day");
}
