use eaa::history_cleaner::MergeStep;
use eaa::date_utils::CalendarDate;
use eaa::history_cleaner;

fn day(y: i32, m: u32, d: u32) -> CalendarDate {
    CalendarDate { year: y, month: m, day: d }
}

#[test]
fn folder_dates() {
    assert_eq!(history_cleaner::parse_folder_date("2026-06-21"), Some(day(2026, 6, 21)));
    assert_eq!(history_cleaner::parse_folder_date("2026-06"), Some(day(2026, 6, 1)));
    assert_eq!(history_cleaner::parse_folder_date("2026-02-30"), None);
    assert_eq!(history_cleaner::parse_folder_date("scripts"), None);
    assert_eq!(history_cleaner::parse_folder_date("2026-06-21-x"), None);
    assert_eq!(history_cleaner::parse_folder_date("2026-x-21"), None);
}

#[test]
fn folders_due() {
    let threshold = history_cleaner::threshold_from(day(2026, 6, 22)).unwrap();
    assert_eq!(threshold, day(2026, 5, 22));
    assert!(history_cleaner::is_folder_due("2026-05-22", threshold));
    assert!(!history_cleaner::is_folder_due("2026-05-23", threshold));
    assert!(history_cleaner::is_folder_due("2026-04", threshold));
    assert!(!history_cleaner::is_folder_due("notes", threshold));
    assert!(history_cleaner::clean_threshold().is_some());
}

#[test]
fn clean_counts() {
    let mut r = history_cleaner::CleanResult::new();
    assert_eq!((r.moved_folders, r.moved_files), (0, 0));
    r.record_moved(3);
    r.record_moved(0);
    assert_eq!((r.moved_folders, r.moved_files), (2, 3));
}

#[test]
fn archived_folder_ages_into_history() {
    let threshold = day(2026, 5, 21);
    assert!(history_cleaner::is_folder_due("2026-05-21", threshold));
    assert!(!history_cleaner::is_folder_due("2026-05-22", threshold));
    assert!(history_cleaner::is_folder_due("2026-05", threshold));
    assert!(!history_cleaner::is_folder_due("2026-06", threshold));
}

#[test]
fn merge_steps() {
    assert_eq!(history_cleaner::merge_step(true, true), MergeStep::Merge);
    assert_eq!(history_cleaner::merge_step(true, false), MergeStep::Move);
    assert_eq!(history_cleaner::merge_step(false, false), MergeStep::Move);
    assert_eq!(history_cleaner::merge_step(false, true), MergeStep::Keep);
}
