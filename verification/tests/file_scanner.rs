use eaa::config::MonitorFolder;
use eaa::date_utils::CalendarDate;
use eaa::file_scanner::{self, Moment};

fn folder(last: &str) -> MonitorFolder {
    MonitorFolder { path: "/in".to_string(), include_sub: false, scan_interval_min: 30, last_scan_time: last.to_string() }
}

#[test]
fn last_scan_times() {
    let m = file_scanner::last_scan_moment(&folder("2026-06-21T10:20:30"), false).unwrap();
    assert_eq!(m.date, CalendarDate { year: 2026, month: 6, day: 21 });
    assert_eq!((m.hour, m.minute, m.second), (10, 20, 30));
    let m = file_scanner::last_scan_moment(&folder("2026-06-21T10:20:30.5"), false).unwrap();
    assert_eq!(m.nanosecond, 500_000_000);
    assert!(file_scanner::last_scan_moment(&folder("2026-06-21T10:20:30"), true).is_none());
    assert!(file_scanner::last_scan_moment(&folder(""), false).is_none());
    assert!(file_scanner::last_scan_moment(&folder("yesterday"), false).is_none());
}

#[test]
fn new_files() {
    let scan = Moment { date: CalendarDate { year: 2026, month: 6, day: 21 }, hour: 0, minute: 0, second: 0, nanosecond: 0 };
    let before = 1_782_000_000 - 1;
    let after = 1_782_000_000 + 1;
    assert!(file_scanner::should_include(Some(after), Some(scan)));
    assert!(!file_scanner::should_include(Some(before), Some(scan)));
    assert!(!file_scanner::should_include(None, Some(scan)));
    assert!(file_scanner::should_include(None, None));
}

#[test]
fn scan_counts() {
    let mut r = file_scanner::ScanResult::new();
    r.record_file("/in/a.xlsx".to_string(), true);
    r.record_file("/in/b.xlsx".to_string(), false);
    assert_eq!(r.scanned_count, 2);
    assert_eq!(r.files, vec!["/in/a.xlsx".to_string()]);
}

#[test]
fn modified_today() {
    // 2026-06-21T12:00:00Z
    let secs: i64 = 1_782_043_200;
    assert!(file_scanner::is_modified_on(secs, CalendarDate { year: 2026, month: 6, day: 21 }));
    assert!(!file_scanner::is_modified_on(secs, CalendarDate { year: 2026, month: 6, day: 22 }));
    assert!(!file_scanner::is_modified_on(i64::MAX, CalendarDate { year: 2026, month: 6, day: 21 }));
}

#[test]
fn full_scan_takes_everything() {
    let f = folder("2026-06-21T10:00:00");
    let last = file_scanner::last_scan_moment(&f, true);
    assert!(last.is_none());
    assert!(file_scanner::should_include(None, last));
    assert!(file_scanner::should_include(Some(0), last));
}
