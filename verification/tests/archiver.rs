use eaa::archiver;
use eaa::date_utils::{CalendarDate, ExtractedDate};

fn extracted(y: i32, m: u32, d: u32, precision: &str) -> ExtractedDate {
    ExtractedDate { date_value: CalendarDate { year: y, month: m, day: d }, precision: precision.to_string() }
}

#[test]
fn date_folder_names() {
    assert_eq!(archiver::get_date_folder_name(&extracted(2026, 6, 7, "day")), "2026-06-07");
    assert_eq!(archiver::get_date_folder_name(&extracted(2026, 6, 7, "month")), "2026-06");
    assert_eq!(archiver::get_date_folder_name(&extracted(99, 1, 2, "day")), "0099-01-02");
}

#[test]
fn date_labels_follow_chrono() {
    assert_eq!(archiver::date_label(&extracted(2026, 6, 7, "day")), "2026-06-07");
    assert_eq!(archiver::date_label(&extracted(12345, 1, 2, "day")), "+12345-01-02");
    assert_eq!(archiver::date_label(&extracted(-5, 1, 2, "day")), "-0005-01-02");
}

#[test]
fn target_file_names() {
    let e = extracted(2026, 6, 21, "day");
    assert_eq!(
        archiver::target_file_name("商家明细.xlsx", "商家明细", Some("xlsx".to_string()), "", &e),
        "商家明细.xlsx"
    );
    assert_eq!(
        archiver::target_file_name("a.xlsx", "a", Some("xlsx".to_string()), "商家_yyyyMMdd", &e),
        "商家_20260621.xlsx"
    );
    assert_eq!(archiver::target_file_name("a.xlsx", "a", Some("xlsx".to_string()), "   ", &e), "a.xlsx");
    assert_eq!(archiver::target_file_name("noext", "noext", None, "", &e), "noext");
}

#[test]
fn data_center_must_be_set() {
    assert_eq!(archiver::check_data_center(""), Some("未设置数据中心目录".to_string()));
    assert_eq!(archiver::check_data_center("/data"), None);
}

#[test]
fn archive_outcomes() {
    let e = extracted(2026, 6, 21, "day");
    let ok = archiver::copied_result("a.xlsx".to_string(), "r", &e, "/dc/sources/2026-06-21/a.xlsx".to_string(), None);
    assert!(ok.success);
    assert_eq!((ok.status.as_str(), ok.message.as_str(), ok.date.as_str()), ("success", "归档成功", "2026-06-21"));
    assert_eq!(ok.target_path, "/dc/sources/2026-06-21/a.xlsx");
    let failed = archiver::copied_result("a.xlsx".to_string(), "r", &e, "/t".to_string(), Some("denied".to_string()));
    assert!(!failed.success);
    assert_eq!((failed.status.as_str(), failed.message.as_str()), ("failed", "复制文件失败: denied"));
    assert_eq!(failed.date, "2026-06-21");
    let refused = archiver::refused_result("a.xlsx".to_string(), "r", archiver::init_failed("no space"));
    assert!(!refused.success);
    assert_eq!((refused.status.as_str(), refused.message.as_str()), ("failed", "无法创建目录: no space"));
    assert_eq!((refused.date.as_str(), refused.target_path.as_str()), ("", ""));
    assert_eq!(archiver::target_dir_failed("x"), "创建目标目录失败: x");
}

#[test]
fn conflicts_replace_only_smaller_files() {
    assert!(archiver::replaces_existing(10, 11));
    assert!(!archiver::replaces_existing(10, 10));
    assert!(!archiver::replaces_existing(11, 10));
}
