use eaa::logger::{self, Logger};

fn logger() -> Logger {
    Logger::new("/logs".to_string(), 30)
}

#[test]
fn messages() {
    let l = logger();
    assert_eq!(l.log_dir(), "/logs");
    assert_eq!(l.retention_days(), 30);
    assert_eq!(l.log_file_processed("/a.xlsx", "r", "2026-06-21", "success", "ok"), "/a.xlsx | r | 2026-06-21 | success | ok");
    assert_eq!(l.log_data_ready("r", "2026-06-21", "a.xlsx"), "数据就绪 | r | 2026-06-21 | a.xlsx");
    assert_eq!(l.log_scan("/in", 12), "/in | 扫描完成 | 文件数: 12");
    assert_eq!(l.log_clean(2, 30), "历史清理 | 迁移文件夹: 2 | 文件: 30");
    assert_eq!(l.format_log_line("10:00:00", "INFO", "hello"), "[10:00:00] [INFO] hello\n");
}

#[test]
fn parse_log_lines() {
    let l = logger();
    let e = l.parse_log_line("[10:00:00] [INFO] /a.xlsx | r | d | success | ok").unwrap();
    assert_eq!((e.timestamp.as_str(), e.level.as_str()), ("10:00:00", "[INFO"));
    assert_eq!((e.file_path.as_str(), e.detail.as_str()), ("/a.xlsx", "r | d | success | ok"));
    let e = l.parse_log_line("[10:00:00] [INFO] no separator").unwrap();
    assert_eq!((e.file_path.as_str(), e.detail.as_str()), ("no separator", "no separator"));
    let e = l.parse_log_line("garbage] only one").unwrap();
    assert_eq!((e.timestamp.as_str(), e.level.as_str(), e.file_path.as_str()), ("", "", ""));
    assert_eq!(e.detail, "garbage] only one");
}

#[test]
fn read_entries_with_search() {
    let l = logger();
    let content = "[1] [INFO] /a | x\r\n[2] [INFO] /B | y\n\n[3] [INFO] /c | z\n";
    let all = l.read_log_entries(content, "");
    assert_eq!(all.len(), 4);
    assert_eq!(all[0].detail, "x");
    assert_eq!(all[2].detail, "");
    let found = l.read_log_entries(content, "/b");
    assert_eq!(found.len(), 1);
    assert_eq!(found[0].timestamp, "2");
}

#[test]
fn latest_logs_newest_first() {
    let l = logger();
    let mut entries = Vec::new();
    for i in 0..60 {
        entries.push(l.parse_log_line(&format!("[{}] [INFO] x", i)).unwrap());
    }
    let latest = logger::latest_logs(entries);
    assert_eq!(latest.len(), 50);
    assert_eq!(latest[0].timestamp, "59");
    assert_eq!(latest[49].timestamp, "10");
}

#[test]
fn log_file_names() {
    assert!(logger::is_log_file_name("app_2026-06-21.log"));
    assert!(!logger::is_log_file_name("app_2026-06-21.txt"));
    assert!(!logger::is_log_file_name("other.log"));
    assert!(!logger::is_log_file_name("app"));
}

#[test]
fn trimming_keeps_last_lines() {
    let mut lines = Vec::new();
    logger::collect_log_lines("  a \n\n b\n   \n", &mut lines);
    assert_eq!(lines, vec!["a".to_string(), "b".to_string()]);
    assert_eq!(logger::lines_to_keep(lines), None);
    let many: Vec<String> = (0..150).map(|i| i.to_string()).collect();
    let kept = logger::lines_to_keep(many).unwrap();
    assert_eq!(kept.len(), 100);
    assert_eq!(kept[0], "50");
    assert_eq!(kept[99], "149");
}

#[test]
fn data_ready_status() {
    let l = logger();
    let rules = vec!["商家明细".to_string(), "Subsidy".to_string(), "缺失".to_string()];
    let files = Some(vec!["x.txt".to_string(), "商家明细_20260621.xlsx".to_string(), "subsidy.xlsx".to_string()]);
    let status = l.get_data_ready_status("2026-06-21", &rules, files);
    assert_eq!(status.len(), 3);
    assert!(status[0].is_ready);
    assert_eq!(status[0].file_name.as_deref(), Some("商家明细_20260621.xlsx"));
    assert!(status[1].is_ready);
    assert_eq!(status[1].file_name.as_deref(), Some("subsidy.xlsx"));
    assert!(!status[2].is_ready);
    assert_eq!(status[2].file_name, None);
    assert_eq!(status[2].date, "2026-06-21");
    let none = l.get_data_ready_status("2026-06-21", &rules, None);
    assert!(none.iter().all(|s| !s.is_ready));
}

#[test]
fn written_line_reads_back() {
    let l = logger();
    let msg = l.log_file_processed("/in/a.xlsx", "r", "2026-06-21", "success", "归档成功");
    let line = l.format_log_line("10:00:00", "INFO", &msg);
    let entries = l.read_log_entries(&line, "");
    assert_eq!(entries.len(), 1);
    assert_eq!(entries[0].timestamp, "10:00:00");
    assert_eq!(entries[0].level, "[INFO");
    assert_eq!(entries[0].file_path, "/in/a.xlsx");
    assert_eq!(entries[0].detail, "r | 2026-06-21 | success | 归档成功");
}

#[test]
fn expired_log_files() {
    let threshold = eaa::date_utils::CalendarDate { year: 2026, month: 5, day: 22 };
    assert!(logger::is_expired_log("app_2026-05-21.log", threshold));
    assert!(!logger::is_expired_log("app_2026-05-22.log", threshold));
    assert!(!logger::is_expired_log("app_notadate.log", threshold));
    assert!(!logger::is_expired_log("other_2026-05-01.log", threshold));
    assert_eq!(logger::log_file_name("2026-06-21"), "app_2026-06-21.log");
    assert!(logger::is_log_file_name(&logger::log_file_name("2026-06-21")));
}

#[test]
fn retention_threshold() {
    let l = logger();
    let t = l.retention_threshold(eaa::date_utils::CalendarDate { year: 2026, month: 6, day: 21 });
    assert_eq!(t, Some(eaa::date_utils::CalendarDate { year: 2026, month: 5, day: 22 }));
    assert!(l.current_retention_threshold().is_some());
}

#[test]
fn default_log_dir_beside_executable() {
    let d = Logger::get_default_log_dir("/opt/eaa/eaa-tauri");
    assert_eq!(d, "/opt/eaa/logs");
}

#[test]
fn written_line_with_empty_note_reads_back() {
    let l = logger();
    let msg = l.log_file_processed("/in/a.xlsx", "r", "2026-06-21", "识别成功但未转存", "");
    let line = l.format_log_line("10:00:00", "INFO", &msg);
    let entries = l.read_log_entries(&line, "");
    assert_eq!(entries.len(), 1);
    assert_eq!(entries[0].file_path, "/in/a.xlsx");
    assert_eq!(entries[0].detail, "r | 2026-06-21 | 识别成功但未转存 |");
}

fn log_text(lines: std::ops::Range<usize>) -> String {
    lines.map(|i| format!("[10:00:00] [INFO] line {}\n", i)).collect()
}

#[test]
fn trim_keeps_newest_lines() {
    let files = vec![
        ("app_2026-06-20.log".to_string(), log_text(0..60)),
        ("notes.txt".to_string(), "x\ny\n".to_string()),
        ("app_2026-06-21.log".to_string(), log_text(60..130)),
    ];
    let plan = logger::plan_log_trim(&files, "2026-06-21").unwrap();
    assert_eq!(plan.remove, vec!["app_2026-06-20.log".to_string(), "app_2026-06-21.log".to_string()]);
    assert_eq!(plan.file_name, "app_2026-06-21.log");
    let kept: Vec<&str> = plan.content.lines().collect();
    assert_eq!(kept.len(), 100);
    assert_eq!(kept[0], "[10:00:00] [INFO] line 30");
    assert_eq!(kept[99], "[10:00:00] [INFO] line 129");
    let small = vec![("app_2026-06-21.log".to_string(), log_text(0..100))];
    assert!(logger::plan_log_trim(&small, "2026-06-21").is_none());
}

#[test]
fn listing_shows_newest_first() {
    let l = logger();
    let files = vec![
        ("app_2026-06-20.log".to_string(), log_text(0..3)),
        ("app_2026-06-21.log".to_string(), l.format_log_line("11:00:00", "INFO", &l.log_scan("/in", 2))),
    ];
    let listed = l.list_log_entries(&files, "");
    assert_eq!(listed.len(), 4);
    assert_eq!(listed[0].timestamp, "11:00:00");
    assert_eq!(listed[0].file_path, "/in");
    assert_eq!(listed[3].detail, "line 0");
    let many = vec![("app_2026-06-21.log".to_string(), log_text(0..70))];
    assert_eq!(l.list_log_entries(&many, "").len(), 50);
}
