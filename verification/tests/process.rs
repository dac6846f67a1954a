use eaa::date_utils::CalendarDate;
use eaa::config::{AppSettings, Config, Rule};
use eaa::logger::Logger;
use eaa::process::{self, FileAction};

fn rule(name: &str, cols: &[&str], auto_archive: bool) -> Rule {
    Rule {
        id: name.to_string(),
        name: name.to_string(),
        feature_columns: cols.iter().map(|c| c.to_string()).collect(),
        feature_row: 1,
        date_column: "交易日期".to_string(),
        force_precision: "auto".to_string(),
        naming_pattern: String::new(),
        auto_archive,
    }
}

fn test_config() -> Config {
    Config {
        data_center: "/data/center".to_string(),
        monitor_folders: Vec::new(),
        rules: vec![
            rule("商家明细", &["商家名称", "交易金额"], true),
            rule("补贴明细", &["补贴类型", "补贴金额"], true),
        ],
        scripts: Vec::new(),
        settings: AppSettings::default(),
    }
}

fn headers_by_name(p: &String, _row: u32) -> Option<(Vec<String>, u32)> {
    let cols: &[&str] = if p.contains("商家明细") {
        &["商家名称", "交易金额", "交易日期"]
    } else if p.contains("补贴明细") {
        &["补贴类型", "补贴金额", "交易日期"]
    } else {
        &["a", "b", "c"]
    };
    Some((cols.iter().map(|c| c.to_string()).collect(), 1))
}

fn date_value(_p: &String, _col: &String) -> Option<String> {
    Some("20260621".to_string())
}

fn made_dir(_p: &String) -> Option<String> {
    None
}

fn copied(_source: &String, _target: &String) -> Option<String> {
    None
}

fn day() -> CalendarDate {
    CalendarDate { year: 2026, month: 6, day: 22 }
}

#[test]
fn test_process_files_command() {
    let file_paths = vec![
        "/Users/zhengnan/Workspace/eaa-tauri/test_data/商家明细_20260607.xlsx".to_string(),
        "/Users/zhengnan/Workspace/eaa-tauri/test_data/商家明细_20260621.xlsx".to_string(),
        "/Users/zhengnan/Workspace/eaa-tauri/test_data/补贴明细_20260621.xlsx".to_string(),
    ];
    let config = test_config();
    let logger = Logger::new("/logs".to_string(), 30);
    let (results, _logs) = process::process_files_sync_pub(
        file_paths,
        &config,
        &logger,
        day(),
        headers_by_name,
        date_value,
        made_dir,
        copied,
    );
    for r in &results {
        println!("  {} -> {} ({})", r.file_name, r.status, r.message);
    }
    assert_eq!(results.len(), 3, "Should have 3 results");
    assert!(results.iter().all(|r| r.success), "All archives should succeed");
}

#[test]
fn process_files_reports_each_outcome() {
    let mut config = test_config();
    config.rules.push(rule("订单详情", &["订单号"], false));
    let logger = Logger::new("/logs".to_string(), 30);
    let file_paths = vec![
        "/in/notes.txt".to_string(),
        "/in/unknown.xlsx".to_string(),
        "/in/订单详情.xls".to_string(),
        "/in/商家明细.xlsx".to_string(),
    ];
    let headers = |p: &String, _row: u32| -> Option<(Vec<String>, u32)> {
        if p.contains("订单详情") {
            Some((vec!["订单号".to_string(), "x".to_string(), "y".to_string()], 1))
        } else if p.contains("商家明细") {
            headers_by_name(p, 1)
        } else {
            None
        }
    };
    let (results, logs) = process::process_files_sync_pub(
        file_paths,
        &config,
        &logger,
        day(),
        headers,
        date_value,
        made_dir,
        copied,
    );
    let statuses: Vec<&str> = results.iter().map(|r| r.status.as_str()).collect();
    assert_eq!(statuses, vec!["skipped", "failed", "skipped", "success"]);
    assert_eq!(results[0].message, "非Excel文件");
    assert_eq!(results[1].message, "无法读取表头");
    assert_eq!(results[2].message, "识别成功但未转存");
    assert_eq!(results[2].date, "2026-06-21");
    assert_eq!(results[2].rule_name, "订单详情");
    assert!(logs[0].is_empty());
    assert_eq!(logs[1], vec!["/in/unknown.xlsx |  |  | 无法读取表头 | 错误".to_string()]);
    assert_eq!(logs[2], vec!["/in/订单详情.xls | 订单详情 | 2026-06-21 | 识别成功但未转存 | ".to_string()]);
    assert_eq!(logs[3].len(), 2);
    assert_eq!(logs[3][1], "数据就绪 | 商家明细 | 2026-06-21 | 商家明细.xlsx");
    assert_eq!(results[3].target_path, "/data/center/sources/2026-06-21/商家明细.xlsx");
    assert_eq!(results[3].file_name, "商家明细.xlsx");
    assert_eq!(results[3].message, "归档成功");
}

#[test]
fn archive_failures_are_reported() {
    let logger = Logger::new("/logs".to_string(), 30);
    let paths = vec!["/in/商家明细.xlsx".to_string()];
    let failing_dir = |p: &String| -> Option<String> {
        if p.ends_with("2026-06-21") { Some("denied".to_string()) } else { None }
    };
    let (r, _) = process::process_files_sync_pub(
        paths.clone(), &test_config(), &logger, day(), headers_by_name, date_value, failing_dir, copied,
    );
    assert_eq!((r[0].success, r[0].status.as_str()), (false, "failed"));
    assert_eq!(r[0].message, "创建目标目录失败: denied");
    let failing_copy = |_s: &String, _t: &String| -> Option<String> { Some("disk full".to_string()) };
    let (r, logs) = process::process_files_sync_pub(
        paths.clone(), &test_config(), &logger, day(), headers_by_name, date_value, made_dir, failing_copy,
    );
    assert_eq!(r[0].message, "复制文件失败: disk full");
    assert_eq!(r[0].date, "2026-06-21");
    assert_eq!(logs[0].len(), 1);
    let mut no_center = test_config();
    no_center.data_center = String::new();
    let (r, _) = process::process_files_sync_pub(
        paths, &no_center, &logger, day(), headers_by_name, date_value, made_dir, copied,
    );
    assert_eq!((r[0].status.as_str(), r[0].message.as_str()), ("failed", "未设置数据中心目录"));
    assert_eq!(r[0].file_name, "商家明细.xlsx");
}

#[test]
fn yesterday_when_no_date_column() {
    let mut config = test_config();
    config.rules[0].date_column = String::new();
    let logger = Logger::new("/logs".to_string(), 30);
    let (r, _) = process::process_files_sync_pub(
        vec!["/in/商家明细.xlsx".to_string()], &config, &logger, day(), headers_by_name, date_value, made_dir, copied,
    );
    assert_eq!(r[0].date, "2026-06-21");
    assert_eq!(r[0].target_path, "/data/center/sources/2026-06-21/商家明细.xlsx");
}

#[test]
fn decide_file_no_rule() {
    let config = test_config();
    let action = process::decide_file(
        "x.xlsx".to_string(),
        true,
        Some(vec!["a".to_string()]),
        &config.rules,
        &config.settings,
    );
    match action {
        FileAction::Report { result, log } => {
            assert_eq!(result.status, "no_rule");
            assert_eq!(result.message, "无匹配规则");
            assert_eq!(log, Some(("无匹配规则".to_string(), "跳过".to_string())));
        }
        _ => panic!("expected a report"),
    }
    let action = process::decide_file(
        "x.xlsx".to_string(),
        true,
        Some(vec!["交易金额".to_string(), "商家名称".to_string()]),
        &config.rules,
        &config.settings,
    );
    assert!(matches!(action, FileAction::Archive { rule_index: 0 }));
}
