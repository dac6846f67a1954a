use eaa::commands;
use eaa::config::{self, AppSettings, Config, MonitorFolder, Rule, Script};

fn rule(id: &str, name: &str) -> Rule {
    Rule {
        id: id.to_string(),
        name: name.to_string(),
        feature_columns: vec!["a".to_string()],
        feature_row: 1,
        date_column: String::new(),
        force_precision: "auto".to_string(),
        naming_pattern: String::new(),
        auto_archive: true,
    }
}

fn script(id: &str, order: u32) -> Script {
    Script {
        id: id.to_string(),
        name: format!("script {}", id),
        script_path: "run.py".to_string(),
        param_type: "day".to_string(),
        order,
    }
}

fn folder(path: &str) -> MonitorFolder {
    MonitorFolder { path: path.to_string(), include_sub: true, scan_interval_min: 30, last_scan_time: String::new() }
}

fn ids(c: &Config) -> Vec<String> {
    c.rules.iter().map(|r| r.id.clone()).collect()
}

#[test]
fn defaults() {
    let c = Config::default();
    assert!(c.data_center.is_empty() && c.rules.is_empty() && c.scripts.is_empty());
    assert!(!c.settings.ignore_case && c.settings.ignore_space);
    assert_eq!(c.settings.log_retention_days, 30);
    assert_eq!(config::default_log_retention(), 30);
    assert_eq!(config::default_scan_interval(), 30);
    assert_eq!(config::default_feature_row(), 1);
    assert_eq!(config::default_force_precision(), "auto");
    assert_eq!(config::default_param_type(), "day");
    assert!(config::default_true() && config::default_ignore_space());
}

#[test]
fn add_rule_gives_fresh_id() {
    let mut c = Config::default();
    let r = commands::add_rule(&mut c, rule("", "r1"));
    assert_eq!(r.id.len(), 36);
    assert_eq!(c.rules.len(), 1);
    assert_eq!(c.rules[0].id, r.id);
    let r2 = commands::add_rule(&mut c, rule("keep", "r2"));
    assert_eq!(r2.id, "keep");
    assert_eq!(ids(&c)[1], "keep");
}

#[test]
fn update_rule_keeps_id() {
    let mut c = Config::default();
    c.rules = vec![rule("a", "first"), rule("b", "second")];
    let r = commands::update_rule(&mut c, "b".to_string(), rule("other", "renamed")).unwrap();
    assert_eq!(r.id, "b");
    assert_eq!(c.rules[1].name, "renamed");
    assert_eq!(c.rules[1].id, "b");
    let e = commands::update_rule(&mut c, "zzz".to_string(), rule("x", "x")).unwrap_err();
    assert_eq!(e, "Rule not found");
}

#[test]
fn delete_rule_removes_all_with_id() {
    let mut c = Config::default();
    c.rules = vec![rule("a", "1"), rule("b", "2"), rule("a", "3")];
    assert!(commands::delete_rule(&mut c, "a".to_string()));
    assert_eq!(ids(&c), vec!["b"]);
    assert!(!commands::delete_rule(&mut c, "a".to_string()));
    assert_eq!(ids(&c), vec!["b"]);
}

#[test]
fn move_rule_up_and_down() {
    let mut c = Config::default();
    c.rules = vec![rule("a", "1"), rule("b", "2"), rule("c", "3")];
    assert!(commands::move_rule(&mut c, "b".to_string(), "up".to_string()));
    assert_eq!(ids(&c), vec!["b", "a", "c"]);
    assert!(!commands::move_rule(&mut c, "b".to_string(), "up".to_string()));
    assert!(commands::move_rule(&mut c, "b".to_string(), "down".to_string()));
    assert_eq!(ids(&c), vec!["a", "b", "c"]);
    assert!(!commands::move_rule(&mut c, "c".to_string(), "down".to_string()));
    assert!(!commands::move_rule(&mut c, "a".to_string(), "sideways".to_string()));
    assert!(!commands::move_rule(&mut c, "none".to_string(), "up".to_string()));
    assert_eq!(ids(&c), vec!["a", "b", "c"]);
}

#[test]
fn scripts_are_ordered() {
    let mut c = Config::default();
    let s1 = commands::add_script(&mut c, script("", 0));
    assert_eq!(s1.order, 1);
    assert_eq!(s1.id.len(), 36);
    let s2 = commands::add_script(&mut c, script("x", 7));
    assert_eq!(s2.order, 7);
    let s3 = commands::add_script(&mut c, script("y", 0));
    assert_eq!(s3.order, 8);
    assert!(commands::move_script(&mut c, "y".to_string(), "up".to_string()));
    assert_eq!(c.scripts[1].id, "y");
    assert!(commands::delete_script(&mut c, "y".to_string()));
    assert_eq!(c.scripts.len(), 2);
    let u = commands::update_script(&mut c, "x".to_string(), script("q", 3)).unwrap();
    assert_eq!((u.id.as_str(), u.order), ("x", 3));
    assert_eq!(commands::update_script(&mut c, "nope".to_string(), script("q", 3)).unwrap_err(), "Script not found");
}

#[test]
fn folder_paths_are_cleaned() {
    assert_eq!(commands::clean_folder_path("  /data/\u{200b}in\u{200c}box\u{200d} "), "/data/inbox");
    let mut c = Config::default();
    let f = commands::add_monitor_folder(&mut c, folder(" /watch\u{200b} "));
    assert_eq!(f.path, "/watch");
    assert_eq!(c.monitor_folders[0].path, "/watch");
    commands::set_data_center(&mut c, "\t/center\u{200d}\n");
    assert_eq!(c.data_center, "/center");
}

#[test]
fn folders_by_index() {
    let mut c = Config::default();
    c.monitor_folders = vec![folder("/a"), folder("/b")];
    let f = commands::update_monitor_folder(&mut c, 1, folder("/c")).unwrap();
    assert_eq!(f.path, "/c");
    assert_eq!(c.monitor_folders[1].path, "/c");
    assert_eq!(commands::update_monitor_folder(&mut c, 2, folder("/d")).unwrap_err(), "Index out of range");
    assert!(commands::delete_monitor_folder(&mut c, 0));
    assert_eq!(c.monitor_folders.len(), 1);
    assert!(!commands::delete_monitor_folder(&mut c, 5));
}

#[test]
fn settings_and_data_center() {
    let mut c = Config::default();
    commands::save_settings(&mut c, AppSettings { ignore_case: true, ignore_space: false, log_retention_days: 7 });
    assert!(c.settings.ignore_case && !c.settings.ignore_space);
    assert_eq!(commands::get_data_center(&c, "/default".to_string()), "/default");
    c.data_center = "/set".to_string();
    assert_eq!(commands::get_data_center(&c, "/default".to_string()), "/set");
}

#[test]
fn excel_header_listing() {
    let (h, r) = commands::load_excel_headers(Some((vec!["a".to_string()], 2)), 1);
    assert_eq!((h, r), (vec!["a".to_string()], 2));
    let (h, r) = commands::load_excel_headers(None, 3);
    assert_eq!((h.len(), r), (0, 3));
}
