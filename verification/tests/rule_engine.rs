use eaa::config::{AppSettings, Rule};
use eaa::rule_engine;

fn rule_with(cols: &[&str]) -> Rule {
    Rule {
        id: "test".to_string(),
        name: "商家明细".to_string(),
        feature_columns: cols.iter().map(|c| c.to_string()).collect(),
        feature_row: 1,
        date_column: "交易日期".to_string(),
        force_precision: "auto".to_string(),
        naming_pattern: String::new(),
        auto_archive: true,
    }
}

#[test]
fn test_rule_matching() {
    let headers = vec!["商家名称".to_string(), "交易金额".to_string(), "交易日期".to_string()];
    let rule = Rule {
        id: "test".to_string(),
        name: "商家明细".to_string(),
        feature_columns: vec!["商家名称".to_string(), "交易金额".to_string()],
        feature_row: 1,
        date_column: "交易日期".to_string(),
        force_precision: "auto".to_string(),
        naming_pattern: String::new(),
        auto_archive: true,
    };
    let settings = AppSettings::default();
    let result = rule_engine::rule_matches(&rule, &headers, &settings);
    assert!(result, "Rule should match headers");
}

#[test]
fn normalize_column_trims_and_lowers() {
    assert_eq!(rule_engine::normalize_column("  Name ", true, true), "name");
    assert_eq!(rule_engine::normalize_column("  Name ", false, true), "Name");
    assert_eq!(rule_engine::normalize_column("  Name ", true, false), "  name ");
    assert_eq!(rule_engine::normalize_column("  Name ", false, false), "  Name ");
}

#[test]
fn rule_with_missing_column_does_not_match() {
    let headers = vec!["商家名称".to_string()];
    let rule = rule_with(&["商家名称", "交易金额"]);
    assert!(!rule_engine::rule_matches(&rule, &headers, &AppSettings::default()));
}

#[test]
fn match_all_picks_first_matching_rule() {
    let headers = vec![" Order ".to_string(), "Amount".to_string()];
    let rules = vec![rule_with(&["missing"]), rule_with(&["order"]), rule_with(&["amount"])];
    let settings = AppSettings { ignore_case: true, ignore_space: true, log_retention_days: 30 };
    assert_eq!(rule_engine::match_index(&headers, &rules, &settings), Some(1));
    let strict = AppSettings { ignore_case: false, ignore_space: true, log_retention_days: 30 };
    assert_eq!(rule_engine::match_index(&headers, &rules, &strict), None);
    assert!(rule_engine::match_all(&headers, &rules, &strict).is_none());
}

#[test]
fn rule_without_columns_matches_anything() {
    let rule = rule_with(&[]);
    assert!(rule_engine::rule_matches(&rule, &[], &AppSettings::default()));
}

#[test]
fn ascii_names_normalize() {
    assert_eq!(rule_engine::normalize_column(" Order ID ", true, false), " order id ");
    assert_eq!(rule_engine::normalize_column(" Order ID ", true, true), "order id");
    assert_eq!(rule_engine::normalize_column(" 商家 名称 ", false, true), "商家 名称");
    let once = rule_engine::normalize_column(" Order ID ", true, true);
    assert_eq!(rule_engine::normalize_column(&once, true, true), once);
}
