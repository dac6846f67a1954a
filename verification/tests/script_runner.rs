use eaa::script_runner;

#[test]
fn param_folders() {
    assert_eq!(script_runner::parse_param_to_folder("20260621"), "2026-06-21");
    assert_eq!(script_runner::parse_param_to_folder("2026-06-21"), "2026-06-21");
    assert_eq!(script_runner::parse_param_to_folder("202606"), "2026-06");
    assert_eq!(script_runner::parse_param_to_folder("2026-06"), "2026-06");
    assert_eq!(script_runner::parse_param_to_folder("latest"), "late-st");
    assert_eq!(script_runner::parse_param_to_folder("today"), "today");
    assert_eq!(script_runner::parse_param_to_folder("éééé"), "éé-é-é");
}

#[test]
fn output_tail() {
    let short = "hello";
    assert_eq!(script_runner::tail_of_output(short), "hello");
    let long: String = (0..2500).map(|i| if i < 500 { 'a' } else { 'b' }).collect();
    let tail = script_runner::tail_of_output(&long);
    assert_eq!(tail.len(), 2000);
    assert!(tail.chars().all(|c| c == 'b'));
}

#[test]
fn script_results() {
    let missing = script_runner::script_missing("/dc/scripts/a.py");
    assert!(!missing.success);
    assert_eq!(missing.stderr, "脚本文件不存在: /dc/scripts/a.py");
    assert_eq!((missing.stdout.as_str(), missing.returncode), ("", -1));
    let not_started = script_runner::script_not_started("no python");
    assert_eq!((not_started.stderr.as_str(), not_started.returncode, not_started.success), ("no python", -1, false));
    let long = "x".repeat(2500);
    let done = script_runner::script_finished(true, &long, "err", Some(0));
    assert!(done.success);
    assert_eq!(done.stdout.len(), 2000);
    assert_eq!((done.stderr.as_str(), done.returncode), ("err", 0));
    let killed = script_runner::script_finished(false, "", "", None);
    assert_eq!((killed.success, killed.returncode), (false, -1));
}
