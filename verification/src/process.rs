//! The decisions taken for each file handed to the archiver.

use vstd::prelude::*;
use crate::archiver::{
    ArchiveResult, ArchiveView, ArchivePlan, iso_date, date_label, archive_plan, archive_result,
    archive_outcome, plan_fits, refused_view, no_data_center_message, opt_string_view,
    copied_view, init_failed_message, target_dir_failed_message,
};
use crate::config::{AppSettings, Config, Rule, rule_views, string_views};
use crate::date_extractor::{extract_date_on, extracted_date, raw_view};
use crate::date_utils::{CalendarDate, ExtractedDate, ExtractedView, valid, first_date};
use crate::logger::{Logger, file_processed_message, data_ready_message};
use crate::reader::{
    is_excel_ext, is_excel_extension, file_name_of, path_file_name, path_extension, plain_extension,
    plain_path,
};
use crate::text::contains_seq;
use crate::rule_engine::{is_first_fit, rule_fits, match_index};
use crate::text::string_seq_views;

verus! {

/// What happens next to a file.
pub enum FileAction {
    /// The file is done with this result; when `log` holds a result text and
    /// a note, the file is recorded in the log as processed with them.
    Report { result: ArchiveResult, log: Option<(String, String)> },
    /// The rule at this position recognises the file but does not archive:
    /// its date is read and reported.
    ExtractOnly { rule_index: usize },
    /// The rule at this position recognises the file and archives it.
    Archive { rule_index: usize },
}

/// A result that carries no rule, date or target.
pub open spec fn plain_result(file_name: Seq<char>, status: Seq<char>, message: Seq<char>) -> ArchiveView {
    ArchiveView {
        success: false,
        file_name: file_name,
        rule_name: Seq::<char>::empty(),
        date: Seq::<char>::empty(),
        target_path: Seq::<char>::empty(),
        status: status,
        message: message,
    }
}

fn plain(file_name: String, status: &str, message: &str) -> (res: ArchiveResult)
    ensures
        res@ == plain_result(file_name@, status@, message@),
{
    ArchiveResult {
        success: false,
        file_name: file_name,
        rule_name: String::new(),
        date: String::new(),
        target_path: String::new(),
        status: String::from_str(status),
        message: String::from_str(message),
    }
}

/// The log fields of an action, as characters.
pub open spec fn log_view(log: Option<(String, String)>) -> Option<(Seq<char>, Seq<char>)> {
    match log {
        Some((r, n)) => Some((r@, n@)),
        None => None,
    }
}

/// Decides what happens to a file, given its name, whether its extension
/// is a spreadsheet's, and the headers read from it (read only for a
/// spreadsheet; `None` when they could not be read): a file that is not a
/// spreadsheet is skipped; one without headers fails; one no rule
/// recognises has no rule; otherwise the first rule that recognises it
/// decides whether it is archived or only has its date read.
pub fn decide_file(
    file_name: String,
    is_excel: bool,
    headers: Option<Vec<String>>,
    rules: &[Rule],
    settings: &AppSettings,
) -> (res: FileAction)
    ensures
        !is_excel ==> (res matches FileAction::Report { result, log } && result@ == plain_result(
            file_name@,
            "skipped"@,
            "非Excel文件"@,
        ) && log is None),
        is_excel && (headers matches Some(h) ==> h@.len() == 0) ==> (res matches FileAction::Report {
            result,
            log,
        } && result@ == plain_result(file_name@, "failed"@, "无法读取表头"@) && log_view(log) == Some(
            ("无法读取表头"@, "错误"@),
        )),
        is_excel && (headers matches Some(h) && h@.len() > 0) ==> ({
            let hv = string_views(headers.unwrap()@);
            &&& (forall|i: int| 0 <= i < rules@.len() ==> !rule_fits(#[trigger] rules@[i]@, hv, *settings))
                ==> (res matches FileAction::Report { result, log } && result@ == plain_result(
                file_name@,
                "no_rule"@,
                "无匹配规则"@,
            ) && log_view(log) == Some(("无匹配规则"@, "跳过"@)))
            &&& res matches FileAction::ExtractOnly { rule_index } ==> is_first_fit(rule_views(rules@), hv, *settings, rule_index as int)
                && !rules@[rule_index as int].auto_archive
            &&& res matches FileAction::Archive { rule_index } ==> is_first_fit(rule_views(rules@), hv, *settings, rule_index as int)
                && rules@[rule_index as int].auto_archive
            &&& res is Report ==> forall|i: int| 0 <= i < rules@.len() ==> !rule_fits(#[trigger] rules@[i]@, hv, *settings)
        }),
{
    if !is_excel {
        return FileAction::Report { result: plain(file_name, "skipped", "非Excel文件"), log: None };
    }
    let headers = match headers {
        Some(h) => {
            if h.len() == 0 {
                return FileAction::Report {
                    result: plain(file_name, "failed", "无法读取表头"),
                    log: Some((String::from_str("无法读取表头"), String::from_str("错误"))),
                };
            }
            h
        },
        None => {
            return FileAction::Report {
                result: plain(file_name, "failed", "无法读取表头"),
                log: Some((String::from_str("无法读取表头"), String::from_str("错误"))),
            };
        },
    };
    match match_index(headers.as_slice(), rules, settings) {
        None => FileAction::Report {
            result: plain(file_name, "no_rule", "无匹配规则"),
            log: Some((String::from_str("无匹配规则"), String::from_str("跳过"))),
        },
        Some(i) => {
            if rules[i].auto_archive {
                FileAction::Archive { rule_index: i }
            } else {
                FileAction::ExtractOnly { rule_index: i }
            }
        },
    }
}

/// The result reported for a file whose rule recognises it without
/// archiving it: its date, and "识别成功但未转存".
pub fn not_archived_result(file_name: String, rule_name: &str, extracted: &ExtractedDate) -> (res: ArchiveResult)
    requires
        valid(extracted.date_value),
    ensures
        res@ == (ArchiveView {
            success: false,
            file_name: file_name@,
            rule_name: rule_name@,
            date: iso_date(extracted.date_value),
            target_path: Seq::<char>::empty(),
            status: "skipped"@,
            message: "识别成功但未转存"@,
        }),
{
    ArchiveResult {
        success: false,
        file_name: file_name,
        rule_name: String::from_str(rule_name),
        date: date_label(extracted),
        target_path: String::new(),
        status: String::from_str("skipped"),
        message: String::from_str("识别成功但未转存"),
    }
}

// ----- a batch of files -----

/// Whether an extension marks a spreadsheet.
pub open spec fn excel_ext_opt(ext: Option<String>) -> bool {
    match ext {
        Some(e) => is_excel_ext(e@),
        None => false,
    }
}

/// The headers of a header read, none when it failed.
pub open spec fn header_views(headers: Option<(Vec<String>, u32)>) -> Seq<Seq<char>> {
    match headers {
        Some((h, _)) => string_views(h@),
        None => Seq::<Seq<char>>::empty(),
    }
}

/// The log message of a processed file, with the fields of its result.
pub open spec fn processed_message(path: Seq<char>, r: ArchiveView) -> Seq<char> {
    file_processed_message(path, r.rule_name, r.date, r.status, r.message)
}

/// `raw` is the value read from a file's date column under a rule: none
/// when the rule names no date column, else what the reader gave.
pub open spec fn value_read<D: Fn(&String, &String) -> Option<String>>(
    path: String,
    rule: Rule,
    read_date_value: D,
    raw: Option<String>,
) -> bool {
    ||| rule.date_column@.len() == 0 && raw is None
    ||| rule.date_column@.len() > 0 && call_ensures(read_date_value, (&path, &rule.date_column), raw)
}

/// `ext` is what the extension of `path` can be: it holds no `.` and comes
/// after a `.` in the path, and for a path every platform splits the same
/// way it is the file name's extension.
pub open spec fn extension_of(path: Seq<char>, ext: Option<String>) -> bool {
    &&& (ext matches Some(e) ==> !e@.contains('.') && contains_seq(path, "."@ + e@))
    &&& (plain_path(path) ==> raw_view(ext) == plain_extension(path))
}

/// The first error of the three folder steps, none when all succeeded.
pub open spec fn first_error(e1: Option<String>, e2: Option<String>, e3: Option<String>) -> Option<String> {
    if e1 is Some {
        e1
    } else if e2 is Some {
        e2
    } else {
        e3
    }
}

/// The file steps of archiving by a plan went as `create_dir` and
/// `place_copy` report: the data center's "sources", "history" and "output"
/// folders are created in turn until one fails (errors `e1`, `e2`, `e3`),
/// then, when none failed, the date's folder (`d`), then, when that did
/// not fail either, the file is copied to the plan's target path (`c`);
/// a step not taken reports nothing.
pub open spec fn steps_done<M: Fn(&String) -> Option<String>, C: Fn(&String, &String) -> Option<String>>(
    path: String,
    plan: ArchivePlan,
    create_dir: M,
    place_copy: C,
    e1: Option<String>,
    e2: Option<String>,
    e3: Option<String>,
    d: Option<String>,
    c: Option<String>,
) -> bool {
    &&& call_ensures(create_dir, (&plan.sources_dir,), e1)
    &&& (e1 is None ==> call_ensures(create_dir, (&plan.history_dir,), e2))
    &&& (e1 is Some ==> e2 is None)
    &&& (e1 is None && e2 is None ==> call_ensures(create_dir, (&plan.output_dir,), e3))
    &&& (e1 is Some || e2 is Some ==> e3 is None)
    &&& (first_error(e1, e2, e3) is None ==> call_ensures(create_dir, (&plan.target_dir,), d))
    &&& (first_error(e1, e2, e3) is Some ==> d is None)
    &&& (first_error(e1, e2, e3) is None && d is None ==> call_ensures(place_copy, (&path, &plan.target_path), c))
    &&& (first_error(e1, e2, e3) is Some || d is Some ==> c is None)
}

/// The result of archiving a file under a rule, given the data center,
/// today's date and the value read from the rule's date column: refused
/// when no data center is set; otherwise the outcome of the plan for the
/// file, for what the file steps reported.
pub open spec fn archived<M: Fn(&String) -> Option<String>, C: Fn(&String, &String) -> Option<String>>(
    path: String,
    rule: Rule,
    data_center: Seq<char>,
    today: CalendarDate,
    raw: Option<String>,
    create_dir: M,
    place_copy: C,
    result: ArchiveResult,
) -> bool {
    if data_center.len() == 0 {
        file_name_of(path@, result.file_name@) && result@ == refused_view(
            result.file_name@,
            rule.name@,
            no_data_center_message(),
        )
    } else {
        exists|plan: ArchivePlan, e1: Option<String>, e2: Option<String>, e3: Option<String>, d: Option<String>, c: Option<String>|
            #![trigger steps_done(path, plan, create_dir, place_copy, e1, e2, e3, d, c)]
            plan_fits(
                path@,
                rule.date_column@,
                rule.force_precision@,
                rule.naming_pattern@,
                data_center,
                today,
                raw_view(raw),
                plan,
            ) && steps_done(path, plan, create_dir, place_copy, e1, e2, e3, d, c) && result@ == archive_outcome(
                plan,
                rule.name@,
                raw_view(first_error(e1, e2, e3)),
                raw_view(d),
                raw_view(c),
            )
    }
}

/// How one file was handled on a given day, given its file name and
/// extension, the headers read from it (read only for a spreadsheet), the
/// result reported and the log messages written for it.
pub open spec fn handled_with<
    D: Fn(&String, &String) -> Option<String>,
    M: Fn(&String) -> Option<String>,
    C: Fn(&String, &String) -> Option<String>,
>(
    path: String,
    config: Config,
    today: CalendarDate,
    read_date_value: D,
    create_dir: M,
    place_copy: C,
    result: ArchiveResult,
    logs: Seq<Seq<char>>,
    name: String,
    ext: Option<String>,
    headers: Option<(Vec<String>, u32)>,
) -> bool {
    let hv = header_views(headers);
    if !excel_ext_opt(ext) {
        result@ == plain_result(name@, "skipped"@, "非Excel文件"@) && logs == Seq::<Seq<char>>::empty()
    } else if hv.len() == 0 {
        result@ == plain_result(name@, "failed"@, "无法读取表头"@) && logs == seq![
            file_processed_message(path@, ""@, ""@, "无法读取表头"@, "错误"@),
        ]
    } else if forall|k: int| 0 <= k < config.rules@.len() ==> !rule_fits(#[trigger] config.rules@[k]@, hv, config.settings) {
        result@ == plain_result(name@, "no_rule"@, "无匹配规则"@) && logs == seq![
            file_processed_message(path@, ""@, ""@, "无匹配规则"@, "跳过"@),
        ]
    } else {
        exists|k: int, raw: Option<String>|
            #![trigger config.rules@[k], value_read(path, config.rules@[k], read_date_value, raw)]
            is_first_fit(rule_views(config.rules@), hv, config.settings, k) && value_read(
                path,
                config.rules@[k],
                read_date_value,
                raw,
            ) && {
                let rule = config.rules@[k];
                let e = extracted_date(today, rule.date_column@, raw_view(raw), rule.force_precision@);
                if !rule.auto_archive {
                    result@ == (ArchiveView {
                        success: false,
                        file_name: name@,
                        rule_name: rule.name@,
                        date: iso_date(e.date),
                        target_path: Seq::<char>::empty(),
                        status: "skipped"@,
                        message: "识别成功但未转存"@,
                    }) && logs == seq![
                        file_processed_message(path@, rule.name@, iso_date(e.date), "识别成功但未转存"@, ""@),
                    ]
                } else {
                    archived(path, rule, config.data_center@, today, raw, create_dir, place_copy, result) && logs == (if result.success {
                        seq![
                            processed_message(path@, result@),
                            data_ready_message(result.rule_name@, result.date@, result.file_name@),
                        ]
                    } else {
                        seq![processed_message(path@, result@)]
                    })
                }
            }
    }
}

/// One file was handled on a given day: its file name and extension are
/// what the path gives, its headers what `read_headers` gave for the first
/// row.
pub open spec fn handled<
    H: Fn(&String, u32) -> Option<(Vec<String>, u32)>,
    D: Fn(&String, &String) -> Option<String>,
    M: Fn(&String) -> Option<String>,
    C: Fn(&String, &String) -> Option<String>,
>(
    path: String,
    config: Config,
    today: CalendarDate,
    read_headers: H,
    read_date_value: D,
    create_dir: M,
    place_copy: C,
    result: ArchiveResult,
    logs: Seq<Seq<char>>,
) -> bool {
    exists|name: String, ext: Option<String>, headers: Option<(Vec<String>, u32)>|
        #![trigger handled_with(path, config, today, read_date_value, create_dir, place_copy, result, logs, name, ext, headers)]
        {
            &&& file_name_of(path@, name@)
            &&& extension_of(path@, ext)
            &&& excel_ext_opt(ext) ==> call_ensures(read_headers, (&path, 1u32), headers)
            &&& handled_with(path, config, today, read_date_value, create_dir, place_copy, result, logs, name, ext, headers)
        }
}

/// What every result says of itself: the file name is the path's, the
/// status is one of "skipped", "failed", "no_rule" and "success", the file
/// counts as archived exactly when the status is "success", and then the
/// message is "归档成功" and the target path is not empty.
pub open spec fn result_shape(path: Seq<char>, r: ArchiveView) -> bool {
    &&& file_name_of(path, r.file_name)
    &&& (r.status == "skipped"@ || r.status == "failed"@ || r.status == "no_rule"@ || r.status == "success"@)
    &&& (r.success <==> r.status == "success"@)
    &&& (r.success ==> r.message == "归档成功"@ && r.target_path.len() > 0)
}

/// The four statuses differ from one another.
proof fn lemma_statuses_differ()
    ensures
        "skipped"@ != "success"@,
        "failed"@ != "success"@,
        "no_rule"@ != "success"@,
{
    reveal_strlit("skipped");
    reveal_strlit("success");
    reveal_strlit("failed");
    reveal_strlit("no_rule");
    assert("skipped"@[1] != "success"@[1]);
    assert("failed"@.len() != "success"@.len());
    assert("no_rule"@[0] != "success"@[0]);
}

/// An archive outcome has the shape of every result.
proof fn lemma_outcome_shape(path: Seq<char>, plan: ArchivePlan, rule_name: Seq<char>, i: Option<Seq<char>>, d: Option<Seq<char>>, c: Option<Seq<char>>)
    requires
        file_name_of(path, plan.file_name@),
        plan.target_path@.len() > 0,
    ensures
        result_shape(path, archive_outcome(plan, rule_name, i, d, c)),
{
    lemma_statuses_differ();
}

/// Handles a batch of files in order on a given day, with the file
/// operations given as functions: `read_headers` gives a spreadsheet's
/// headers from a row on, `read_date_value` the first value of a named
/// column, `create_dir` creates a folder with its parents (its error text
/// when that fails), `place_copy` copies a file to a target path, making
/// room at the target (its error text when that fails). Gives each file's
/// result and the log messages written for it: a file that is not a
/// spreadsheet is skipped; one whose headers cannot be read fails; one no
/// rule recognises has no rule; a file the first recognising rule does not
/// archive gets its date read; any other is archived by its plan.
pub fn process_files_sync_pub<H, D, M, C>(
    file_paths: Vec<String>,
    config: &Config,
    logger: &Logger,
    today: CalendarDate,
    read_headers: H,
    read_date_value: D,
    create_dir: M,
    place_copy: C,
) -> (res: (Vec<ArchiveResult>, Vec<Vec<String>>))
    where
        H: Fn(&String, u32) -> Option<(Vec<String>, u32)>,
        D: Fn(&String, &String) -> Option<String>,
        M: Fn(&String) -> Option<String>,
        C: Fn(&String, &String) -> Option<String>,
    requires
        valid(today),
        today != first_date(),
        forall|p: &String, row: u32| #[trigger] read_headers.requires((p, row)),
        forall|p: &String, c: &String| #[trigger] read_date_value.requires((p, c)),
        forall|p: &String| #[trigger] create_dir.requires((p,)),
        forall|p: &String, t: &String| #[trigger] place_copy.requires((p, t)),
    ensures
        res.0@.len() == file_paths@.len(),
        res.1@.len() == file_paths@.len(),
        forall|i: int|
            0 <= i < file_paths@.len() ==> handled(
                #[trigger] file_paths@[i],
                *config,
                today,
                read_headers,
                read_date_value,
                create_dir,
                place_copy,
                res.0@[i],
                string_seq_views(res.1@[i]@),
            ),
        forall|i: int| 0 <= i < file_paths@.len() ==> result_shape(file_paths@[i]@, #[trigger] res.0@[i]@),
{
    let n = file_paths.len();
    let mut results: Vec<ArchiveResult> = Vec::new();
    let mut logs: Vec<Vec<String>> = Vec::new();
    let mut i: usize = 0;
    while i < n
        invariant
            n == file_paths@.len(),
            i <= n,
            results@.len() == i,
            logs@.len() == i,
            valid(today),
            today != first_date(),
            forall|p: &String, row: u32| #[trigger] read_headers.requires((p, row)),
            forall|p: &String, c: &String| #[trigger] read_date_value.requires((p, c)),
            forall|p: &String| #[trigger] create_dir.requires((p,)),
            forall|p: &String, t: &String| #[trigger] place_copy.requires((p, t)),
            forall|j: int|
                0 <= j < i ==> handled(
                    #[trigger] file_paths@[j],
                    *config,
                    today,
                    read_headers,
                    read_date_value,
                    create_dir,
                    place_copy,
                    results@[j],
                    string_seq_views(logs@[j]@),
                ),
            forall|j: int| 0 <= j < i ==> result_shape(file_paths@[j]@, #[trigger] results@[j]@),
        decreases n - i,
    {
        let path = &file_paths[i];
        let name = path_file_name(path.as_str());
        let ext = path_extension(path.as_str());
        let is_excel = match &ext {
            Some(e) => is_excel_extension(Some(e.as_str())),
            None => false,
        };
        let headers: Option<(Vec<String>, u32)> = if is_excel {
            read_headers(path, 1)
        } else {
            None
        };
        let ghost name_g = name;
        let ghost ext_g = ext;
        let ghost headers_g = headers;
        proof {
            lemma_statuses_differ();
            reveal_strlit("skipped");
            reveal_strlit("failed");
            reveal_strlit("no_rule");
        }
        let header_list = match headers {
            Some((h, _)) => Some(h),
            None => None,
        };
        let name_copy = name.clone();
        let mut file_logs: Vec<String> = Vec::new();
        let action = decide_file(name, is_excel, header_list, config.rules.as_slice(), &config.settings);
        let result = match action {
            FileAction::Report { result, log } => {
                match log {
                    Some((r, note)) => {
                        file_logs.push(logger.log_file_processed(path.as_str(), "", "", r.as_str(), note.as_str()));
                    },
                    None => {},
                }
                proof {
                    if log is Some {
                        assert(string_seq_views(file_logs@) =~= seq![file_processed_message(path@, ""@, ""@, log_view(log).unwrap().0, log_view(log).unwrap().1)]);
                    } else {
                        assert(string_seq_views(file_logs@) =~= Seq::<Seq<char>>::empty());
                    }
                    assert(handled_with(*path, *config, today, read_date_value, create_dir, place_copy, result, string_seq_views(file_logs@), name_g, ext_g, headers_g));
                }
                result
            },
            FileAction::ExtractOnly { rule_index } => {
                let rule = &config.rules[rule_index];
                if rule.feature_row > 1 {
                    let _ = read_headers(path, rule.feature_row);
                }
                let raw = if rule.date_column.as_str().is_empty() {
                    None
                } else {
                    read_date_value(path, &rule.date_column)
                };
                let ghost raw_g = raw;
                let extracted = extract_date_on(today, rule.date_column.as_str(), raw, rule.force_precision.as_str());
                let date_str = date_label(&extracted);
                file_logs.push(logger.log_file_processed(path.as_str(), rule.name.as_str(), date_str.as_str(), "识别成功但未转存", ""));
                let r = not_archived_result(name_copy, rule.name.as_str(), &extracted);
                proof {
                    assert(value_read(*path, *rule, read_date_value, raw_g));
                    assert(string_seq_views(file_logs@) =~= seq![
                        file_processed_message(path@, rule.name@, iso_date(extracted.date_value), "识别成功但未转存"@, ""@),
                    ]);
                    assert(handled_with(*path, *config, today, read_date_value, create_dir, place_copy, r, string_seq_views(file_logs@), name_g, ext_g, headers_g));
                }
                r
            },
            FileAction::Archive { rule_index } => {
                let rule = &config.rules[rule_index];
                if rule.feature_row > 1 {
                    let _ = read_headers(path, rule.feature_row);
                }
                let raw = if rule.date_column.as_str().is_empty() {
                    None
                } else {
                    read_date_value(path, &rule.date_column)
                };
                let ghost raw_g = raw;
                let r = match archive_plan(path.as_str(), rule, config, today, raw) {
                    Err(r) => {
                        proof {
                            reveal_strlit("未设置数据中心目录");
                        }
                        r
                    },
                    Ok(plan) => {
                        let e1 = create_dir(&plan.sources_dir);
                        let e2 = if e1.is_none() {
                            create_dir(&plan.history_dir)
                        } else {
                            None
                        };
                        let e3 = if e1.is_none() && e2.is_none() {
                            create_dir(&plan.output_dir)
                        } else {
                            None
                        };
                        let ghost (g1, g2, g3) = (e1, e2, e3);
                        let init_error = if e1.is_some() {
                            e1
                        } else if e2.is_some() {
                            e2
                        } else {
                            e3
                        };
                        let dir_error = if init_error.is_none() {
                            create_dir(&plan.target_dir)
                        } else {
                            None
                        };
                        let copy_error = if init_error.is_none() && dir_error.is_none() {
                            place_copy(path, &plan.target_path)
                        } else {
                            None
                        };
                        let ghost (gi, gd, gc) = (opt_string_view(init_error), opt_string_view(dir_error), opt_string_view(copy_error));
                        proof {
                            assert(init_error == first_error(g1, g2, g3));
                            assert(steps_done(*path, plan, create_dir, place_copy, g1, g2, g3, dir_error, copy_error));
                        }
                        let r = archive_result(&plan, rule.name.as_str(), init_error, dir_error, copy_error);
                        proof {
                            assert(raw_view(raw_g) == opt_string_view(raw_g));
                            lemma_outcome_shape(path@, plan, rule.name@, gi, gd, gc);
                        }
                        r
                    },
                };
                let m = logger.log_file_processed(path.as_str(), r.rule_name.as_str(), r.date.as_str(), r.status.as_str(), r.message.as_str());
                file_logs.push(m);
                if r.success {
                    file_logs.push(logger.log_data_ready(r.rule_name.as_str(), r.date.as_str(), r.file_name.as_str()));
                }
                proof {
                    if r.success {
                        assert(string_seq_views(file_logs@) =~= seq![
                            processed_message(path@, r@),
                            data_ready_message(r.rule_name@, r.date@, r.file_name@),
                        ]);
                    } else {
                        assert(string_seq_views(file_logs@) =~= seq![processed_message(path@, r@)]);
                    }
                    assert(value_read(*path, *rule, read_date_value, raw_g));
                    assert(archived(*path, *rule, config.data_center@, today, raw_g, create_dir, place_copy, r));
                    assert(is_first_fit(rule_views(config.rules@), header_views(headers_g), config.settings, rule_index as int));
                    assert(handled_with(*path, *config, today, read_date_value, create_dir, place_copy, r, string_seq_views(file_logs@), name_g, ext_g, headers_g));
                }
                r
            },
        };
        proof {
            assert(handled(*path, *config, today, read_headers, read_date_value, create_dir, place_copy, result, string_seq_views(file_logs@)));
        }
        results.push(result);
        logs.push(file_logs);
        i = i + 1;
    }
    (results, logs)
}

} // verus!
