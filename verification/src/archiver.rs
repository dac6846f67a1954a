//! Where and under which name a recognised spreadsheet is archived.

use vstd::prelude::*;
use chrono::Datelike;
use crate::date_utils::{valid, first_date, CalendarDate, ExtractedDate, ExtractedView, formatted_date, format_date};
use crate::date_extractor::{extract_date_on, extracted_date};
use crate::config::{Config, Rule};
use crate::paths::{joined, path_join, path_joined, relative_name, unc_free};
use crate::reader::{file_name_of, name_stem, path_name, path_extension, path_file_name, path_file_stem, plain_extension, plain_path};
use crate::text::after_last;
use crate::text::{
    trim_seq, trim_str, zero_padded, zero_padded_seq, unsigned_decimal, str_eq,
};

verus! {

/// The outcome of handling one file.
#[derive(Debug)]
pub struct ArchiveResult {
    pub success: bool,
    pub file_name: String,
    pub rule_name: String,
    pub date: String,
    pub target_path: String,
    pub status: String,
    pub message: String,
}

/// The value of an `ArchiveResult`.
pub struct ArchiveView {
    pub success: bool,
    pub file_name: Seq<char>,
    pub rule_name: Seq<char>,
    pub date: Seq<char>,
    pub target_path: Seq<char>,
    pub status: Seq<char>,
    pub message: Seq<char>,
}

impl View for ArchiveResult {
    type V = ArchiveView;

    open spec fn view(&self) -> ArchiveView {
        ArchiveView {
            success: self.success,
            file_name: self.file_name@,
            rule_name: self.rule_name@,
            date: self.date@,
            target_path: self.target_path@,
            status: self.status@,
            message: self.message@,
        }
    }
}

impl Clone for ArchiveResult {
    fn clone(&self) -> (res: Self)
        ensures
            res@ == self@,
    {
        ArchiveResult {
            success: self.success,
            file_name: self.file_name.clone(),
            rule_name: self.rule_name.clone(),
            date: self.date.clone(),
            target_path: self.target_path.clone(),
            status: self.status.clone(),
            message: self.message.clone(),
        }
    }
}

/// The message given when no data center is set.
pub open spec fn no_data_center_message() -> Seq<char> {
    "未设置数据中心目录"@
}

/// The part of preparing the data center that needs no file system: an
/// empty path is refused with the message shown to the user.
pub fn check_data_center(data_center: &str) -> (res: Option<String>)
    ensures
        match res {
            Some(m) => data_center@.len() == 0 && m@ == no_data_center_message(),
            None => data_center@.len() > 0,
        },
{
    if data_center.is_empty() {
        Some(String::from_str("未设置数据中心目录"))
    } else {
        None
    }
}

/// The folder a date is archived in: "YYYY-MM" for a month, "YYYY-MM-DD"
/// otherwise (numbers zero-padded, the year to four characters).
pub open spec fn date_folder_name(e: ExtractedView) -> Seq<char> {
    let ym = zero_padded_seq(e.date.year as int, 4) + "-"@ + zero_padded_seq(e.date.month as int, 2);
    if e.precision == "month"@ {
        ym
    } else {
        ym + "-"@ + zero_padded_seq(e.date.day as int, 2)
    }
}

/// Names the folder a date is archived in.
pub fn get_date_folder_name(extracted: &ExtractedDate) -> (res: String)
    ensures
        res@ == date_folder_name(extracted@),
{
    let d = extracted.date_value;
    let mut name = zero_padded(d.year as i64, 4);
    name.append("-");
    let month = zero_padded(d.month as i64, 2);
    name.append(month.as_str());
    if str_eq(extracted.precision.as_str(), "month") {
        name
    } else {
        name.append("-");
        let day = zero_padded(d.day as i64, 2);
        name.append(day.as_str());
        name
    }
}

/// A year as chrono's `%Y` writes it: four digits, zero-padded, for years
/// 0 to 9999; otherwise with an explicit sign and at least four digits.
pub open spec fn iso_year(y: int) -> Seq<char> {
    if 0 <= y <= 9999 {
        zero_padded_seq(y, 4)
    } else if y < 0 {
        zero_padded_seq(y, 5)
    } else {
        "+"@ + unsigned_decimal(y as nat)
    }
}

/// A date as chrono's "%Y-%m-%d" writes it.
pub open spec fn iso_date(d: CalendarDate) -> Seq<char> {
    iso_year(d.year as int) + "-"@ + zero_padded_seq(d.month as int, 2) + "-"@ + zero_padded_seq(
        d.day as int,
        2,
    )
}

/// Calls chrono's `NaiveDate::format("%Y-%m-%d")` and `to_string`. Its
/// `%Y` writes years 0 to 9999 as four zero-padded digits and other years
/// with a sign and at least four digits; `%m` and `%d` write two digits.
#[verifier::external_body]
fn format_ymd(d: CalendarDate) -> (res: String)
    requires
        valid(d),
    ensures
        res@ == iso_date(d),
{
    let date = chrono::NaiveDate::from_ymd_opt(d.year, d.month, d.day).unwrap();
    date.format("%Y-%m-%d").to_string()
}

/// The date of an extracted date as it is reported: "YYYY-MM-DD".
pub fn date_label(extracted: &ExtractedDate) -> (res: String)
    requires
        valid(extracted.date_value),
    ensures
        res@ == iso_date(extracted.date_value),
{
    format_ymd(extracted.date_value)
}

/// The name an archived copy gets: the file's own stem and extension when the
/// rule has no naming pattern; otherwise the pattern with the date put in,
/// plus the extension, or the file's own name when that comes out blank.
pub open spec fn archived_name(
    file_name: Seq<char>,
    stem: Seq<char>,
    extension: Option<Seq<char>>,
    naming_pattern: Seq<char>,
    date: CalendarDate,
) -> Seq<char> {
    let ext = match extension {
        Some(e) => "."@ + e,
        None => Seq::<char>::empty(),
    };
    if naming_pattern.len() == 0 {
        stem + ext
    } else {
        let name = formatted_date(date, naming_pattern);
        if trim_seq(name).len() == 0 {
            file_name
        } else {
            name + ext
        }
    }
}

/// The characters of an optional string.
pub open spec fn opt_string_view(s: Option<String>) -> Option<Seq<char>> {
    match s {
        Some(x) => Some(x@),
        None => None,
    }
}

/// Names the archived copy of a file, given the file's name, stem and
/// extension as the path gives them.
pub fn target_file_name(
    file_name: &str,
    stem: &str,
    extension: Option<String>,
    naming_pattern: &str,
    extracted: &ExtractedDate,
) -> (res: String)
    ensures
        res@ == archived_name(
            file_name@,
            stem@,
            opt_string_view(extension),
            naming_pattern@,
            extracted.date_value,
        ),
{
    let mut ext = String::new();
    if let Some(e) = &extension {
        ext.append(".");
        ext.append(e.as_str());
    }
    proof {
        reveal_strlit(".");
    }
    assert(ext@ == (match opt_string_view(extension) {
        Some(e) => "."@ + e,
        None => Seq::<char>::empty(),
    }));
    if naming_pattern.is_empty() {
        let mut name = String::from_str(stem);
        name.append(ext.as_str());
        name
    } else {
        let mut name = format_date(extracted, naming_pattern);
        let trimmed = trim_str(name.as_str());
        if trimmed.as_str().is_empty() {
            String::from_str(file_name)
        } else {
            name.append(ext.as_str());
            name
        }
    }
}

// ----- the result of an archive attempt -----

/// The result of an attempt that failed before the file was copied: no
/// date and no target, with the reason.
pub open spec fn refused_view(file_name: Seq<char>, rule_name: Seq<char>, message: Seq<char>) -> ArchiveView {
    ArchiveView {
        success: false,
        file_name,
        rule_name,
        date: Seq::<char>::empty(),
        target_path: Seq::<char>::empty(),
        status: "failed"@,
        message,
    }
}

/// Reports an attempt that failed before the file was copied.
pub fn refused_result(file_name: String, rule_name: &str, message: String) -> (res: ArchiveResult)
    ensures
        res@ == refused_view(file_name@, rule_name@, message@),
{
    ArchiveResult {
        success: false,
        file_name,
        rule_name: String::from_str(rule_name),
        date: String::new(),
        target_path: String::new(),
        status: String::from_str("failed"),
        message,
    }
}

/// The reason given when a folder of the data center cannot be created,
/// after the system's error text.
pub open spec fn init_failed_message(error: Seq<char>) -> Seq<char> {
    "无法创建目录: "@ + error
}

/// The reason given when the date's folder cannot be created.
pub open spec fn target_dir_failed_message(error: Seq<char>) -> Seq<char> {
    "创建目标目录失败: "@ + error
}

/// The reason given when the copy fails.
pub open spec fn copy_failed_message(error: Seq<char>) -> Seq<char> {
    "复制文件失败: "@ + error
}

/// States why the data center could not be prepared.
pub fn init_failed(error: &str) -> (res: String)
    ensures
        res@ == init_failed_message(error@),
{
    let mut m = String::from_str("无法创建目录: ");
    m.append(error);
    m
}

/// States why the date's folder could not be created.
pub fn target_dir_failed(error: &str) -> (res: String)
    ensures
        res@ == target_dir_failed_message(error@),
{
    let mut m = String::from_str("创建目标目录失败: ");
    m.append(error);
    m
}

/// The result of an attempt that got as far as the copy: archived when the
/// copy gave no error, failed with the copy's error otherwise; either way
/// with the date and the target path.
pub open spec fn copied_view(
    file_name: Seq<char>,
    rule_name: Seq<char>,
    date: CalendarDate,
    target_path: Seq<char>,
    copy_error: Option<Seq<char>>,
) -> ArchiveView {
    ArchiveView {
        success: copy_error is None,
        file_name,
        rule_name,
        date: iso_date(date),
        target_path,
        status: if copy_error is None { "success"@ } else { "failed"@ },
        message: match copy_error {
            None => "归档成功"@,
            Some(e) => copy_failed_message(e),
        },
    }
}

/// Reports an attempt that got as far as the copy.
pub fn copied_result(
    file_name: String,
    rule_name: &str,
    extracted: &ExtractedDate,
    target_path: String,
    copy_error: Option<String>,
) -> (res: ArchiveResult)
    requires
        valid(extracted.date_value),
    ensures
        res@ == copied_view(file_name@, rule_name@, extracted.date_value, target_path@, opt_string_view(copy_error)),
{
    let date = date_label(extracted);
    match copy_error {
        None => ArchiveResult {
            success: true,
            file_name,
            rule_name: String::from_str(rule_name),
            date,
            target_path,
            status: String::from_str("success"),
            message: String::from_str("归档成功"),
        },
        Some(e) => {
            let mut m = String::from_str("复制文件失败: ");
            m.append(e.as_str());
            ArchiveResult {
                success: false,
                file_name,
                rule_name: String::from_str(rule_name),
                date,
                target_path,
                status: String::from_str("failed"),
                message: m,
            }
        },
    }
}

/// When the target name is taken, the file already there is removed first
/// only when the new file is larger; the copy then overwrites it either way.
pub fn replaces_existing(existing_size: u64, new_size: u64) -> (res: bool)
    ensures
        res == (new_size > existing_size),
{
    new_size > existing_size
}

/// An archive attempt succeeds exactly when it got as far as the copy and
/// the copy gave no error; every other outcome reports a failure with its
/// reason.
pub proof fn lemma_archive_success(
    file_name: Seq<char>,
    rule_name: Seq<char>,
    date: CalendarDate,
    target_path: Seq<char>,
    copy_error: Option<Seq<char>>,
    message: Seq<char>,
)
    ensures
        copied_view(file_name, rule_name, date, target_path, copy_error).success <==> copy_error is None,
        copied_view(file_name, rule_name, date, target_path, copy_error).success
            <==> copied_view(file_name, rule_name, date, target_path, copy_error).status == "success"@,
        !refused_view(file_name, rule_name, message).success,
{
    reveal_strlit("success");
    reveal_strlit("failed");
    assert("failed"@.len() != "success"@.len());
}

// ----- where an archived copy goes -----

/// Where and under which name a file is archived: its file name, the three
/// folders of the data center, the date's folder in the sources, the name
/// and path of the copy, and the date it is archived under.
pub struct ArchivePlan {
    pub file_name: String,
    pub sources_dir: String,
    pub history_dir: String,
    pub output_dir: String,
    pub target_dir: String,
    pub target_name: String,
    pub target_path: String,
    pub extracted: ExtractedDate,
}

/// `dir` is `name` in `base`: for a base that does not start with two
/// separators, joined as every platform joins, and for such a base with no
/// `\` and no `:`, exactly as `path_joined` gives.
pub open spec fn placed_in(base: Seq<char>, name: Seq<char>, dir: Seq<char>) -> bool {
    &&& (unc_free(base) ==> joined(base, name, dir))
    &&& (unc_free(base) && !base.contains('\\') && !base.contains(':') ==> path_joined(base, name, dir))
}

/// `plan` is where a file goes under a rule, given the data center,
/// today's date and the value read from the rule's date column: the date
/// is the extracted date; the three folders are "sources", "history" and
/// "output" in the data center; the date's folder is named after the date
/// in the sources; the copy's name is `archived_name` of the file's name,
/// stem and extension (for a path every platform splits the same way), and
/// its path is that name in the date's folder, never empty.
pub open spec fn plan_fits(
    file_path: Seq<char>,
    rule_date_column: Seq<char>,
    rule_force_precision: Seq<char>,
    rule_naming_pattern: Seq<char>,
    data_center: Seq<char>,
    today: CalendarDate,
    raw: Option<Seq<char>>,
    plan: ArchivePlan,
) -> bool {
    let e = extracted_date(today, rule_date_column, raw, rule_force_precision);
    let name = path_name(file_path);
    &&& plan.extracted@ == e
    &&& valid(plan.extracted.date_value)
    &&& file_name_of(file_path, plan.file_name@)
    &&& placed_in(data_center, "sources"@, plan.sources_dir@)
    &&& placed_in(data_center, "history"@, plan.history_dir@)
    &&& placed_in(data_center, "output"@, plan.output_dir@)
    &&& (relative_name(date_folder_name(e)) ==> placed_in(plan.sources_dir@, date_folder_name(e), plan.target_dir@))
    &&& (plain_path(file_path) ==> plan.target_name@ == archived_name(
        name,
        name_stem(name),
        plain_extension(file_path),
        rule_naming_pattern,
        e.date,
    ))
    &&& (relative_name(plan.target_name@) ==> placed_in(plan.target_dir@, plan.target_name@, plan.target_path@))
    &&& plan.target_path@.len() > 0
}

/// Plans where a file is archived under a rule, given today's date and the
/// value read from the rule's date column (none when it names none or the
/// read failed). With no data center set, the attempt is refused at once.
pub fn archive_plan(
    file_path: &str,
    rule: &Rule,
    config: &Config,
    today: CalendarDate,
    raw_date: Option<String>,
) -> (res: Result<ArchivePlan, ArchiveResult>)
    requires
        valid(today),
        today != first_date(),
    ensures
        match res {
            Err(r) => config.data_center@.len() == 0 && file_name_of(file_path@, r.file_name@)
                && r@ == refused_view(r.file_name@, rule.name@, no_data_center_message()),
            Ok(plan) => config.data_center@.len() > 0 && plan_fits(
                file_path@,
                rule.date_column@,
                rule.force_precision@,
                rule.naming_pattern@,
                config.data_center@,
                today,
                opt_string_view(raw_date),
                plan,
            ),
        },
{
    let file_name = path_file_name(file_path);
    let dc = config.data_center.as_str();
    if let Some(m) = check_data_center(dc) {
        return Err(refused_result(file_name, rule.name.as_str(), m));
    }
    proof {
        reveal_strlit("sources");
        reveal_strlit("history");
        reveal_strlit("output");
    }
    assert(relative_name("sources"@) && relative_name("history"@) && relative_name("output"@)) by {
        assert("sources"@ =~= seq!['s', 'o', 'u', 'r', 'c', 'e', 's']);
        assert("history"@ =~= seq!['h', 'i', 's', 't', 'o', 'r', 'y']);
        assert("output"@ =~= seq!['o', 'u', 't', 'p', 'u', 't']);
    }
    let sources_dir = path_join(dc, "sources");
    let history_dir = path_join(dc, "history");
    let output_dir = path_join(dc, "output");
    let extracted = extract_date_on(today, rule.date_column.as_str(), raw_date, rule.force_precision.as_str());
    let folder = get_date_folder_name(&extracted);
    let target_dir = path_join(sources_dir.as_str(), folder.as_str());
    let stem = path_file_stem(file_path);
    let ext = path_extension(file_path);
    let target_name = target_file_name(file_name.as_str(), stem.as_str(), ext, rule.naming_pattern.as_str(), &extracted);
    let target_path = path_join(target_dir.as_str(), target_name.as_str());
    Ok(ArchivePlan { file_name, sources_dir, history_dir, output_dir, target_dir, target_name, target_path, extracted })
}

/// The result of an attempt that went by a plan, given what the file steps
/// reported: the error creating the data center's folders, else the error
/// creating the date's folder, else the copy's error (each none when the
/// step succeeded).
pub open spec fn archive_outcome(
    plan: ArchivePlan,
    rule_name: Seq<char>,
    init_error: Option<Seq<char>>,
    dir_error: Option<Seq<char>>,
    copy_error: Option<Seq<char>>,
) -> ArchiveView {
    match init_error {
        Some(e) => refused_view(plan.file_name@, rule_name, init_failed_message(e)),
        None => match dir_error {
            Some(e) => refused_view(plan.file_name@, rule_name, target_dir_failed_message(e)),
            None => copied_view(plan.file_name@, rule_name, plan.extracted.date_value, plan.target_path@, copy_error),
        },
    }
}

/// Reports an attempt that went by a plan.
pub fn archive_result(
    plan: &ArchivePlan,
    rule_name: &str,
    init_error: Option<String>,
    dir_error: Option<String>,
    copy_error: Option<String>,
) -> (res: ArchiveResult)
    requires
        valid(plan.extracted.date_value),
    ensures
        res@ == archive_outcome(
            *plan,
            rule_name@,
            opt_string_view(init_error),
            opt_string_view(dir_error),
            opt_string_view(copy_error),
        ),
{
    let file_name = plan.file_name.clone();
    match init_error {
        Some(e) => refused_result(file_name, rule_name, init_failed(e.as_str())),
        None => match dir_error {
            Some(e) => refused_result(file_name, rule_name, target_dir_failed(e.as_str())),
            None => copied_result(file_name, rule_name, &plan.extracted, plan.target_path.clone(), copy_error),
        },
    }
}

} // verus!
