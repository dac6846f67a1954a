//! The application log: the lines written for each event, reading them
//! back, and which of them are kept.

use vstd::prelude::*;
use crate::paths::{unc_free, app_dir, in_app_dir, is_prefix_of, joined, path_joined, simple_path};
use crate::text::{
    contains_seq, find_str, first_match, first_where, lemma_first_where, lines_of, text_lowered,
    split_lines, string_seq_views, strip_leading, strip_leading_char, to_lower, trim_seq, trim_str,
    decimal, i64_to_string, is_blank, bordered, lemma_trim_bordered, matches_at, split_seq,
    lemma_first_match_at, lemma_split_append, lemma_split_single, is_ws,
    is_ascii_text, ascii_lowered, lemma_lower_ascii, lemma_first_match,
};

use vstd::utf8::{decode_utf8, encode_utf8, encode_utf8_valid_utf8, encode_utf8_decode_utf8, is_char_boundary};
use vstd::string::StringSliceAdditionalSpecFns;
use crate::date_utils::{CalendarDate, chrono_parsed, date_le, date_on_or_before, days_before, parse_with_format, sub_days, today_local, valid};

verus! {

/// Most log lines kept over all log files.
pub const MAX_LOG_ENTRIES: usize = 100;

/// Most log entries returned when logs are listed.
pub const MAX_LISTED_LOGS: usize = 50;

/// Where the log files are kept and for how many days.
pub struct Logger {
    log_dir: String,
    retention_days: u32,
}

/// The value of a logger.
pub struct LoggerView {
    pub log_dir: Seq<char>,
    pub retention_days: u32,
}

impl View for Logger {
    type V = LoggerView;

    closed spec fn view(&self) -> LoggerView {
        LoggerView { log_dir: self.log_dir@, retention_days: self.retention_days }
    }
}

/// One line of the log, split into its parts.
#[derive(Debug)]
pub struct LogEntry {
    pub timestamp: String,
    pub level: String,
    pub file_path: String,
    pub detail: String,
}

/// The value of a log entry.
pub struct LogEntryView {
    pub timestamp: Seq<char>,
    pub level: Seq<char>,
    pub file_path: Seq<char>,
    pub detail: Seq<char>,
}

impl View for LogEntry {
    type V = LogEntryView;

    open spec fn view(&self) -> LogEntryView {
        LogEntryView {
            timestamp: self.timestamp@,
            level: self.level@,
            file_path: self.file_path@,
            detail: self.detail@,
        }
    }
}

/// The value of each entry of a list.
pub open spec fn entry_views(s: Seq<LogEntry>) -> Seq<LogEntryView> {
    s.map_values(|e: LogEntry| e@)
}

/// Whether a rule's data for a date has arrived, and in which file.
#[derive(Debug)]
pub struct DataReadyStatus {
    pub rule_name: String,
    pub date: String,
    pub file_name: Option<String>,
    pub is_ready: bool,
}

// ----- the lines written -----

/// The message for a processed file.
pub open spec fn file_processed_message(
    file_path: Seq<char>,
    rule: Seq<char>,
    date_str: Seq<char>,
    result: Seq<char>,
    note: Seq<char>,
) -> Seq<char> {
    file_path + " | "@ + rule + " | "@ + date_str + " | "@ + result + " | "@ + note
}

/// The message for data that has arrived.
pub open spec fn data_ready_message(rule_name: Seq<char>, date_str: Seq<char>, file_name: Seq<char>) -> Seq<char> {
    "数据就绪 | "@ + rule_name + " | "@ + date_str + " | "@ + file_name
}

/// The message for a scanned folder.
pub open spec fn scan_message(folder_path: Seq<char>, file_count: u32) -> Seq<char> {
    folder_path + " | 扫描完成 | 文件数: "@ + decimal(file_count as int)
}

/// The message for a history clean-up.
pub open spec fn clean_message(moved_count: u32, file_count: u32) -> Seq<char> {
    "历史清理 | 迁移文件夹: "@ + decimal(moved_count as int) + " | 文件: "@ + decimal(file_count as int)
}

/// A line of a log file: "[time] [level] message" and a line feed.
pub open spec fn log_line(time: Seq<char>, level: Seq<char>, msg: Seq<char>) -> Seq<char> {
    "["@ + time + "] ["@ + level + "] "@ + msg + "\n"@
}

impl Logger {
    /// A logger for a directory and a retention period.
    pub fn new(log_dir: String, retention_days: u32) -> (res: Logger)
        ensures
            res@ == (LoggerView { log_dir: log_dir@, retention_days: retention_days }),
    {
        Logger { log_dir, retention_days }
    }

    /// The directory of the log files.
    pub fn log_dir(&self) -> (res: &str)
        ensures
            res@ == self@.log_dir,
    {
        self.log_dir.as_str()
    }

    /// For how many days log files are kept.
    pub fn retention_days(&self) -> (res: u32)
        ensures
            res == self@.retention_days,
    {
        self.retention_days
    }

    /// The message recorded for a processed file.
    pub fn log_file_processed(&self, file_path: &str, rule: &str, date_str: &str, result: &str, note: &str) -> (res: String)
        ensures
            res@ == file_processed_message(file_path@, rule@, date_str@, result@, note@),
    {
        let mut msg = String::from_str(file_path);
        msg.append(" | ");
        msg.append(rule);
        msg.append(" | ");
        msg.append(date_str);
        msg.append(" | ");
        msg.append(result);
        msg.append(" | ");
        msg.append(note);
        msg
    }

    /// The message recorded when a rule's data has arrived.
    pub fn log_data_ready(&self, rule_name: &str, date_str: &str, file_name: &str) -> (res: String)
        ensures
            res@ == data_ready_message(rule_name@, date_str@, file_name@),
    {
        let mut msg = String::from_str("数据就绪 | ");
        msg.append(rule_name);
        msg.append(" | ");
        msg.append(date_str);
        msg.append(" | ");
        msg.append(file_name);
        msg
    }

    /// The message recorded for a scanned folder.
    pub fn log_scan(&self, folder_path: &str, file_count: u32) -> (res: String)
        ensures
            res@ == scan_message(folder_path@, file_count),
    {
        let mut msg = String::from_str(folder_path);
        msg.append(" | 扫描完成 | 文件数: ");
        let count = i64_to_string(file_count as i64);
        msg.append(count.as_str());
        msg
    }

    /// The message recorded for a history clean-up.
    pub fn log_clean(&self, moved_count: u32, file_count: u32) -> (res: String)
        ensures
            res@ == clean_message(moved_count, file_count),
    {
        let mut msg = String::from_str("历史清理 | 迁移文件夹: ");
        let moved = i64_to_string(moved_count as i64);
        msg.append(moved.as_str());
        msg.append(" | 文件: ");
        let files = i64_to_string(file_count as i64);
        msg.append(files.as_str());
        msg
    }

    /// The line written to a log file for a message.
    pub fn format_log_line(&self, time: &str, level: &str, msg: &str) -> (res: String)
        ensures
            res@ == log_line(time@, level@, msg@),
    {
        let mut line = String::from_str("[");
        line.append(time);
        line.append("] [");
        line.append(level);
        line.append("] ");
        line.append(msg);
        line.append("\n");
        line
    }
}

// ----- reading the log back -----

/// A log line split into its parts: "[time] [level] path | detail". A line
/// with fewer than two closing brackets is kept whole as the detail.
pub open spec fn parsed_log_line(line: Seq<char>) -> LogEntryView {
    let i1 = first_match(line, "]"@);
    let rest = line.skip(i1 + 1);
    let i2 = first_match(rest, "]"@);
    if i1 < 0 || i2 < 0 {
        LogEntryView {
            timestamp: Seq::<char>::empty(),
            level: Seq::<char>::empty(),
            file_path: Seq::<char>::empty(),
            detail: line,
        }
    } else {
        let timestamp = trim_seq(strip_leading(line.take(i1), '['));
        let level = trim_seq(strip_leading(rest.take(i2), '['));
        let detail = trim_seq(rest.skip(i2 + 1));
        LogEntryView { timestamp, level, file_path: path_part(detail), detail: detail_part(detail) }
    }
}

/// The part of a message before its first " | ", or the whole message.
pub open spec fn path_part(msg: Seq<char>) -> Seq<char> {
    let k = first_match(msg, " | "@);
    if k < 0 {
        msg
    } else {
        msg.take(k)
    }
}

/// The part of a message after its first " | ", or the whole message.
pub open spec fn detail_part(msg: Seq<char>) -> Seq<char> {
    let k = first_match(msg, " | "@);
    if k < 0 {
        msg
    } else {
        msg.skip(k + 3)
    }
}

/// A log line is listed when there is no search text or it contains the
/// search text, case ignored.
pub open spec fn line_selected(line: Seq<char>, search: Seq<char>) -> bool {
    search.len() == 0 || contains_seq(text_lowered(line), text_lowered(search))
}

/// The entries of the selected lines, in order.
pub open spec fn entries_from(lines: Seq<Seq<char>>, search: Seq<char>) -> Seq<LogEntryView>
    decreases lines.len(),
{
    if lines.len() == 0 {
        Seq::<LogEntryView>::empty()
    } else {
        let r = entries_from(lines.drop_last(), search);
        if line_selected(lines.last(), search) {
            r.push(parsed_log_line(lines.last()))
        } else {
            r
        }
    }
}

/// The non-blank lines, trimmed.
pub open spec fn trimmed_nonblank(lines: Seq<Seq<char>>) -> Seq<Seq<char>>
    decreases lines.len(),
{
    if lines.len() == 0 {
        Seq::<Seq<char>>::empty()
    } else {
        let r = trimmed_nonblank(lines.drop_last());
        if trim_seq(lines.last()).len() > 0 {
            r.push(trim_seq(lines.last()))
        } else {
            r
        }
    }
}

/// A file in the log directory is a log file when its name starts with
/// "app_" and ends with ".log".
pub open spec fn is_log_name(name: Seq<char>) -> bool {
    name.len() >= 4 && name.take(4) == "app_"@ && name.skip(name.len() - 4) == ".log"@
}

/// A rule's data is in a file whose name contains the rule's name, case
/// ignored.
pub open spec fn names_rule(rule_name: Seq<char>) -> spec_fn(Seq<char>) -> bool {
    |f: Seq<char>| contains_seq(text_lowered(f), text_lowered(rule_name))
}

/// The value of a data-ready status.
pub struct ReadyView {
    pub rule_name: Seq<char>,
    pub date: Seq<char>,
    pub file_name: Option<Seq<char>>,
    pub is_ready: bool,
}

/// Whether a rule's data for a date has arrived, given the names of the
/// files in that date's folder (`None` when the folder cannot be read):
/// the first file whose name contains the rule's name, its name reported
/// unless empty.
pub open spec fn ready_status(rule_name: Seq<char>, date: Seq<char>, files: Option<Seq<Seq<char>>>) -> ReadyView {
    match files {
        Some(fs) => {
            let i = first_where(fs, names_rule(rule_name));
            ReadyView {
                rule_name,
                date,
                file_name: if i >= 0 && fs[i].len() > 0 { Some(fs[i]) } else { None },
                is_ready: i >= 0,
            }
        },
        None => ReadyView { rule_name, date, file_name: None, is_ready: false },
    }
}

/// The value of a data-ready status.
pub open spec fn ready_view(s: DataReadyStatus) -> ReadyView {
    ReadyView {
        rule_name: s.rule_name@,
        date: s.date@,
        file_name: match s.file_name {
            Some(f) => Some(f@),
            None => None,
        },
        is_ready: s.is_ready,
    }
}

/// The characters of an optional list of names.
pub open spec fn opt_names(files: Option<Vec<String>>) -> Option<Seq<Seq<char>>> {
    match files {
        Some(v) => Some(string_seq_views(v@)),
        None => None,
    }
}

fn substring(s: &str, from: usize, to: usize) -> (res: String)
    requires
        from <= to <= s@.len(),
    ensures
        res@ == s@.subrange(from as int, to as int),
{
    String::from_str(s.substring_char(from, to))
}

impl Logger {
    /// Splits a log line into its parts.
    pub fn parse_log_line(&self, line: &str) -> (res: Option<LogEntry>)
        ensures
            res matches Some(e) && e@ == parsed_log_line(line@),
    {
        proof {
            reveal_strlit("]");
            reveal_strlit(" | ");
        }
        let n = line.unicode_len();
        let whole = LogEntry {
            timestamp: String::new(),
            level: String::new(),
            file_path: String::new(),
            detail: String::from_str(line),
        };
        let i1 = match find_str(line, "]") {
            Some(i) => i,
            None => return Some(whole),
        };
        proof { crate::text::lemma_first_match(line@, "]"@); }
        let rest = substring(line, i1 + 1, n);
        assert(rest@ =~= line@.skip(i1 + 1));
        let m = rest.as_str().unicode_len();
        let i2 = match find_str(rest.as_str(), "]") {
            Some(i) => i,
            None => return Some(whole),
        };
        proof { crate::text::lemma_first_match(rest@, "]"@); }
        let head = substring(line, 0, i1);
        assert(head@ =~= line@.take(i1 as int));
        let timestamp = trim_str(strip_leading_char(head.as_str(), '[').as_str());
        let lv = substring(rest.as_str(), 0, i2);
        assert(lv@ =~= rest@.take(i2 as int));
        let level = trim_str(strip_leading_char(lv.as_str(), '[').as_str());
        let tail = substring(rest.as_str(), i2 + 1, m);
        assert(tail@ =~= rest@.skip(i2 + 1));
        let detail = trim_str(tail.as_str());
        let d = detail.as_str().unicode_len();
        match find_str(detail.as_str(), " | ") {
            Some(k) => {
                proof { crate::text::lemma_first_match(detail@, " | "@); }
                let file_path = substring(detail.as_str(), 0, k);
                let text = substring(detail.as_str(), k + 3, d);
                assert(file_path@ =~= detail@.take(k as int));
                assert(text@ =~= detail@.skip(k + 3));
                Some(LogEntry { timestamp, level, file_path, detail: text })
            },
            None => {
                let file_path = detail.clone();
                Some(LogEntry { timestamp, level, file_path, detail })
            },
        }
    }

    /// The entries of the lines of a log file's text, keeping the lines
    /// that contain the search text (case ignored) when one is given.
    pub fn read_log_entries(&self, content: &str, search: &str) -> (res: Vec<LogEntry>)
        ensures
            entry_views(res@) == entries_from(lines_of(content@), search@),
    {
        let lines = split_lines(content);
        let ghost lv = string_seq_views(lines@);
        let n = lines.len();
        let mut entries: Vec<LogEntry> = Vec::new();
        let mut i: usize = 0;
        while i < n
            invariant
                n == lines@.len(),
                i <= n,
                lv == string_seq_views(lines@),
                lv == lines_of(content@),
                entry_views(entries@) == entries_from(lv.take(i as int), search@),
            decreases n - i,
        {
            assert(lv.take(i + 1).drop_last() =~= lv.take(i as int));
            let line = lines[i].as_str();
            let selected = if search.is_empty() {
                true
            } else {
                let lower_line = to_lower(line);
                let lower_search = to_lower(search);
                find_str(lower_line.as_str(), lower_search.as_str()).is_some()
            };
            if selected {
                match self.parse_log_line(line) {
                    Some(e) => {
                        entries.push(e);
                        assert(entry_views(entries@) =~= entries_from(lv.take(i as int), search@).push(parsed_log_line(lv[i as int])));
                    },
                    None => {},
                }
            }
            i = i + 1;
        }
        assert(lv.take(n as int) =~= lv);
        entries
    }
}

/// The newest entries first, at most `MAX_LISTED_LOGS` of them.
pub fn latest_logs(logs: Vec<LogEntry>) -> (res: Vec<LogEntry>)
    ensures
        entry_views(res@) == entry_views(logs@).reverse().take(
            if logs@.len() < MAX_LISTED_LOGS { logs@.len() as int } else { MAX_LISTED_LOGS as int },
        ),
{
    let ghost all = entry_views(logs@);
    let mut rest = logs;
    let mut res: Vec<LogEntry> = Vec::new();
    while res.len() < MAX_LISTED_LOGS && rest.len() > 0
        invariant
            res@.len() <= MAX_LISTED_LOGS,
            res@.len() + rest@.len() == all.len(),
            entry_views(rest@) == all.take(rest@.len() as int),
            entry_views(res@) == all.reverse().take(res@.len() as int),
        decreases rest@.len(),
    {
        let ghost k = rest@.len();
        let ghost r0 = entry_views(res@);
        let ghost before = entry_views(rest@);
        match rest.pop() {
            Some(e) => {
                assert(e@ == before[k - 1]);
                assert(before[k - 1] == all[k - 1]);
                res.push(e);
                assert(entry_views(rest@) =~= all.take(rest@.len() as int));
                assert(all.len() > 0);
                assert(all.reverse()[r0.len() as int] == all[all.len() - 1 - r0.len()]);
                assert(entry_views(res@) =~= all.reverse().take(res@.len() as int));
            },
            None => {},
        }
    }
    res
}

/// Whether a file name is a log file's.
pub fn is_log_file_name(name: &str) -> (res: bool)
    ensures
        res == is_log_name(name@),
{
    proof {
        reveal_strlit("app_");
        reveal_strlit(".log");
    }
    let n = name.unicode_len();
    if n < 4 {
        return false;
    }
    let head = name.substring_char(0, 4);
    let tail = name.substring_char(n - 4, n);
    assert(head@ =~= name@.take(4));
    assert(tail@ =~= name@.skip(n - 4));
    crate::text::str_eq(head, "app_") && crate::text::str_eq(tail, ".log")
}

/// Adds the non-blank lines of a log file's text, trimmed, to `lines`.
pub fn collect_log_lines(content: &str, lines: &mut Vec<String>)
    ensures
        string_seq_views(final(lines)@) == string_seq_views(old(lines)@) + trimmed_nonblank(lines_of(content@)),
{
    let split = split_lines(content);
    let ghost lv = string_seq_views(split@);
    let ghost start = string_seq_views(lines@);
    let n = split.len();
    let mut i: usize = 0;
    while i < n
        invariant
            n == split@.len(),
            i <= n,
            lv == string_seq_views(split@),
            lv == lines_of(content@),
            string_seq_views(lines@) == start + trimmed_nonblank(lv.take(i as int)),
        decreases n - i,
    {
        assert(lv.take(i + 1).drop_last() =~= lv.take(i as int));
        assert(lv.take(i + 1).last() == split@[i as int]@);
        let t = trim_str(split[i].as_str());
        if !t.as_str().is_empty() {
            let ghost prev = string_seq_views(lines@);
            let ghost tv = t@;
            lines.push(t);
            assert(string_seq_views(lines@) =~= prev.push(tv));
            assert(trim_seq(lv.take(i + 1).last()).len() > 0);
            assert(trimmed_nonblank(lv.take(i + 1)) == trimmed_nonblank(lv.take(i as int)).push(tv));
            assert(string_seq_views(lines@) =~= start + trimmed_nonblank(lv.take(i + 1)));
        } else {
            assert(t@.len() == 0);
            assert(trim_seq(lv.take(i + 1).last()).len() == 0);
            assert(trimmed_nonblank(lv.take(i + 1)) == trimmed_nonblank(lv.take(i as int)));
        }
        i = i + 1;
    }
    assert(lv.take(n as int) =~= lv);
}

/// The lines to keep when the log holds more than `MAX_LOG_ENTRIES` lines:
/// the last `MAX_LOG_ENTRIES` of them; `None` when nothing is to be trimmed.
pub fn lines_to_keep(all_lines: Vec<String>) -> (res: Option<Vec<String>>)
    ensures
        all_lines@.len() <= MAX_LOG_ENTRIES ==> res is None,
        all_lines@.len() > MAX_LOG_ENTRIES ==> (res matches Some(kept) && string_seq_views(kept@)
            == string_seq_views(all_lines@).skip(all_lines@.len() - MAX_LOG_ENTRIES)),
{
    let n = all_lines.len();
    if n <= MAX_LOG_ENTRIES {
        return None;
    }
    let ghost all = all_lines@;
    let mut all_lines = all_lines;
    let kept = all_lines.split_off(n - MAX_LOG_ENTRIES);
    assert(string_seq_views(kept@) =~= string_seq_views(all).skip(n - MAX_LOG_ENTRIES));
    Some(kept)
}

impl Logger {
    /// Whether each rule's data for a date has arrived, given the names of
    /// the files in that date's folder of the data center, in the order the
    /// folder lists them (`None` when the folder cannot be read).
    pub fn get_data_ready_status(
        &self,
        date_str: &str,
        rule_names: &[String],
        file_names: Option<Vec<String>>,
    ) -> (res: Vec<DataReadyStatus>)
        ensures
            res@.len() == rule_names@.len(),
            forall|i: int|
                0 <= i < res@.len() ==> ready_view(#[trigger] res@[i]) == ready_status(
                    rule_names@[i]@,
                    date_str@,
                    opt_names(file_names),
                ),
    {
        let n = rule_names.len();
        let mut res: Vec<DataReadyStatus> = Vec::new();
        let mut i: usize = 0;
        while i < n
            invariant
                n == rule_names@.len(),
                i <= n,
                res@.len() == i,
                forall|j: int|
                    0 <= j < i ==> ready_view(#[trigger] res@[j]) == ready_status(
                        rule_names@[j]@,
                        date_str@,
                        opt_names(file_names),
                    ),
            decreases n - i,
        {
            let status = ready_status_of(rule_names[i].as_str(), date_str, &file_names);
            res.push(status);
            i = i + 1;
        }
        res
    }
}

/// The first of the files whose name contains the rule's name, case ignored.
fn first_file_for(rule_name: &str, files: &Vec<String>) -> (res: Option<usize>)
    ensures
        first_where(string_seq_views(files@), names_rule(rule_name@)) == match res {
            Some(i) => i as int,
            None => -1,
        },
        res matches Some(i) ==> i < files@.len(),
{
    let ghost fv = string_seq_views(files@);
    let ghost pred = names_rule(rule_name@);
    let lower_rule = to_lower(rule_name);
    let n = files.len();
    let mut i: usize = 0;
    while i < n
        invariant
            n == files@.len(),
            i <= n,
            fv == string_seq_views(files@),
            pred == names_rule(rule_name@),
            lower_rule@ == text_lowered(rule_name@),
            forall|j: int| 0 <= j < i ==> !pred(#[trigger] fv[j]),
        decreases n - i,
    {
        let lower = to_lower(files[i].as_str());
        if find_str(lower.as_str(), lower_rule.as_str()).is_some() {
            assert(pred(fv[i as int]));
            proof { lemma_first_where(fv, pred, i as int); }
            return Some(i);
        }
        assert(!pred(fv[i as int]));
        i = i + 1;
    }
    proof { lemma_first_where(fv, pred, n as int); }
    None
}

fn ready_status_of(rule_name: &str, date_str: &str, file_names: &Option<Vec<String>>) -> (res: DataReadyStatus)
    ensures
        ready_view(res) == ready_status(rule_name@, date_str@, opt_names(*file_names)),
{
    let (is_ready, file_name) = match file_names {
        Some(files) => match first_file_for(rule_name, files) {
            Some(i) => {
                if files[i].as_str().is_empty() {
                    (true, None)
                } else {
                    (true, Some(files[i].clone()))
                }
            },
            None => (false, None),
        },
        None => (false, None),
    };
    DataReadyStatus {
        rule_name: String::from_str(rule_name),
        date: String::from_str(date_str),
        file_name,
        is_ready,
    }
}

/// The text of a log line before its line feed.
pub open spec fn line_body(time: Seq<char>, level: Seq<char>, msg: Seq<char>) -> Seq<char> {
    seq!['['] + time + seq![']', ' ', '['] + level + seq![']', ' '] + msg
}

/// The first `]` of a text, when the text before position `i` holds none.
proof fn lemma_first_bracket(s: Seq<char>, i: int)
    requires
        0 <= i < s.len(),
        s[i] == ']',
        forall|j: int| 0 <= j < i ==> s[j] != ']',
    ensures
        first_match(s, "]"@) == i,
{
    reveal_strlit("]");
    assert(s.subrange(i, i + 1) =~= "]"@);
    assert forall|j: int| 0 <= j < i implies !matches_at(s, "]"@, j) by {
        if matches_at(s, "]"@, j) {
            assert(s.subrange(j, j + 1)[0] == s[j]);
        }
    }
    lemma_first_match_at(s, "]"@, i);
}

/// A line the logger writes reads back as one line whose entry holds the
/// time it was written with, the level after a `[` (the reader keeps the
/// bracket that follows the first space), and, of the message without its
/// surrounding white space, the part before its first " | " as the file
/// path and the part after it as the detail.
#[verifier::spinoff_prover]
#[verifier::rlimit(40)]
pub proof fn lemma_log_line_read_back(time: Seq<char>, level: Seq<char>, msg: Seq<char>)
    requires
        !time.contains(']'),
        !time.contains('\n'),
        !level.contains(']'),
        !level.contains('\n'),
        !msg.contains('\n'),
        !msg.contains('\r'),
        bordered(time),
        bordered(level),
        time.len() == 0 || time[0] != '[',
    ensures
        lines_of(log_line(time, level, msg)) == seq![line_body(time, level, msg)],
        parsed_log_line(line_body(time, level, msg)) == (LogEntryView {
            timestamp: time,
            level: "["@ + level,
            file_path: path_part(trim_seq(msg)),
            detail: detail_part(trim_seq(msg)),
        }),
        entries_from(lines_of(log_line(time, level, msg)), Seq::<char>::empty()) == seq![
            parsed_log_line(line_body(time, level, msg)),
        ],
{
    reveal_strlit("[");
    reveal_strlit("] [");
    reveal_strlit("] ");
    reveal_strlit("\n");
    let body = line_body(time, level, msg);
    let tl = time.len() as int;
    let ll = level.len() as int;
    // the line as written is the body and a line feed
    assert(log_line(time, level, msg) =~= body + seq!['\n'] + Seq::<char>::empty());
    assert(!body.contains('\n')) by {
        assert forall|j: int| 0 <= j < body.len() implies body[j] != '\n' by {
            if 1 <= j < 1 + tl {
                assert(body[j] == time[j - 1]);
            } else if 4 + tl <= j < 4 + tl + ll {
                assert(body[j] == level[j - 4 - tl]);
            } else if 6 + tl + ll <= j {
                assert(body[j] == msg[j - 6 - tl - ll]);
            }
        }
    }
    lemma_split_append(body, Seq::<char>::empty(), '\n');
    lemma_split_single(body, '\n');
    assert(split_seq(log_line(time, level, msg), '\n') =~= seq![body, Seq::<char>::empty()]);
    assert(body.last() != '\r') by {
        if msg.len() > 0 {
            assert(body.last() == msg[msg.len() - 1]);
        }
    }
    assert(lines_of(log_line(time, level, msg)) =~= seq![body]);
    // the first closing bracket ends the time
    assert forall|j: int| 0 <= j < tl + 1 implies body[j] != ']' by {
        if j >= 1 {
            assert(body[j] == time[j - 1]);
        }
    }
    lemma_first_bracket(body, tl + 1);
    let rest = body.skip(tl + 2);
    assert(rest =~= seq![' ', '['] + level + seq![']', ' '] + msg);
    assert forall|j: int| 0 <= j < ll + 2 implies rest[j] != ']' by {
        if j >= 2 {
            assert(rest[j] == level[j - 2]);
        }
    }
    lemma_first_bracket(rest, ll + 2);
    // the time
    assert(body.take(tl + 1) =~= seq!['['] + time);
    assert((seq!['['] + time).drop_first() =~= time);
    assert(strip_leading(time, '[') == time);
    assert(strip_leading(seq!['['] + time, '[') == time);
    lemma_trim_bordered(' ', time);
    // the level
    assert(rest.take(ll + 2) =~= seq![' '] + (seq!['['] + level));
    assert(strip_leading(rest.take(ll + 2), '[') == rest.take(ll + 2));
    assert(bordered(seq!['['] + level)) by {
        assert(!is_ws('['));
        if ll > 0 {
            assert((seq!['['] + level).last() == level.last());
        }
    }
    lemma_trim_bordered(' ', seq!['['] + level);
    assert("["@ + level =~= seq!['['] + level);
    // the message
    assert(rest.skip(ll + 3) =~= seq![' '] + msg);
    crate::text::lemma_trim_lead_ws(' ', msg);
    assert(seq![body].drop_last() =~= Seq::<Seq<char>>::empty());
    assert(entries_from(Seq::<Seq<char>>::empty(), Seq::<char>::empty()) == Seq::<LogEntryView>::empty());
    assert(line_selected(body, Seq::<char>::empty()));
    assert(entries_from(seq![body], Seq::<char>::empty()) =~= seq![parsed_log_line(body)]);
}

/// A rule's data counts as arrived exactly when a file of the date's folder
/// has a name that contains the rule's name, case ignored; a file name
/// reported is such a name, and the earliest one in the folder's order.
pub proof fn lemma_ready_iff_named(rule_name: Seq<char>, date: Seq<char>, files: Seq<Seq<char>>)
    ensures
        ready_status(rule_name, date, Some(files)).is_ready <==> exists|i: int|
            0 <= i < files.len() && #[trigger] contains_seq(text_lowered(files[i]), text_lowered(rule_name)),
        ready_status(rule_name, date, Some(files)).file_name matches Some(f) ==> exists|i: int|
            0 <= i < files.len() && files[i] == f && contains_seq(text_lowered(f), text_lowered(rule_name))
                && forall|j: int| 0 <= j < i ==> !contains_seq(text_lowered(#[trigger] files[j]), text_lowered(rule_name)),
        !ready_status(rule_name, date, None).is_ready,
{
    let pred = names_rule(rule_name);
    let k = first_where(files, pred);
    if exists|i: int| 0 <= i < files.len() && #[trigger] contains_seq(text_lowered(files[i]), text_lowered(rule_name)) {
        let i0 = choose|i: int| 0 <= i < files.len() && #[trigger] contains_seq(text_lowered(files[i]), text_lowered(rule_name));
        lemma_first_where_exists(files, pred, i0);
    } else {
        assert forall|j: int| 0 <= j < files.len() implies !pred(#[trigger] files[j]) by {}
        lemma_first_where(files, pred, files.len() as int);
    }
}

/// The search ignores case: with ASCII search text, a line is selected for
/// the text exactly when it is selected for the text lowered; an ASCII line
/// is selected exactly when its lowered copy is; and an ASCII line that holds
/// the ASCII search text as written is selected.
pub proof fn lemma_search_ignores_case(line: Seq<char>, search: Seq<char>)
    ensures
        is_ascii_text(search) ==> line_selected(line, search) == line_selected(line, ascii_lowered(search)),
        is_ascii_text(line) ==> line_selected(line, search) == line_selected(ascii_lowered(line), search),
        is_ascii_text(line) && is_ascii_text(search) && contains_seq(line, search) ==> line_selected(line, search),
{
    if is_ascii_text(search) {
        lemma_lower_ascii(search);
    }
    if is_ascii_text(line) {
        lemma_lower_ascii(line);
    }
    if is_ascii_text(line) && is_ascii_text(search) && contains_seq(line, search) && search.len() > 0 {
        lemma_first_match(line, search);
        let k = first_match(line, search);
        let ll = ascii_lowered(line);
        let ls = ascii_lowered(search);
        assert(ll.subrange(k, k + ls.len()) =~= ls);
        assert(matches_at(ll, ls, k));
        lemma_first_match(ll, ls);
    }
}

/// A file name counts for a rule whatever the case of the rule's name: with
/// an ASCII rule name, a file counts for the name exactly when it counts for
/// the name lowered; an ASCII file name counts exactly when its lowered copy
/// does; and an ASCII file name that holds the ASCII rule name as written
/// counts.
pub proof fn lemma_rule_name_ignores_case(file: Seq<char>, rule_name: Seq<char>)
    ensures
        is_ascii_text(rule_name) ==> names_rule(rule_name)(file) == names_rule(ascii_lowered(rule_name))(file),
        is_ascii_text(file) ==> names_rule(rule_name)(file) == names_rule(rule_name)(ascii_lowered(file)),
        is_ascii_text(file) && is_ascii_text(rule_name) && contains_seq(file, rule_name) ==> names_rule(rule_name)(file),
{
    if is_ascii_text(rule_name) {
        lemma_lower_ascii(rule_name);
    }
    if is_ascii_text(file) {
        lemma_lower_ascii(file);
    }
    if is_ascii_text(file) && is_ascii_text(rule_name) && contains_seq(file, rule_name) {
        lemma_first_match(file, rule_name);
        let k = first_match(file, rule_name);
        let lf = ascii_lowered(file);
        let lr = ascii_lowered(rule_name);
        assert(lf.subrange(k, k + lr.len()) =~= lr);
        assert(matches_at(lf, lr, k));
        lemma_first_match(lf, lr);
    }
}

/// When some element satisfies `pred`, `first_where` finds the first one.
proof fn lemma_first_where_exists(s: Seq<Seq<char>>, pred: spec_fn(Seq<char>) -> bool, i0: int)
    requires
        0 <= i0 < s.len(),
        pred(s[i0]),
    ensures
        0 <= first_where(s, pred) <= i0,
        pred(s[first_where(s, pred)]),
        forall|j: int| 0 <= j < first_where(s, pred) ==> !pred(#[trigger] s[j]),
    decreases i0,
{
    if exists|j: int| 0 <= j < i0 && pred(#[trigger] s[j]) {
        let j0 = choose|j: int| 0 <= j < i0 && pred(#[trigger] s[j]);
        lemma_first_where_exists(s, pred, j0);
    } else {
        lemma_first_where(s, pred, i0);
    }
}

// ----- log files past their retention -----

/// The date written in a log file's name: its bytes 4 to 14, the
/// "YYYY-MM-DD" after "app_".
pub open spec fn log_name_date(name: Seq<char>) -> Seq<char> {
    decode_utf8(encode_utf8(name).subrange(4, 14))
}

/// Bytes 4 to 14 of a name can be cut out of it (else cutting panics).
pub open spec fn log_name_cuttable(name: Seq<char>) -> bool {
    let b = encode_utf8(name);
    b.len() >= 14 && is_char_boundary(b, 4) && is_char_boundary(b, 14)
}

/// A log file is past its retention when its name is a log file's and
/// dates it strictly before the threshold; a name without a date keeps its
/// file.
pub open spec fn log_expired(name: Seq<char>, threshold: CalendarDate) -> bool {
    is_log_name(name) && match chrono_parsed(log_name_date(name), "%Y-%m-%d"@) {
        Some(d) => date_le(d, threshold) && d != threshold,
        None => false,
    }
}

/// Whether a file of the log directory is past its retention.
pub fn is_expired_log(name: &str, threshold: CalendarDate) -> (res: bool)
    requires
        is_log_name(name@) ==> log_name_cuttable(name@),
    ensures
        res == log_expired(name@, threshold),
{
    if !is_log_file_name(name) {
        return false;
    }
    let ghost b = name.spec_bytes();
    let (head, _) = name.split_at(14);
    proof {
        encode_utf8_valid_utf8(name@);
        encode_utf8_valid_utf8(head@);
        crate::script_runner::lemma_inner_boundary(b, 0, 14, 4);
    }
    let (_, date_part) = head.split_at(4);
    proof {
        assert(date_part.spec_bytes() =~= b.subrange(4, 14));
        encode_utf8_decode_utf8(date_part@);
    }
    match parse_with_format(date_part, "%Y-%m-%d") {
        Some(d) => date_on_or_before(d, threshold) && !(d == threshold),
        None => false,
    }
}

impl Logger {
    /// The threshold of retention on a given day: `retention_days` days
    /// earlier, `None` when that day is not representable.
    pub fn retention_threshold(&self, today: CalendarDate) -> (res: Option<CalendarDate>)
        requires
            valid(today),
        ensures
            res == days_before(today, self@.retention_days as nat),
    {
        sub_days(today, self.retention_days)
    }

    /// The threshold of retention today, by the local clock.
    pub fn current_retention_threshold(&self) -> (res: Option<CalendarDate>)
        ensures
            res matches Some(t) ==> exists|today: CalendarDate| valid(today) && today.year >= 1969
                && days_before(today, self@.retention_days as nat) == Some(t),
    {
        match today_local() {
            Some(today) => self.retention_threshold(today),
            None => None,
        }
    }
}

/// The name of the log file of a date: "app_" + date + ".log".
pub open spec fn log_file_name_of(date: Seq<char>) -> Seq<char> {
    "app_"@ + date + ".log"@
}

/// Names the log file of a date.
pub fn log_file_name(date: &str) -> (res: String)
    ensures
        res@ == log_file_name_of(date@),
{
    let mut name = String::from_str("app_");
    name.append(date);
    name.append(".log");
    name
}

/// The file a day's lines are written to is one that listing, trimming and
/// retention all take for a log file.
pub proof fn lemma_log_file_name_is_log(date: Seq<char>)
    ensures
        is_log_name(log_file_name_of(date)),
{
    reveal_strlit("app_");
    reveal_strlit(".log");
    let n = log_file_name_of(date);
    assert(n.take(4) =~= "app_"@);
    assert(n.skip(n.len() - 4) =~= ".log"@);
}

impl Logger {
    /// The log directory used by default, given the executable's path:
    /// "logs" in the application's directory, beside the configuration file.
    pub fn get_default_log_dir(exe: &str) -> (res: String)
        ensures
            unc_free(exe@) ==> exists|dir: Seq<char>| is_prefix_of(dir, exe@) && joined(dir, "logs"@, res@),
            simple_path(exe@) ==> path_joined(app_dir(exe@), "logs"@, res@),
    {
        proof {
            reveal_strlit("logs");
        }
        in_app_dir(exe, "logs")
    }
}

// ----- keeping the newest lines -----

/// A line as the log keeps it: not empty, without surrounding white space,
/// without a line feed.
pub open spec fn clean_line(l: Seq<char>) -> bool {
    l.len() > 0 && trim_seq(l) == l && !l.contains('\n')
}

/// The text of a file that holds the given lines, each ended by a line
/// feed.
pub open spec fn joined_lines(ls: Seq<Seq<char>>) -> Seq<char>
    decreases ls.len(),
{
    if ls.len() == 0 {
        Seq::<char>::empty()
    } else {
        joined_lines(ls.drop_last()) + ls.last() + seq!['\n']
    }
}

/// The names and texts of files.
pub open spec fn file_views(files: Seq<(String, String)>) -> Seq<(Seq<char>, Seq<char>)> {
    files.map_values(|f: (String, String)| (f.0@, f.1@))
}

/// The lines the log keeps from files, in order: the non-blank lines,
/// trimmed, of each log file.
pub open spec fn log_lines_of(files: Seq<(Seq<char>, Seq<char>)>) -> Seq<Seq<char>>
    decreases files.len(),
{
    if files.len() == 0 {
        Seq::<Seq<char>>::empty()
    } else {
        let r = log_lines_of(files.drop_last());
        if is_log_name(files.last().0) {
            r + trimmed_nonblank(lines_of(files.last().1))
        } else {
            r
        }
    }
}

/// The names of the log files among files, in order.
pub open spec fn log_names_of(files: Seq<(Seq<char>, Seq<char>)>) -> Seq<Seq<char>>
    decreases files.len(),
{
    if files.len() == 0 {
        Seq::<Seq<char>>::empty()
    } else {
        let r = log_names_of(files.drop_last());
        if is_log_name(files.last().0) {
            r.push(files.last().0)
        } else {
            r
        }
    }
}

/// The lines kept from text without line feeds are clean.
proof fn lemma_trimmed_nonblank_clean(xs: Seq<Seq<char>>)
    requires
        forall|i: int| 0 <= i < xs.len() ==> !(#[trigger] xs[i]).contains('\n'),
    ensures
        forall|j: int| 0 <= j < trimmed_nonblank(xs).len() ==> clean_line(#[trigger] trimmed_nonblank(xs)[j]),
    decreases xs.len(),
{
    if xs.len() > 0 {
        let pre = xs.drop_last();
        assert forall|i: int| 0 <= i < pre.len() implies !(#[trigger] pre[i]).contains('\n') by {
            assert(pre[i] == xs[i]);
        }
        lemma_trimmed_nonblank_clean(pre);
        let l = xs.last();
        assert(!xs[xs.len() - 1].contains('\n'));
        crate::text::lemma_trim_lacks(l, '\n');
        crate::text::lemma_trim_idempotent(l);
        let r = trimmed_nonblank(pre);
        if trim_seq(l).len() > 0 {
            assert forall|j: int| 0 <= j < r.push(trim_seq(l)).len() implies clean_line(#[trigger] r.push(trim_seq(l))[j]) by {
                if j < r.len() {
                    assert(r.push(trim_seq(l))[j] == r[j]);
                }
            }
        }
    }
}

/// Every line the log keeps from files is clean.
proof fn lemma_log_lines_clean(files: Seq<(Seq<char>, Seq<char>)>)
    ensures
        forall|j: int| 0 <= j < log_lines_of(files).len() ==> clean_line(#[trigger] log_lines_of(files)[j]),
    decreases files.len(),
{
    if files.len() > 0 {
        lemma_log_lines_clean(files.drop_last());
        let f = files.last();
        crate::text::lemma_lines_lack_feed(f.1);
        lemma_trimmed_nonblank_clean(lines_of(f.1));
        let r = log_lines_of(files.drop_last());
        let t = trimmed_nonblank(lines_of(f.1));
        if is_log_name(f.0) {
            assert forall|j: int| 0 <= j < (r + t).len() implies clean_line(#[trigger] (r + t)[j]) by {
                if j < r.len() {
                    assert((r + t)[j] == r[j]);
                } else {
                    assert((r + t)[j] == t[j - r.len()]);
                }
            }
        }
    }
}

/// A clean line ends in a character that is not white space.
proof fn lemma_clean_last(l: Seq<char>)
    requires
        clean_line(l),
    ensures
        !is_ws(l.last()),
{
    crate::text::lemma_trim_end_shape(crate::text::trim_start_seq(l));
}

/// A file written with clean lines reads back as those lines.
proof fn lemma_joined_read_back(ls: Seq<Seq<char>>)
    requires
        forall|i: int| 0 <= i < ls.len() ==> clean_line(#[trigger] ls[i]),
    ensures
        split_seq(joined_lines(ls), '\n') == ls.push(Seq::<char>::empty()),
        lines_of(joined_lines(ls)) == ls,
        trimmed_nonblank(ls) == ls,
    decreases ls.len(),
{
    if ls.len() == 0 {
        assert(split_seq(Seq::<char>::empty(), '\n') =~= seq![Seq::<char>::empty()]);
    } else {
        let pre = ls.drop_last();
        let l = ls.last();
        assert(clean_line(ls[ls.len() - 1]));
        assert forall|i: int| 0 <= i < pre.len() implies clean_line(#[trigger] pre[i]) by {
            assert(pre[i] == ls[i]);
        }
        lemma_joined_read_back(pre);
        let j = joined_lines(pre);
        crate::text::lemma_split_extend(j, l, '\n');
        assert(Seq::<char>::empty() + l =~= l);
        assert(split_seq(j + l, '\n') =~= ls);
        crate::text::lemma_split_append(j + l, Seq::<char>::empty(), '\n');
        assert(joined_lines(ls) =~= (j + l) + seq!['\n'] + Seq::<char>::empty());
    }
    let p = split_seq(joined_lines(ls), '\n');
    assert forall|i: int| 0 <= i < ls.len() implies crate::text::strip_cr(#[trigger] ls[i]) == ls[i] by {
        lemma_clean_last(ls[i]);
    }
    assert(lines_of(joined_lines(ls)) =~= ls);
}

/// What trimming the log files does: the names of the log files to remove,
/// the name of the one file written in their place, and its text.
pub struct TrimPlan {
    pub remove: Vec<String>,
    pub file_name: String,
    pub content: String,
}

/// Plans the trimming of the log, given every file of the log directory
/// (name and text, in name order) and today's date: when the log files
/// hold more than `MAX_LOG_ENTRIES` kept lines, remove every log file and
/// write today's file with the newest `MAX_LOG_ENTRIES` lines, one per
/// line; otherwise nothing.
pub fn plan_log_trim(files: &Vec<(String, String)>, today: &str) -> (res: Option<TrimPlan>)
    ensures
        ({
            let fv = file_views(files@);
            let all = log_lines_of(fv);
            &&& all.len() <= MAX_LOG_ENTRIES ==> res is None
            &&& all.len() > MAX_LOG_ENTRIES ==> (res matches Some(plan) && string_seq_views(plan.remove@)
                == log_names_of(fv) && plan.file_name@ == log_file_name_of(today@) && plan.content@
                == joined_lines(all.skip(all.len() - MAX_LOG_ENTRIES)))
        }),
{
    let ghost fv = file_views(files@);
    let mut all: Vec<String> = Vec::new();
    let mut names: Vec<String> = Vec::new();
    let n = files.len();
    let mut i: usize = 0;
    while i < n
        invariant
            n == files@.len(),
            i <= n,
            fv == file_views(files@),
            string_seq_views(all@) == log_lines_of(fv.take(i as int)),
            string_seq_views(names@) == log_names_of(fv.take(i as int)),
        decreases n - i,
    {
        assert(fv.take(i + 1).drop_last() =~= fv.take(i as int));
        let name = &files[i].0;
        let content = &files[i].1;
        if is_log_file_name(name.as_str()) {
            collect_log_lines(content.as_str(), &mut all);
            let ghost before = string_seq_views(names@);
            names.push(name.clone());
            assert(string_seq_views(names@) =~= before.push(name@));
        }
        i = i + 1;
    }
    assert(fv.take(n as int) =~= fv);
    let kept = match lines_to_keep(all) {
        Some(k) => k,
        None => return None,
    };
    let ghost kv = string_seq_views(kept@);
    let mut content = String::new();
    let m = kept.len();
    let mut j: usize = 0;
    while j < m
        invariant
            m == kept@.len(),
            j <= m,
            kv == string_seq_views(kept@),
            content@ == joined_lines(kv.take(j as int)),
        decreases m - j,
    {
        assert(kv.take(j + 1).drop_last() =~= kv.take(j as int));
        content.append(kept[j].as_str());
        content.append("\n");
        proof {
            reveal_strlit("\n");
        }
        assert(content@ =~= joined_lines(kv.take(j as int)) + kv[j as int] + seq!['\n']);
        j = j + 1;
    }
    assert(kv.take(m as int) =~= kv);
    Some(TrimPlan { remove: names, file_name: log_file_name(today), content })
}

/// Trimming keeps the newest lines: when the log files hold more than
/// `MAX_LOG_ENTRIES` lines, the one file written in their place holds a log
/// file's name and reads back, as the log reads files, as exactly the
/// newest `MAX_LOG_ENTRIES` lines, in order.
pub proof fn lemma_trim_keeps_newest(files: Seq<(Seq<char>, Seq<char>)>, today: Seq<char>)
    ensures
        ({
            let all = log_lines_of(files);
            let kept = all.skip(all.len() - MAX_LOG_ENTRIES);
            all.len() > MAX_LOG_ENTRIES ==> {
                &&& kept.len() == MAX_LOG_ENTRIES
                &&& is_log_name(log_file_name_of(today))
                &&& log_lines_of(seq![(log_file_name_of(today), joined_lines(kept))]) == kept
            }
        }),
{
    let all = log_lines_of(files);
    if all.len() > MAX_LOG_ENTRIES {
        let kept = all.skip(all.len() - MAX_LOG_ENTRIES);
        lemma_log_lines_clean(files);
        assert forall|i: int| 0 <= i < kept.len() implies clean_line(#[trigger] kept[i]) by {
            assert(kept[i] == all[i + all.len() - MAX_LOG_ENTRIES]);
        }
        lemma_joined_read_back(kept);
        lemma_log_file_name_is_log(today);
        let single = seq![(log_file_name_of(today), joined_lines(kept))];
        assert(single.drop_last() =~= Seq::<(Seq<char>, Seq<char>)>::empty());
        assert(log_lines_of(single.drop_last()) == Seq::<Seq<char>>::empty());
        assert(single.last().0 == log_file_name_of(today));
        assert(single.last().1 == joined_lines(kept));
        assert(trimmed_nonblank(lines_of(single.last().1)) == kept);
        assert(log_lines_of(single) =~= Seq::<Seq<char>>::empty() + kept);
    }
}

// ----- listing the log -----

/// The entries of the log files among files, in order, keeping the lines
/// selected by the search text.
pub open spec fn log_entries_of(files: Seq<(Seq<char>, Seq<char>)>, search: Seq<char>) -> Seq<LogEntryView>
    decreases files.len(),
{
    if files.len() == 0 {
        Seq::<LogEntryView>::empty()
    } else {
        let r = log_entries_of(files.drop_last(), search);
        if is_log_name(files.last().0) {
            r + entries_from(lines_of(files.last().1), search)
        } else {
            r
        }
    }
}

/// The entries listed from files: the newest first, at most
/// `MAX_LISTED_LOGS` of them.
pub open spec fn listed_entries(files: Seq<(Seq<char>, Seq<char>)>, search: Seq<char>) -> Seq<LogEntryView> {
    let all = log_entries_of(files, search);
    all.reverse().take(if all.len() < MAX_LISTED_LOGS { all.len() as int } else { MAX_LISTED_LOGS as int })
}

impl Logger {
    /// Lists the entries of the log files among the files of the log
    /// directory (name and text, in name order): the newest first, at most
    /// `MAX_LISTED_LOGS`, keeping the lines that contain the search text
    /// (case ignored) when one is given.
    pub fn list_log_entries(&self, files: &Vec<(String, String)>, search: &str) -> (res: Vec<LogEntry>)
        ensures
            entry_views(res@) == listed_entries(file_views(files@), search@),
    {
        let ghost fv = file_views(files@);
        let mut all: Vec<LogEntry> = Vec::new();
        let n = files.len();
        let mut i: usize = 0;
        while i < n
            invariant
                n == files@.len(),
                i <= n,
                fv == file_views(files@),
                entry_views(all@) == log_entries_of(fv.take(i as int), search@),
            decreases n - i,
        {
            assert(fv.take(i + 1).drop_last() =~= fv.take(i as int));
            let name = &files[i].0;
            let content = &files[i].1;
            if is_log_file_name(name.as_str()) {
                let ghost before = entry_views(all@);
                let mut more = self.read_log_entries(content.as_str(), search);
                let ghost added = entry_views(more@);
                all.append(&mut more);
                assert(entry_views(all@) =~= before + added);
            }
            i = i + 1;
        }
        assert(fv.take(n as int) =~= fv);
        latest_logs(all)
    }
}

/// The lines of a text that ends in a line feed, followed by one more line
/// and its line feed, are the text's lines and that line.
proof fn lemma_lines_append(c: Seq<char>, body: Seq<char>)
    requires
        c.len() == 0 || c.last() == '\n',
        !body.contains('\n'),
        body.len() == 0 || body.last() != '\r',
    ensures
        lines_of(c + body + seq!['\n']).len() > 0,
        lines_of(c + body + seq!['\n']).last() == body,
        lines_of(c + body + seq!['\n']).drop_last() == lines_of(c),
{
    crate::text::lemma_split_seq_len(c, '\n');
    let p = split_seq(c, '\n');
    if c.len() == 0 {
        assert(p =~= seq![Seq::<char>::empty()]);
    } else {
        crate::text::lemma_split_seq_len(c.drop_last(), '\n');
        assert(p == split_seq(c.drop_last(), '\n').push(Seq::<char>::empty()));
    }
    assert(p.last().len() == 0);
    crate::text::lemma_split_extend(c, body, '\n');
    let q = split_seq(c + body, '\n');
    assert(q == p.update(p.len() - 1, p.last() + body));
    assert(p.last() + body =~= body);
    crate::text::lemma_split_append(c + body, Seq::<char>::empty(), '\n');
    assert(c + body + seq!['\n'] =~= (c + body) + seq!['\n'] + Seq::<char>::empty());
    let r = split_seq(c + body + seq!['\n'], '\n');
    assert(r == q.push(Seq::<char>::empty()));
    assert(lines_of(c + body + seq!['\n']).drop_last() =~= lines_of(c));
}

/// A line the logger writes to the last log file is what the log lists
/// first (nothing is searched for): its time, the level after a `[`, and
/// the trimmed message's parts before and after its first " | ".
pub proof fn lemma_written_line_listed_first(
    files: Seq<(Seq<char>, Seq<char>)>,
    before: Seq<char>,
    time: Seq<char>,
    level: Seq<char>,
    msg: Seq<char>,
)
    requires
        files.len() > 0,
        is_log_name(files.last().0),
        files.last().1 == before + log_line(time, level, msg),
        before.len() == 0 || before.last() == '\n',
        !time.contains(']'),
        !time.contains('\n'),
        !level.contains(']'),
        !level.contains('\n'),
        !msg.contains('\n'),
        !msg.contains('\r'),
        bordered(time),
        bordered(level),
        time.len() == 0 || time[0] != '[',
    ensures
        listed_entries(files, Seq::<char>::empty()).len() > 0,
        listed_entries(files, Seq::<char>::empty())[0] == (LogEntryView {
            timestamp: time,
            level: "["@ + level,
            file_path: path_part(trim_seq(msg)),
            detail: detail_part(trim_seq(msg)),
        }),
{
    lemma_log_line_read_back(time, level, msg);
    let body = line_body(time, level, msg);
    reveal_strlit("\n");
    assert(log_line(time, level, msg) =~= body + seq!['\n']) by {
        reveal_strlit("[");
        reveal_strlit("] [");
        reveal_strlit("] ");
    }
    // the written line reads back as its body alone, so the body holds no
    // line feed and does not end in a carriage return
    crate::text::lemma_lines_lack_feed(log_line(time, level, msg));
    assert(lines_of(log_line(time, level, msg))[0] == body);
    assert(body.len() == 0 || body.last() != '\r');
    let text = before + log_line(time, level, msg);
    assert(text =~= before + body + seq!['\n']);
    lemma_lines_append(before, body);
    let ls = lines_of(text);
    assert(ls =~= ls.drop_last().push(body));
    assert(line_selected(body, Seq::<char>::empty()));
    let es = entries_from(ls, Seq::<char>::empty());
    assert(es == entries_from(ls.drop_last(), Seq::<char>::empty()).push(parsed_log_line(body)));
    let r = log_entries_of(files.drop_last(), Seq::<char>::empty());
    let all = log_entries_of(files, Seq::<char>::empty());
    assert(all == r + es);
    assert(all.last() == parsed_log_line(body));
    assert(all.reverse()[0] == all.last());
}

} // verus!
