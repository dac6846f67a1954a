//! Dates read from spreadsheet cells, and how they are written back out.

use vstd::prelude::*;
use chrono::Datelike;
use crate::text::{
    pow10, all_digits, digits_value, is_digit,
    trim_seq, trim_str, parsed_i64, parsed_i32, parsed_u32, decimal, parse_i64, parse_i32,
    parse_u32, i64_to_string, count_char, first_index, sole_part_before, zero_padded,
    zero_padded_seq, replace_all, replace_str, first_match, lemma_replace_absent,
};

verus! {

/// The first year a date can have.
pub const MIN_YEAR: i32 = -262143;

/// The last year a date can have.
pub const MAX_YEAR: i32 = 262142;

/// A day of the proleptic Gregorian calendar.
#[derive(Clone, Copy, Debug, PartialEq, Eq, Structural)]
pub struct CalendarDate {
    pub year: i32,
    pub month: u32,
    pub day: u32,
}

/// A date found in a spreadsheet, with the precision it was given at:
/// "day" or "month".
#[derive(Debug)]
pub struct ExtractedDate {
    pub date_value: CalendarDate,
    pub precision: String,
}

/// The value of an `ExtractedDate`.
pub struct ExtractedView {
    pub date: CalendarDate,
    pub precision: Seq<char>,
}

impl View for ExtractedDate {
    type V = ExtractedView;

    open spec fn view(&self) -> ExtractedView {
        ExtractedView { date: self.date_value, precision: self.precision@ }
    }
}

impl Clone for ExtractedDate {
    fn clone(&self) -> (res: Self)
        ensures
            res@ == self@,
    {
        ExtractedDate { date_value: self.date_value, precision: self.precision.clone() }
    }
}

/// The value of an optional `ExtractedDate`.
pub open spec fn opt_view(e: Option<ExtractedDate>) -> Option<ExtractedView> {
    match e {
        Some(x) => Some(x@),
        None => None,
    }
}

// ----- the calendar -----

/// Leap years of the proleptic Gregorian calendar.
pub open spec fn is_leap_year(y: int) -> bool {
    (y % 4 == 0 && y % 100 != 0) || y % 400 == 0
}

/// The number of days of a month.
pub open spec fn days_in_month(y: int, m: int) -> int {
    if m == 2 {
        if is_leap_year(y) { 29 } else { 28 }
    } else if m == 4 || m == 6 || m == 9 || m == 11 {
        30
    } else {
        31
    }
}

/// A day that exists and lies in the representable years.
pub open spec fn is_valid_date(y: int, m: int, d: int) -> bool {
    &&& MIN_YEAR <= y <= MAX_YEAR
    &&& 1 <= m <= 12
    &&& 1 <= d <= days_in_month(y, m)
}

/// `is_valid_date` of a `CalendarDate`.
pub open spec fn valid(d: CalendarDate) -> bool {
    is_valid_date(d.year as int, d.month as int, d.day as int)
}

/// The first representable day.
pub open spec fn first_date() -> CalendarDate {
    CalendarDate { year: MIN_YEAR, month: 1, day: 1 }
}

/// The day before a date.
pub open spec fn prev_date(d: CalendarDate) -> CalendarDate {
    if d.day > 1 {
        CalendarDate { year: d.year, month: d.month, day: (d.day - 1) as u32 }
    } else if d.month > 1 {
        CalendarDate {
            year: d.year,
            month: (d.month - 1) as u32,
            day: days_in_month(d.year as int, d.month - 1) as u32,
        }
    } else {
        CalendarDate { year: (d.year - 1) as i32, month: 12, day: 31 }
    }
}

/// The day before a valid date other than the first is valid.
pub proof fn lemma_prev_date_valid(d: CalendarDate)
    requires
        valid(d),
        d != first_date(),
    ensures
        valid(prev_date(d)),
{
}

/// The day `n` days before `d`, or `None` when it would precede the first
/// representable day.
pub open spec fn days_before(d: CalendarDate, n: nat) -> Option<CalendarDate>
    decreases n,
{
    if n == 0 {
        Some(d)
    } else {
        match days_before(d, (n - 1) as nat) {
            Some(e) => if e == first_date() { None } else { Some(prev_date(e)) },
            None => None,
        }
    }
}

/// Chronological order of dates: by year, then month, then day.
pub open spec fn date_le(a: CalendarDate, b: CalendarDate) -> bool {
    ||| a.year < b.year
    ||| (a.year == b.year && a.month < b.month)
    ||| (a.year == b.year && a.month == b.month && a.day <= b.day)
}

/// Whether `a` is on or before `b`.
pub fn date_on_or_before(a: CalendarDate, b: CalendarDate) -> (res: bool)
    ensures
        res == date_le(a, b),
{
    a.year < b.year || (a.year == b.year && a.month < b.month) || (a.year == b.year && a.month
        == b.month && a.day <= b.day)
}

// ----- chrono and the clock -----

/// What `chrono::NaiveDate::parse_from_str` reads from a string with a
/// format. Its result follows chrono's strftime parser.
pub uninterp spec fn chrono_parsed(s: Seq<char>, fmt: Seq<char>) -> Option<CalendarDate>;

/// Calls `chrono::NaiveDate::from_ymd_opt`, which gives a date exactly when
/// the day exists and its year is representable.
#[verifier::external_body]
pub(crate) fn from_ymd(year: i32, month: u32, day: u32) -> (res: Option<CalendarDate>)
    ensures
        res == (if is_valid_date(year as int, month as int, day as int) {
            Some(CalendarDate { year, month, day })
        } else {
            None
        }),
{
    chrono::NaiveDate::from_ymd_opt(year, month, day).map(
        |d| CalendarDate { year: d.year(), month: d.month(), day: d.day() },
    )
}

/// Calls `chrono::NaiveDate::parse_from_str`. What it reads is named, not
/// stated; what is stated is that any date it gives exists.
#[verifier::external_body]
pub(crate) fn parse_with_format(s: &str, fmt: &str) -> (res: Option<CalendarDate>)
    ensures
        res == chrono_parsed(s@, fmt@),
        res matches Some(d) ==> valid(d),
{
    chrono::NaiveDate::parse_from_str(s, fmt).ok().map(
        |d| CalendarDate { year: d.year(), month: d.month(), day: d.day() },
    )
}

/// Calls `chrono::NaiveDate::checked_sub_signed` with `TimeDelta::days(n)`:
/// the date `n` days earlier, `None` when it is not representable.
#[verifier::external_body]
pub(crate) fn sub_days(d: CalendarDate, n: u32) -> (res: Option<CalendarDate>)
    requires
        valid(d),
    ensures
        res == days_before(d, n as nat),
{
    let date = chrono::NaiveDate::from_ymd_opt(d.year, d.month, d.day).unwrap();
    date.checked_sub_signed(chrono::TimeDelta::days(n as i64)).map(
        |e| CalendarDate { year: e.year(), month: e.month(), day: e.day() },
    )
}

/// Reads the system clock with `std::time::SystemTime::now`, turns its
/// whole seconds since the Unix epoch into a time with chrono's
/// `DateTime::from_timestamp`, and takes that time's date in the local time
/// zone (`with_timezone(&chrono::Local)`). Gives none when the clock is
/// before the Unix epoch or beyond chrono's range. The date varies with the
/// clock; what holds of every date given is that it is valid and no earlier
/// than 1969 (a time from the epoch on, moved by a local offset of less
/// than a day). Left unsaid: chrono's local offset lookup panics when the
/// system's time-zone data yields no time type for the moment.
#[verifier::external_body]
pub(crate) fn today_local() -> (res: Option<CalendarDate>)
    ensures
        res matches Some(d) ==> valid(d) && d.year >= 1969,
{
    let since = std::time::SystemTime::now().duration_since(std::time::UNIX_EPOCH).ok()?;
    let secs = i64::try_from(since.as_secs()).ok()?;
    let d = chrono::DateTime::from_timestamp(secs, 0)?.with_timezone(&chrono::Local).date_naive();
    Some(CalendarDate { year: d.year(), month: d.month(), day: d.day() })
}

/// Today's date in the local time zone, by the system clock; none when the
/// clock cannot be read as a date. A date given is valid and no earlier
/// than 1969.
pub fn today() -> (res: Option<CalendarDate>)
    ensures
        res matches Some(d) ==> valid(d) && d.year >= 1969,
{
    today_local()
}

// ----- regular expressions -----

/// What `regex_lite` finds for a pattern in a text: `None` when the pattern
/// does not compile or does not match, else the leftmost match's groups
/// (group 0 the whole match), each `None` when it did not take part.
pub uninterp spec fn regex_captures_of(pattern: Seq<char>, text: Seq<char>) -> Option<Seq<Option<Seq<char>>>>;

/// The characters of each captured group.
pub open spec fn group_views(groups: Seq<Option<String>>) -> Seq<Option<Seq<char>>> {
    groups.map_values(|g: Option<String>| match g {
        Some(x) => Some(x@),
        None => None,
    })
}

/// The text of the regular expression that finds a Chinese full date.
pub open spec fn full_date_regex() -> Seq<char> { "(\\d{4})年(\\d{1,2})月(\\d{1,2})日"@ }

/// A Chinese full date `y年m月d日`.
pub open spec fn chinese_date_seq(y: Seq<char>, m: Seq<char>, d: Seq<char>) -> Seq<char> {
    y + "年"@ + m + "月"@ + d + "日"@
}

/// The groups of a match of the Chinese full-date pattern on `y年m月d日`:
/// the whole date, then the year, the month and the day.
pub open spec fn chinese_date_groups(y: Seq<char>, m: Seq<char>, d: Seq<char>) -> Seq<Option<Seq<char>>> {
    seq![Some(chinese_date_seq(y, m, d)), Some(y), Some(m), Some(d)]
}

/// `text` is `p`, a Chinese full date `y年m月d日` and `rest`, where `p` holds
/// no ASCII digit, `y` is four ASCII digits and `m` and `d` are one or two.
pub open spec fn chinese_date_text(
    text: Seq<char>,
    p: Seq<char>,
    y: Seq<char>,
    m: Seq<char>,
    d: Seq<char>,
    rest: Seq<char>,
) -> bool {
    &&& forall|i: int| 0 <= i < p.len() ==> !is_digit(#[trigger] p[i])
    &&& y.len() == 4 && all_digits(y)
    &&& 1 <= m.len() <= 2 && all_digits(m)
    &&& 1 <= d.len() <= 2 && all_digits(d)
    &&& text == p + chinese_date_seq(y, m, d) + rest
}

/// The groups of what a search found, by their characters.
pub open spec fn found_groups(res: Option<Vec<Option<String>>>) -> Option<Seq<Option<Seq<char>>>> {
    match res {
        Some(v) => Some(group_views(v@)),
        None => None,
    }
}

/// With the full-date pattern, `found` is, for a text that holds a Chinese
/// full date after a part with no ASCII digit, that date and its fields.
pub open spec fn finds_chinese_dates(pattern: Seq<char>, text: Seq<char>, found: Option<Seq<Option<Seq<char>>>>) -> bool {
    pattern == full_date_regex() ==> forall|p: Seq<char>, y: Seq<char>, m: Seq<char>, d: Seq<char>, rest: Seq<char>|
        #[trigger] chinese_date_text(text, p, y, m, d, rest) ==> found == Some(chinese_date_groups(y, m, d))
}

/// Calls `regex_lite::Regex::new` and `Regex::captures`, copying the groups.
/// Beyond naming the result, the contract states one case that the crate's
/// documentation settles: `\d` is ASCII `[0-9]` there, and `captures`
/// reports the first (leftmost) match, so the pattern
/// `(\d{4})年(\d{1,2})月(\d{1,2})日` on a text whose part before a Chinese
/// full date holds no ASCII digit matches that date, with the year, month
/// and day as groups 1 to 3.
#[verifier::external_body]
fn regex_captures(pattern: &str, text: &str) -> (res: Option<Vec<Option<String>>>)
    ensures
        match res {
            Some(v) => regex_captures_of(pattern@, text@) == Some(group_views(v@)),
            None => regex_captures_of(pattern@, text@) == None::<Seq<Option<Seq<char>>>>,
        },
        finds_chinese_dates(pattern@, text@, found_groups(res)),
{
    let re = regex_lite::Regex::new(pattern).ok()?;
    let caps = re.captures(text)?;
    Some(caps.iter().map(|m| m.map(|m| m.as_str().to_string())).collect())
}

/// Group `i`, read as a `u32`.
pub open spec fn group_u32(groups: Seq<Option<Seq<char>>>, i: int) -> Option<u32> {
    if 0 <= i < groups.len() {
        match groups[i] {
            Some(g) => parsed_u32(g),
            None => None,
        }
    } else {
        None
    }
}

/// Group `i`, read as an `i32`.
pub open spec fn group_i32(groups: Seq<Option<Seq<char>>>, i: int) -> Option<i32> {
    if 0 <= i < groups.len() {
        match groups[i] {
            Some(g) => parsed_i32(g),
            None => None,
        }
    } else {
        None
    }
}

fn read_group_u32(groups: &Vec<Option<String>>, i: usize) -> (res: Option<u32>)
    ensures
        res == group_u32(group_views(groups@), i as int),
{
    if i < groups.len() {
        match &groups[i] {
            Some(g) => parse_u32(g.as_str()),
            None => None,
        }
    } else {
        None
    }
}

fn read_group_i32(groups: &Vec<Option<String>>, i: usize) -> (res: Option<i32>)
    ensures
        res == group_i32(group_views(groups@), i as int),
{
    if i < groups.len() {
        match &groups[i] {
            Some(g) => parse_i32(g.as_str()),
            None => None,
        }
    } else {
        None
    }
}

// ----- reading a date -----

/// A date with a precision.
pub open spec fn at(d: CalendarDate, precision: Seq<char>) -> ExtractedView {
    ExtractedView { date: d, precision: precision }
}

/// A date read with one chrono format, given the precision.
pub open spec fn by_format(s: Seq<char>, fmt: Seq<char>, precision: Seq<char>) -> Option<ExtractedView> {
    match chrono_parsed(s, fmt) {
        Some(d) => Some(at(d, precision)),
        None => None,
    }
}

/// An integer of eight digits read as YYYYMMDD (a day), or of six digits
/// read as YYYYMM (a month).
pub open spec fn numeric_date(v: Seq<char>) -> Option<ExtractedView> {
    match parsed_i64(v) {
        Some(num) => {
            let s = decimal(num as int);
            if s.len() == 8 && by_format(s, "%Y%m%d"@, "day"@) is Some {
                by_format(s, "%Y%m%d"@, "day"@)
            } else if s.len() == 6 {
                by_format(s + "01"@, "%Y%m%d"@, "month"@)
            } else {
                None
            }
        },
        None => None,
    }
}

/// A range "start~end": its start, read as YYYY-MM-DD, gives the month.
pub open spec fn range_date(v: Seq<char>) -> Option<ExtractedView> {
    if count_char(v, '~') == 1 {
        by_format(v.take(first_index(v, '~')), "%Y-%m-%d"@, "month"@)
    } else {
        None
    }
}

/// The outcome of one attempt that can also end the search.
pub enum Attempt {
    Found(ExtractedView),
    GiveUp,
    Next,
}

/// The pattern of a Chinese full date, found anywhere in the text.
pub open spec fn chinese_day_pattern() -> Seq<char> {
    "(\\d{4})年(\\d{1,2})月(\\d{1,2})日"@
}

/// The pattern of a Chinese month at the end of the text.
pub open spec fn chinese_month_pattern() -> Seq<char> {
    "(\\d{4})年(\\d{1,2})月$"@
}

/// A Chinese full date: a group that cannot be read as a number ends the
/// search; a day that does not exist passes to the next attempt.
pub open spec fn chinese_day_attempt(v: Seq<char>) -> Attempt {
    match regex_captures_of(chinese_day_pattern(), v) {
        None => Attempt::Next,
        Some(g) => match (group_u32(g, 1), group_u32(g, 2), group_u32(g, 3)) {
            (Some(y), Some(m), Some(d)) => if is_valid_date((y as i32) as int, m as int, d as int) {
                Attempt::Found(at(CalendarDate { year: y as i32, month: m, day: d }, "day"@))
            } else {
                Attempt::Next
            },
            _ => Attempt::GiveUp,
        },
    }
}

/// The three formats of a full date, tried in order.
pub open spec fn formats_date(v: Seq<char>) -> Option<ExtractedView> {
    if by_format(v, "%Y-%m-%d"@, "day"@) is Some {
        by_format(v, "%Y-%m-%d"@, "day"@)
    } else if by_format(v, "%Y/%m/%d"@, "day"@) is Some {
        by_format(v, "%Y/%m/%d"@, "day"@)
    } else {
        by_format(v, "%Y年%m月%d日"@, "day"@)
    }
}

/// A month "YYYY-MM", read by appending the first day.
pub open spec fn padded_month_date(v: Seq<char>) -> Option<ExtractedView> {
    by_format(v + "-01"@, "%Y-%m-%d"@, "month"@)
}

/// A Chinese month at the end of the text.
pub open spec fn chinese_month_date(v: Seq<char>) -> Option<ExtractedView> {
    match regex_captures_of(chinese_month_pattern(), v) {
        None => None,
        Some(g) => match (group_i32(g, 1), group_u32(g, 2)) {
            (Some(y), Some(m)) => if is_valid_date(y as int, m as int, 1) {
                Some(at(CalendarDate { year: y, month: m, day: 1 }, "month"@))
            } else {
                None
            },
            _ => None,
        },
    }
}

/// The date a cell value gives, each form tried in turn on the trimmed
/// value: a number, a range, a Chinese full date, the full-date formats, a
/// month, a Chinese month.
pub open spec fn parsed_date(value: Seq<char>) -> Option<ExtractedView> {
    let v = trim_seq(value);
    if v.len() == 0 {
        None
    } else if numeric_date(v) is Some {
        numeric_date(v)
    } else if range_date(v) is Some {
        range_date(v)
    } else {
        match chinese_day_attempt(v) {
            Attempt::Found(e) => Some(e),
            Attempt::GiveUp => None,
            Attempt::Next => if formats_date(v) is Some {
                formats_date(v)
            } else if padded_month_date(v) is Some {
                padded_month_date(v)
            } else {
                chinese_month_date(v)
            },
        }
    }
}

fn with_precision(d: CalendarDate, precision: &str) -> (res: ExtractedDate)
    ensures
        res@ == at(d, precision@),
{
    ExtractedDate { date_value: d, precision: String::from_str(precision) }
}

fn numeric_value(v: &str) -> (res: Option<ExtractedDate>)
    ensures
        res matches Some(e) ==> valid(e.date_value),
        opt_view(res) == numeric_date(v@),
{
    match parse_i64(v) {
        Some(num) => {
            let s = i64_to_string(num);
            let len = s.as_str().unicode_len();
            if len == 8 {
                if let Some(d) = parse_with_format(s.as_str(), "%Y%m%d") {
                    return Some(with_precision(d, "day"));
                }
            }
            if len == 6 {
                let mut formatted = s.clone();
                formatted.append("01");
                return match parse_with_format(formatted.as_str(), "%Y%m%d") {
                    Some(d) => Some(with_precision(d, "month")),
                    None => None,
                };
            }
            None
        },
        None => None,
    }
}

fn range_value(v: &str) -> (res: Option<ExtractedDate>)
    ensures
        res matches Some(e) ==> valid(e.date_value),
        opt_view(res) == range_date(v@),
{
    match sole_part_before(v, '~') {
        Some(first) => match parse_with_format(first.as_str(), "%Y-%m-%d") {
            Some(d) => Some(with_precision(d, "month")),
            None => None,
        },
        None => None,
    }
}

fn chinese_day_value(v: &str) -> (res: Result<Option<ExtractedDate>, ()>)
    ensures
        res matches Ok(Some(e)) ==> valid(e.date_value),
        match chinese_day_attempt(v@) {
            Attempt::Found(e) => res matches Ok(Some(x)) && x@ == e,
            Attempt::GiveUp => res is Err,
            Attempt::Next => res matches Ok(None),
        },
        forall|p: Seq<char>, y: Seq<char>, m: Seq<char>, d: Seq<char>, rest: Seq<char>|
            #[trigger] chinese_date_text(v@, p, y, m, d, rest) ==> regex_captures_of(chinese_day_pattern(), v@)
                == Some(chinese_date_groups(y, m, d)),
{
    match regex_captures("(\\d{4})年(\\d{1,2})月(\\d{1,2})日", v) {
        None => Ok(None),
        Some(groups) => {
            let y = match read_group_u32(&groups, 1) {
                Some(y) => y,
                None => return Err(()),
            };
            let m = match read_group_u32(&groups, 2) {
                Some(m) => m,
                None => return Err(()),
            };
            let d = match read_group_u32(&groups, 3) {
                Some(d) => d,
                None => return Err(()),
            };
            match from_ymd(y as i32, m, d) {
                Some(date) => Ok(Some(with_precision(date, "day"))),
                None => Ok(None),
            }
        },
    }
}

fn formats_value(v: &str) -> (res: Option<ExtractedDate>)
    ensures
        res matches Some(e) ==> valid(e.date_value),
        opt_view(res) == formats_date(v@),
{
    if let Some(d) = parse_with_format(v, "%Y-%m-%d") {
        return Some(with_precision(d, "day"));
    }
    if let Some(d) = parse_with_format(v, "%Y/%m/%d") {
        return Some(with_precision(d, "day"));
    }
    match parse_with_format(v, "%Y年%m月%d日") {
        Some(d) => Some(with_precision(d, "day")),
        None => None,
    }
}

fn padded_month_value(v: &str) -> (res: Option<ExtractedDate>)
    ensures
        res matches Some(e) ==> valid(e.date_value),
        opt_view(res) == padded_month_date(v@),
{
    let mut padded = String::from_str(v);
    padded.append("-01");
    match parse_with_format(padded.as_str(), "%Y-%m-%d") {
        Some(d) => Some(with_precision(d, "month")),
        None => None,
    }
}

fn chinese_month_value(v: &str) -> (res: Option<ExtractedDate>)
    ensures
        res matches Some(e) ==> valid(e.date_value),
        opt_view(res) == chinese_month_date(v@),
{
    match regex_captures("(\\d{4})年(\\d{1,2})月$", v) {
        None => None,
        Some(groups) => {
            let y = match read_group_i32(&groups, 1) {
                Some(y) => y,
                None => return None,
            };
            let m = match read_group_u32(&groups, 2) {
                Some(m) => m,
                None => return None,
            };
            match from_ymd(y, m, 1) {
                Some(date) => Some(with_precision(date, "month")),
                None => None,
            }
        },
    }
}

/// Reads a date from a cell value.
pub fn parse_date(value: &str) -> (res: Option<ExtractedDate>)
    ensures
        res matches Some(e) ==> valid(e.date_value) && (e.precision@ == "day"@ || e.precision@ == "month"@),
        opt_view(res) == parsed_date(value@),
        forall|p: Seq<char>, y: Seq<char>, m: Seq<char>, d: Seq<char>, rest: Seq<char>|
            #[trigger] chinese_date_text(trim_seq(value@), p, y, m, d, rest) && count_char(trim_seq(value@), '~') != 1
                && is_valid_date(digits_value(y), digits_value(m), digits_value(d))
                ==> opt_view(res) == Some(at(chinese_named_date(y, m, d), "day"@)),
{
    proof {
        lemma_parsed_date_precision(value@);
    }
    let trimmed = trim_str(value);
    let v = trimmed.as_str();
    proof {
        assert forall|p: Seq<char>, y: Seq<char>, m: Seq<char>, d: Seq<char>, rest: Seq<char>|
            #[trigger] chinese_date_text(v@, p, y, m, d, rest) implies v@.len() > 0 && numeric_date(v@) is None by {
            lemma_chinese_text_not_number(v@, p, y, m, d, rest);
        }
    }
    if v.is_empty() {
        return None;
    }
    let numeric = numeric_value(v);
    if numeric.is_some() {
        return numeric;
    }
    let range = range_value(v);
    if range.is_some() {
        return range;
    }
    let chinese = chinese_day_value(v);
    proof {
        assert forall|p: Seq<char>, y: Seq<char>, m: Seq<char>, d: Seq<char>, rest: Seq<char>|
            #[trigger] chinese_date_text(trim_seq(value@), p, y, m, d, rest) && count_char(trim_seq(value@), '~') != 1
                && is_valid_date(digits_value(y), digits_value(m), digits_value(d))
            implies parsed_date(value@) == Some(at(chinese_named_date(y, m, d), "day"@)) by {
            lemma_chinese_date_read(value@, p, y, m, d, rest);
        }
    }
    match chinese {
        Err(()) => return None,
        Ok(Some(e)) => return Some(e),
        Ok(None) => {},
    }
    let formatted = formats_value(v);
    if formatted.is_some() {
        return formatted;
    }
    let month = padded_month_value(v);
    if month.is_some() {
        return month;
    }
    chinese_month_value(v)
}

/// Reads a date from a cell value (the same as `parse_date`).
pub fn parse_date_from_cell(value: &str) -> (res: Option<ExtractedDate>)
    ensures
        res matches Some(e) ==> valid(e.date_value),
        opt_view(res) == parsed_date(value@),
{
    parse_date(value)
}

// ----- writing a date -----

/// A naming pattern with the date put in: "yyyy", "MM" and "dd" become the
/// zero-padded year, month and day, and "HH", "mm" and "ss" become "00",
/// replaced in that order.
pub open spec fn formatted_date(d: CalendarDate, pattern: Seq<char>) -> Seq<char> {
    let r1 = replace_all(pattern, "yyyy"@, zero_padded_seq(d.year as int, 4));
    let r2 = replace_all(r1, "MM"@, zero_padded_seq(d.month as int, 2));
    let r3 = replace_all(r2, "dd"@, zero_padded_seq(d.day as int, 2));
    let r4 = replace_all(r3, "HH"@, "00"@);
    let r5 = replace_all(r4, "mm"@, "00"@);
    replace_all(r5, "ss"@, "00"@)
}

/// Puts a date into a naming pattern.
pub fn format_date(extracted: &ExtractedDate, pattern: &str) -> (res: String)
    ensures
        res@ == formatted_date(extracted.date_value, pattern@),
{
    proof {
        reveal_strlit("yyyy");
        reveal_strlit("MM");
        reveal_strlit("dd");
        reveal_strlit("HH");
        reveal_strlit("mm");
        reveal_strlit("ss");
    }
    let d = extracted.date_value;
    let year = zero_padded(d.year as i64, 4);
    let month = zero_padded(d.month as i64, 2);
    let day = zero_padded(d.day as i64, 2);
    let r1 = replace_str(pattern, "yyyy", year.as_str());
    let r2 = replace_str(r1.as_str(), "MM", month.as_str());
    let r3 = replace_str(r2.as_str(), "dd", day.as_str());
    let r4 = replace_str(r3.as_str(), "HH", "00");
    let r5 = replace_str(r4.as_str(), "mm", "00");
    replace_str(r5.as_str(), "ss", "00")
}

// ----- yesterday -----

/// The day before `today`, at day precision.
pub fn yesterday_of(today: CalendarDate) -> (res: ExtractedDate)
    requires
        valid(today),
        today != first_date(),
    ensures
        res@ == at(prev_date(today), "day"@),
        valid(res.date_value),
{
    proof {
        lemma_prev_date_valid(today);
    }
    proof {
        reveal_with_fuel(days_before, 2);
    }
    match sub_days(today, 1) {
        Some(d) => with_precision(d, "day"),
        None => with_precision(today, "day"),
    }
}

/// Yesterday, by the local clock, at day precision.
pub fn get_yesterday() -> (res: Option<ExtractedDate>)
    ensures
        res matches Some(y) ==> valid(y.date_value) && exists|today: CalendarDate|
            valid(today) && today.year >= 1969 && y@ == at(prev_date(today), "day"@),
{
    match today_local() {
        Some(today) => Some(yesterday_of(today)),
        None => None,
    }
}

// ----- laws -----

/// A date read from a cell always exists and has day or month precision.
pub proof fn lemma_parsed_date_precision(value: Seq<char>)
    ensures
        parsed_date(value) matches Some(e) ==> (e.precision == "day"@ || e.precision == "month"@),
{
}

/// A string of `k` decimal digits reads as a number below ten to the `k`.
proof fn lemma_digits_value_range(s: Seq<char>)
    requires
        all_digits(s),
    ensures
        0 <= digits_value(s) < pow10(s.len()),
    decreases s.len(),
{
    if s.len() > 0 {
        assert(all_digits(s.drop_last())) by {
            assert forall|i: int| 0 <= i < s.drop_last().len() implies is_digit(#[trigger] s.drop_last()[i]) by {
                assert(is_digit(s[i]));
            }
        }
        assert(is_digit(s[s.len() - 1]));
        lemma_digits_value_range(s.drop_last());
    }
}

/// The date that a Chinese full date `y年m月d日` names.
pub open spec fn chinese_named_date(y: Seq<char>, m: Seq<char>, d: Seq<char>) -> CalendarDate {
    CalendarDate { year: digits_value(y) as i32, month: digits_value(m) as u32, day: digits_value(d) as u32 }
}

/// A text holding a Chinese full date is not empty and is not a number.
proof fn lemma_chinese_text_not_number(
    v: Seq<char>,
    p: Seq<char>,
    y: Seq<char>,
    m: Seq<char>,
    d: Seq<char>,
    rest: Seq<char>,
)
    requires
        chinese_date_text(v, p, y, m, d, rest),
    ensures
        v.len() > 0,
        numeric_date(v) is None,
{
    reveal_strlit("年");
    reveal_strlit("月");
    reveal_strlit("日");
    let k: int = p.len() as int + 4;
    assert(v[k] == '年');
    assert(!is_digit(v[k]));
    assert(!all_digits(v));
    assert(v.drop_first()[k - 1] == v[k]);
    assert(!all_digits(v.drop_first()));
}

/// A value whose trimmed text is `p`, a Chinese full date of a day that
/// exists and `rest` (`p` without ASCII digits, no single `~` in the text)
/// reads as that day, given what the full-date pattern finds there.
proof fn lemma_chinese_date_read(
    value: Seq<char>,
    p: Seq<char>,
    y: Seq<char>,
    m: Seq<char>,
    d: Seq<char>,
    rest: Seq<char>,
)
    requires
        chinese_date_text(trim_seq(value), p, y, m, d, rest),
        count_char(trim_seq(value), '~') != 1,
        is_valid_date(digits_value(y), digits_value(m), digits_value(d)),
        regex_captures_of(chinese_day_pattern(), trim_seq(value)) == Some(chinese_date_groups(y, m, d)),
    ensures
        parsed_date(value) == Some(at(chinese_named_date(y, m, d), "day"@)),
{
    lemma_chinese_text_not_number(trim_seq(value), p, y, m, d, rest);
    lemma_digits_value_range(y);
    lemma_digits_value_range(m);
    lemma_digits_value_range(d);
    reveal_with_fuel(pow10, 5);
    assert(y[0] != '+') by { assert(is_digit(y[0])); }
    assert(m[0] != '+') by { assert(is_digit(m[0])); }
    assert(d[0] != '+') by { assert(is_digit(d[0])); }
    let g = chinese_date_groups(y, m, d);
    assert(group_u32(g, 1) == Some(digits_value(y) as u32));
    assert(group_u32(g, 2) == Some(digits_value(m) as u32));
    assert(group_u32(g, 3) == Some(digits_value(d) as u32));
}

/// A naming pattern without any of the fields "yyyy", "MM", "dd", "HH",
/// "mm" and "ss" is used as it is.
pub proof fn lemma_format_without_fields(d: CalendarDate, pattern: Seq<char>)
    requires
        first_match(pattern, "yyyy"@) == -1,
        first_match(pattern, "MM"@) == -1,
        first_match(pattern, "dd"@) == -1,
        first_match(pattern, "HH"@) == -1,
        first_match(pattern, "mm"@) == -1,
        first_match(pattern, "ss"@) == -1,
    ensures
        formatted_date(d, pattern) == pattern,
{
    reveal_strlit("yyyy");
    reveal_strlit("MM");
    reveal_strlit("dd");
    reveal_strlit("HH");
    reveal_strlit("mm");
    reveal_strlit("ss");
    lemma_replace_absent(pattern, "yyyy"@, zero_padded_seq(d.year as int, 4));
    lemma_replace_absent(pattern, "MM"@, zero_padded_seq(d.month as int, 2));
    lemma_replace_absent(pattern, "dd"@, zero_padded_seq(d.day as int, 2));
    lemma_replace_absent(pattern, "HH"@, "00"@);
    lemma_replace_absent(pattern, "mm"@, "00"@);
    lemma_replace_absent(pattern, "ss"@, "00"@);
}

/// Reading a date ignores white space around the value: a value reads as
/// its trimmed text does, a blank value gives no date, and a date read has
/// day or month precision.
pub proof fn lemma_parse_date_trimmed(value: Seq<char>)
    ensures
        parsed_date(value) == parsed_date(trim_seq(value)),
        crate::text::is_blank(value) ==> parsed_date(value) is None,
        parsed_date(value) matches Some(e) ==> (e.precision == "day"@ || e.precision == "month"@),
{
    crate::text::lemma_trim_idempotent(value);
    lemma_parsed_date_precision(value);
}

/// The order of dates is the calendar's: a later year, or the same year and
/// a later month, or the same month and a later day, comes after; it is a
/// total order (reflexive, antisymmetric, transitive, total).
pub proof fn lemma_date_order(a: CalendarDate, b: CalendarDate, c: CalendarDate)
    ensures
        a.year > b.year ==> !date_le(a, b),
        a.year == b.year && a.month > b.month ==> !date_le(a, b),
        a.year == b.year && a.month == b.month ==> (date_le(a, b) <==> a.day <= b.day),
        date_le(a, a),
        date_le(a, b) && date_le(b, a) ==> a == b,
        date_le(a, b) && date_le(b, c) ==> date_le(a, c),
        date_le(a, b) || date_le(b, a),
{
}

/// The day before a date comes strictly before it.
pub proof fn lemma_prev_date_earlier(d: CalendarDate)
    requires
        valid(d),
        d != first_date(),
    ensures
        date_le(prev_date(d), d),
        !date_le(d, prev_date(d)),
{
}

/// A date some days back comes on or before the date it is counted from,
/// and strictly before it when at least one day is counted.
pub proof fn lemma_days_before_earlier(d: CalendarDate, n: nat)
    requires
        valid(d),
    ensures
        days_before(d, n) matches Some(e) ==> valid(e) && date_le(e, d) && (n > 0 ==> !date_le(d, e)),
    decreases n,
{
    if n > 0 {
        lemma_days_before_earlier(d, (n - 1) as nat);
        match days_before(d, (n - 1) as nat) {
            Some(e) => {
                if e != first_date() {
                    lemma_prev_date_valid(e);
                    lemma_prev_date_earlier(e);
                    lemma_date_order(prev_date(e), e, d);
                    lemma_date_order(d, prev_date(e), e);
                }
            },
            None => {},
        }
    }
}

/// Counting `a` days back and then `b` more is counting `a + b` days back.
pub proof fn lemma_days_before_add(d: CalendarDate, a: nat, b: nat)
    ensures
        days_before(d, a + b) == match days_before(d, a) {
            Some(e) => days_before(e, b),
            None => None,
        },
    decreases b,
{
    if b > 0 {
        lemma_days_before_add(d, a, (b - 1) as nat);
        assert((a + b - 1) as nat == a + (b - 1) as nat);
    }
}

/// Digits are left alone by the replacement of a field that starts with a
/// letter.
proof fn lemma_digits_kept(t: Seq<char>, field: Seq<char>, to: Seq<char>)
    requires
        crate::text::all_digits(t),
        field.len() > 0,
        !crate::text::is_digit(field[0]),
    ensures
        replace_all(t, field, to) == t,
{
    assert forall|i: int| 0 <= i < t.len() implies #[trigger] t[i] != field[0] by {
        assert(crate::text::is_digit(t[i]));
    }
    crate::text::lemma_replace_after(t, Seq::<char>::empty(), field, to);
    assert(t + Seq::<char>::empty() =~= t);
    assert(replace_all(Seq::<char>::empty(), field, to) == Seq::<char>::empty());
}

/// Digits come out of the hour, minute and second fields unchanged.
proof fn lemma_time_fields_keep_digits(t: Seq<char>)
    requires
        crate::text::all_digits(t),
    ensures
        replace_all(replace_all(replace_all(t, "HH"@, "00"@), "mm"@, "00"@), "ss"@, "00"@) == t,
{
    reveal_strlit("HH");
    reveal_strlit("mm");
    reveal_strlit("ss");
    lemma_digits_kept(t, "HH"@, "00"@);
    lemma_digits_kept(t, "mm"@, "00"@);
    lemma_digits_kept(t, "ss"@, "00"@);
}

/// The month field of a naming pattern is always exactly two digits that
/// read back as the month.
pub proof fn lemma_month_field(d: CalendarDate)
    requires
        valid(d),
    ensures
        formatted_date(d, "MM"@) == zero_padded_seq(d.month as int, 2),
        formatted_date(d, "MM"@).len() == 2,
        crate::text::all_digits(formatted_date(d, "MM"@)),
        crate::text::digits_value(formatted_date(d, "MM"@)) == d.month,
{
    reveal_strlit("MM");
    reveal_strlit("yyyy");
    reveal_strlit("dd");
    let m = zero_padded_seq(d.month as int, 2);
    crate::text::lemma_zero_padded(d.month as nat, 2);
    reveal_with_fuel(crate::text::pow10, 3);
    crate::text::lemma_zero_padded_len(d.month as nat, 2);
    assert(replace_all("MM"@, "yyyy"@, zero_padded_seq(d.year as int, 4)) == "MM"@);
    assert("MM"@.skip(2) =~= Seq::<char>::empty());
    assert("MM"@.take(2) =~= "MM"@);
    assert(replace_all(Seq::<char>::empty(), "MM"@, m) == Seq::<char>::empty());
    assert(replace_all("MM"@, "MM"@, m) =~= m + Seq::<char>::empty());
    lemma_digits_kept(m, "dd"@, zero_padded_seq(d.day as int, 2));
    lemma_time_fields_keep_digits(m);
}

/// A pattern "yyyyMMdd" gives, for a year of at most four digits, eight
/// digits that read back as the date: year, month and day.
pub proof fn lemma_compact_date_reads_back(d: CalendarDate)
    requires
        valid(d),
        0 <= d.year <= 9999,
    ensures
        formatted_date(d, "yyyyMMdd"@).len() == 8,
        crate::text::all_digits(formatted_date(d, "yyyyMMdd"@)),
        crate::text::digits_value(formatted_date(d, "yyyyMMdd"@)) == d.year * 10000 + d.month * 100 + d.day,
{
    reveal_strlit("yyyyMMdd");
    reveal_strlit("yyyy");
    reveal_strlit("MM");
    reveal_strlit("dd");
    let y = zero_padded_seq(d.year as int, 4);
    let m = zero_padded_seq(d.month as int, 2);
    let dd = zero_padded_seq(d.day as int, 2);
    crate::text::lemma_zero_padded(d.year as nat, 4);
    crate::text::lemma_zero_padded(d.month as nat, 2);
    crate::text::lemma_zero_padded(d.day as nat, 2);
    reveal_with_fuel(crate::text::pow10, 5);
    crate::text::lemma_zero_padded_len(d.year as nat, 4);
    crate::text::lemma_zero_padded_len(d.month as nat, 2);
    crate::text::lemma_zero_padded_len(d.day as nat, 2);
    let p = "yyyyMMdd"@;
    let rest = seq!['M', 'M', 'd', 'd'];
    // the year
    assert(p.take(4) =~= "yyyy"@);
    assert(p.skip(4) =~= rest);
    assert(replace_all(rest, "yyyy"@, y) == rest) by {
        assert(rest.take(4) != "yyyy"@) by {
            assert(rest.take(4)[0] != "yyyy"@[0]);
        }
        assert(rest.drop_first() =~= seq!['M', 'd', 'd']);
        assert(replace_all(seq!['M', 'd', 'd'], "yyyy"@, y) == seq!['M', 'd', 'd']);
        assert(seq![rest[0]] + seq!['M', 'd', 'd'] =~= rest);
    }
    let r1 = replace_all(p, "yyyy"@, y);
    assert(r1 == y + rest);
    // the month
    assert forall|i: int| 0 <= i < y.len() implies #[trigger] y[i] != "MM"@[0] by {
        assert(crate::text::is_digit(y[i]));
    }
    crate::text::lemma_replace_after(y, rest, "MM"@, m);
    let dd_lit = seq!['d', 'd'];
    assert(rest.take(2) =~= "MM"@);
    assert(rest.skip(2) =~= dd_lit);
    assert(replace_all(dd_lit, "MM"@, m) == dd_lit) by {
        assert(dd_lit.take(2) != "MM"@) by {
            assert(dd_lit.take(2)[0] != "MM"@[0]);
        }
        assert(dd_lit.drop_first() =~= seq!['d']);
        assert(replace_all(seq!['d'], "MM"@, m) == seq!['d']);
        assert(seq![dd_lit[0]] + seq!['d'] =~= dd_lit);
    }
    let r2 = replace_all(r1, "MM"@, m);
    assert(r2 =~= (y + m) + dd_lit);
    // the day
    let ym = y + m;
    assert forall|i: int| 0 <= i < ym.len() implies #[trigger] ym[i] != "dd"@[0] by {
        if i < y.len() {
            assert(crate::text::is_digit(y[i]));
        } else {
            assert(ym[i] == m[i - y.len()]);
            assert(crate::text::is_digit(m[i - y.len()]));
        }
    }
    crate::text::lemma_replace_after(ym, dd_lit, "dd"@, dd);
    assert(dd_lit =~= "dd"@);
    assert(dd_lit.skip(2) =~= Seq::<char>::empty());
    assert(dd_lit.take(2) =~= "dd"@);
    assert(replace_all(Seq::<char>::empty(), "dd"@, dd) == Seq::<char>::empty());
    assert(replace_all(dd_lit, "dd"@, dd) =~= dd + Seq::<char>::empty());
    let r3 = replace_all(r2, "dd"@, dd);
    let t = ym + dd;
    assert(r3 =~= t);
    assert(crate::text::all_digits(t)) by {
        assert forall|i: int| 0 <= i < t.len() implies crate::text::is_digit(#[trigger] t[i]) by {
            if i < y.len() {
                assert(t[i] == y[i]);
            } else if i < y.len() + m.len() {
                assert(t[i] == m[i - y.len()]);
            } else {
                assert(t[i] == dd[i - y.len() - m.len()]);
            }
        }
    }
    lemma_time_fields_keep_digits(t);
    crate::text::lemma_digits_concat(y, m);
    crate::text::lemma_digits_concat(ym, dd);
    assert(pow10(2) == 100) by {
        reveal_with_fuel(crate::text::pow10, 3);
    }
    let yv = crate::text::digits_value(y);
    let mv = crate::text::digits_value(m);
    let dv = crate::text::digits_value(dd);
    assert(crate::text::digits_value(ym) == yv * 100 + mv);
    assert(crate::text::digits_value(t) == (yv * 100 + mv) * 100 + dv);
    assert((yv * 100 + mv) * 100 + dv == yv * 10000 + mv * 100 + dv) by (nonlinear_arith);
}

} // verus!
