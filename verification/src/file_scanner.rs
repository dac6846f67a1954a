//! The decisions of a folder scan: since when files count as new, and
//! which files are new.

use vstd::prelude::*;
use chrono::{Datelike, Timelike};
use crate::config::MonitorFolder;
use crate::date_utils::{CalendarDate, date_le};

verus! {

/// What a scan found: the spreadsheets to process and how many
/// spreadsheets it saw.
#[derive(Debug)]
pub struct ScanResult {
    pub files: Vec<String>,
    pub scanned_count: u32,
}

impl ScanResult {
    /// A scan that has seen nothing yet.
    pub fn new() -> (res: ScanResult)
        ensures
            res.files@.len() == 0,
            res.scanned_count == 0,
    {
        ScanResult { files: Vec::new(), scanned_count: 0 }
    }

    /// Counts a spreadsheet the scan saw, and takes its path when it is new.
    pub fn record_file(&mut self, path: String, is_new: bool)
        requires
            old(self).scanned_count < u32::MAX,
        ensures
            final(self).scanned_count == old(self).scanned_count + 1,
            final(self).files@ == if is_new { old(self).files@.push(path) } else { old(self).files@ },
    {
        self.scanned_count = self.scanned_count + 1;
        if is_new {
            self.files.push(path);
        }
    }
}

/// A date and a time of day, without a time zone.
#[derive(Clone, Copy, Debug, PartialEq, Eq, Structural)]
pub struct Moment {
    pub date: CalendarDate,
    pub hour: u32,
    pub minute: u32,
    pub second: u32,
    pub nanosecond: u32,
}

/// The moment chrono's `NaiveDateTime::default()` stands for:
/// 1970-01-01 00:00:00.
pub open spec fn epoch() -> Moment {
    Moment { date: CalendarDate { year: 1970, month: 1, day: 1 }, hour: 0, minute: 0, second: 0, nanosecond: 0 }
}

/// Strict chronological order of moments.
pub open spec fn moment_lt(a: Moment, b: Moment) -> bool {
    ||| (date_le(a.date, b.date) && a.date != b.date)
    ||| (a.date == b.date && a.hour < b.hour)
    ||| (a.date == b.date && a.hour == b.hour && a.minute < b.minute)
    ||| (a.date == b.date && a.hour == b.hour && a.minute == b.minute && a.second < b.second)
    ||| (a.date == b.date && a.hour == b.hour && a.minute == b.minute && a.second == b.second
        && a.nanosecond < b.nanosecond)
}

/// Whether `a` is strictly before `b`.
pub fn moment_before(a: Moment, b: Moment) -> (res: bool)
    ensures
        res == moment_lt(a, b),
{
    let da = a.date;
    let db = b.date;
    let same_date = da.year == db.year && da.month == db.month && da.day == db.day;
    let date_before = da.year < db.year || (da.year == db.year && da.month < db.month) || (da.year
        == db.year && da.month == db.month && da.day < db.day);
    date_before || (same_date && (a.hour < b.hour || (a.hour == b.hour && a.minute < b.minute) || (
    a.hour == b.hour && a.minute == b.minute && a.second < b.second) || (a.hour == b.hour
        && a.minute == b.minute && a.second == b.second && a.nanosecond < b.nanosecond)))
}

/// What `chrono::NaiveDateTime::parse_from_str` reads from a string with a
/// format.
pub uninterp spec fn chrono_parsed_moment(s: Seq<char>, fmt: Seq<char>) -> Option<Moment>;

/// What chrono's `DateTime::from_timestamp(secs, 0)` gives, as a UTC
/// date and time.
pub uninterp spec fn utc_moment_of(secs: i64) -> Option<Moment>;

/// Calls `chrono::NaiveDateTime::parse_from_str`.
#[verifier::external_body]
fn parse_moment(s: &str, fmt: &str) -> (res: Option<Moment>)
    ensures
        res == chrono_parsed_moment(s@, fmt@),
{
    chrono::NaiveDateTime::parse_from_str(s, fmt).ok().map(
        |t| Moment {
            date: CalendarDate { year: t.year(), month: t.month(), day: t.day() },
            hour: t.hour(),
            minute: t.minute(),
            second: t.second(),
            nanosecond: t.nanosecond(),
        },
    )
}

/// Calls `chrono::DateTime::from_timestamp(secs, 0)` and takes its UTC
/// date and time.
#[verifier::external_body]
fn utc_moment(secs: i64) -> (res: Option<Moment>)
    ensures
        res == utc_moment_of(secs),
{
    chrono::DateTime::from_timestamp(secs, 0).map(|dt| dt.naive_utc()).map(
        |t| Moment {
            date: CalendarDate { year: t.year(), month: t.month(), day: t.day() },
            hour: t.hour(),
            minute: t.minute(),
            second: t.second(),
            nanosecond: t.nanosecond(),
        },
    )
}

/// Since when files count as new: for an incremental scan of a folder with
/// a recorded last scan, that time read with fractional seconds or else
/// without; none for a full scan.
pub open spec fn last_scan_of(last_scan_time: Seq<char>, full_scan: bool) -> Option<Moment> {
    if !full_scan && last_scan_time.len() > 0 {
        match chrono_parsed_moment(last_scan_time, "%Y-%m-%dT%H:%M:%S%.f"@) {
            Some(m) => Some(m),
            None => chrono_parsed_moment(last_scan_time, "%Y-%m-%dT%H:%M:%S"@),
        }
    } else {
        None
    }
}

/// Reads since when files of a folder count as new.
pub fn last_scan_moment(monitor_folder: &MonitorFolder, full_scan: bool) -> (res: Option<Moment>)
    ensures
        res == last_scan_of(monitor_folder@.last_scan_time, full_scan),
{
    let t = monitor_folder.last_scan_time.as_str();
    if !full_scan && !t.is_empty() {
        match parse_moment(t, "%Y-%m-%dT%H:%M:%S%.f") {
            Some(m) => Some(m),
            None => parse_moment(t, "%Y-%m-%dT%H:%M:%S"),
        }
    } else {
        None
    }
}

/// A file is new when there is no last scan, or when it was modified
/// (seconds since the Unix epoch, read as UTC; the epoch itself when out of
/// range) strictly after the last scan; a file whose time cannot be read
/// is not new.
pub open spec fn included(modified_secs: Option<i64>, last_scan: Option<Moment>) -> bool {
    match last_scan {
        None => true,
        Some(t) => match modified_secs {
            None => false,
            Some(secs) => moment_lt(
                t,
                match utc_moment_of(secs) {
                    Some(m) => m,
                    None => epoch(),
                },
            ),
        },
    }
}

/// Whether a file counts as new.
pub fn should_include(modified_secs: Option<i64>, last_scan: Option<Moment>) -> (res: bool)
    ensures
        res == included(modified_secs, last_scan),
{
    let scan_time = match last_scan {
        None => return true,
        Some(t) => t,
    };
    match modified_secs {
        None => false,
        Some(secs) => {
            let file_time = match utc_moment(secs) {
                Some(m) => m,
                None => Moment {
                    date: CalendarDate { year: 1970, month: 1, day: 1 },
                    hour: 0,
                    minute: 0,
                    second: 0,
                    nanosecond: 0,
                },
            };
            moment_before(scan_time, file_time)
        },
    }
}

/// A file counts as today's when the UTC date of its modification time
/// (seconds since the Unix epoch) is the given day.
pub open spec fn modified_on(modified_secs: i64, day: CalendarDate) -> bool {
    utc_moment_of(modified_secs) matches Some(m) && m.date == day
}

/// Whether a file was modified on a given day.
pub fn is_modified_on(modified_secs: i64, day: CalendarDate) -> (res: bool)
    ensures
        res == modified_on(modified_secs, day),
{
    match utc_moment(modified_secs) {
        Some(m) => m.date == day,
        None => false,
    }
}

/// A full scan takes every spreadsheet, whatever the recorded last scan and
/// whenever the file was modified.
pub proof fn lemma_full_scan_takes_all(last_scan_time: Seq<char>, modified_secs: Option<i64>)
    ensures
        last_scan_of(last_scan_time, true) is None,
        included(modified_secs, last_scan_of(last_scan_time, true)),
{
}

/// An incremental scan takes a file only when it was modified strictly
/// after the last scan: never one modified at that very moment or before it.
pub proof fn lemma_incremental_scan_strict(secs: i64, last_scan: Moment)
    requires
        utc_moment_of(secs) matches Some(m) && (m == last_scan || moment_lt(m, last_scan)),
    ensures
        !included(Some(secs), Some(last_scan)),
{
}

} // verus!
