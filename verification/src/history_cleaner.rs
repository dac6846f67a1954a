//! Which dated folders of the data center have aged into its history.

use vstd::prelude::*;
use crate::date_utils::{
    CalendarDate, date_le, date_on_or_before, days_before, from_ymd, is_valid_date, sub_days,
    today_local, valid,
};
use crate::archiver::date_folder_name;
use crate::date_utils::ExtractedView;
use crate::text::{
    parsed_i32, parsed_u32, parse_i32, parse_u32, split_char, split_seq, string_seq_views,
    zero_padded_seq, lemma_zero_padded, lemma_split_single, lemma_split_append, lemma_digits_no_dash,
};

verus! {

/// Folders this many days old or older move to the history.
pub const THRESHOLD_DAYS: u32 = 31;

/// How many folders and files a clean-up moved.
#[derive(Debug, Clone, Copy)]
pub struct CleanResult {
    pub moved_folders: u32,
    pub moved_files: u32,
}

impl CleanResult {
    /// A clean-up that has moved nothing yet.
    pub fn new() -> (res: CleanResult)
        ensures
            res.moved_folders == 0,
            res.moved_files == 0,
    {
        CleanResult { moved_folders: 0, moved_files: 0 }
    }

    /// Counts a folder moved to the history with the files it held.
    pub fn record_moved(&mut self, file_count: u32)
        requires
            old(self).moved_folders < u32::MAX,
            old(self).moved_files + file_count <= u32::MAX,
        ensures
            final(self).moved_folders == old(self).moved_folders + 1,
            final(self).moved_files == old(self).moved_files + file_count,
    {
        self.moved_folders = self.moved_folders + 1;
        self.moved_files = self.moved_files + file_count;
    }
}

/// The date a dated folder is named after: "Y-M-D" names that day,
/// "Y-M" the first day of that month; each part read as an integer.
pub open spec fn folder_date(name: Seq<char>) -> Option<CalendarDate> {
    let parts = split_seq(name, '-');
    if parts.len() == 3 && parsed_i32(parts[0]) is Some && parsed_u32(parts[1]) is Some
        && parsed_u32(parts[2]) is Some {
        let y = parsed_i32(parts[0]).unwrap();
        let m = parsed_u32(parts[1]).unwrap();
        let d = parsed_u32(parts[2]).unwrap();
        if is_valid_date(y as int, m as int, d as int) {
            Some(CalendarDate { year: y, month: m, day: d })
        } else {
            None
        }
    } else if parts.len() == 2 && parsed_i32(parts[0]) is Some && parsed_u32(parts[1]) is Some {
        let y = parsed_i32(parts[0]).unwrap();
        let m = parsed_u32(parts[1]).unwrap();
        if is_valid_date(y as int, m as int, 1) {
            Some(CalendarDate { year: y, month: m, day: 1 })
        } else {
            None
        }
    } else {
        None
    }
}

/// Reads the date a dated folder is named after.
pub fn parse_folder_date(name: &str) -> (res: Option<CalendarDate>)
    ensures
        res == folder_date(name@),
{
    let parts = split_char(name, '-');
    let ghost pv = string_seq_views(parts@);
    assert(pv.len() == parts@.len());
    if parts.len() == 3 {
        assert(pv[0] == parts@[0]@ && pv[1] == parts@[1]@ && pv[2] == parts@[2]@);
        if let (Some(y), Some(m), Some(d)) = (
            parse_i32(parts[0].as_str()),
            parse_u32(parts[1].as_str()),
            parse_u32(parts[2].as_str()),
        ) {
            return from_ymd(y, m, d);
        }
    }
    if parts.len() == 2 {
        assert(pv[0] == parts@[0]@ && pv[1] == parts@[1]@);
        if let (Some(y), Some(m)) = (parse_i32(parts[0].as_str()), parse_u32(parts[1].as_str())) {
            return from_ymd(y, m, 1);
        }
    }
    None
}

/// A folder moves to the history when its name gives a date on or before
/// the threshold.
pub open spec fn folder_due(name: Seq<char>, threshold: CalendarDate) -> bool {
    match folder_date(name) {
        Some(d) => date_le(d, threshold),
        None => false,
    }
}

/// Whether a folder of the sources moves to the history.
pub fn is_folder_due(name: &str, threshold: CalendarDate) -> (res: bool)
    ensures
        res == folder_due(name@, threshold),
{
    match parse_folder_date(name) {
        Some(d) => date_on_or_before(d, threshold),
        None => false,
    }
}

/// The threshold of a clean-up made on a given day: `THRESHOLD_DAYS`
/// days earlier, `None` when that day is not representable.
pub fn threshold_from(today: CalendarDate) -> (res: Option<CalendarDate>)
    requires
        valid(today),
    ensures
        res == days_before(today, THRESHOLD_DAYS as nat),
{
    sub_days(today, THRESHOLD_DAYS)
}

/// The threshold of a clean-up made now, by the local clock.
pub fn clean_threshold() -> (res: Option<CalendarDate>)
    ensures
        res matches Some(t) ==> exists|today: CalendarDate| valid(today) && today.year >= 1969
            && days_before(today, THRESHOLD_DAYS as nat) == Some(t),
{
    match today_local() {
        Some(today) => threshold_from(today),
        None => None,
    }
}

/// A dated folder named by the archiver is read back by the clean-up as the
/// day it names, or, for a month's folder, the first day of that month
/// (years from 0 on: an earlier year is written with a `-`).
pub proof fn lemma_folder_name_round_trip(e: ExtractedView)
    requires
        valid(e.date),
        e.date.year >= 0,
    ensures
        folder_date(date_folder_name(e)) == Some(
            if e.precision == "month"@ {
                CalendarDate { year: e.date.year, month: e.date.month, day: 1 }
            } else {
                e.date
            },
        ),
{
    reveal_strlit("-");
    let y = e.date.year as nat;
    let m = e.date.month as nat;
    let d = e.date.day as nat;
    let ys = zero_padded_seq(y as int, 4);
    let ms = zero_padded_seq(m as int, 2);
    let ds = zero_padded_seq(d as int, 2);
    lemma_zero_padded(y, 4);
    lemma_zero_padded(m, 2);
    lemma_zero_padded(d, 2);
    lemma_digits_no_dash(ys);
    lemma_digits_no_dash(ms);
    lemma_digits_no_dash(ds);
    lemma_split_single(ys, '-');
    lemma_split_append(ys, ms, '-');
    let ym = ys + seq!['-'] + ms;
    assert(ys + "-"@ + ms =~= ym);
    assert(split_seq(ym, '-') =~= seq![ys, ms]);
    lemma_split_append(ym, ds, '-');
    assert(ym + "-"@ + ds =~= ym + seq!['-'] + ds);
    assert(split_seq(ym + seq!['-'] + ds, '-') =~= seq![ys, ms, ds]);
    assert(parsed_i32(ys) == Some(e.date.year));
    assert(parsed_u32(ms) == Some(e.date.month));
    assert(parsed_u32(ds) == Some(e.date.day));
}

/// A folder the archiver made for a date moves to the history exactly when
/// the day it names (the first of the month for a month's folder) is on or
/// before the threshold.
pub proof fn lemma_archived_folder_due(e: ExtractedView, threshold: CalendarDate)
    requires
        valid(e.date),
        e.date.year >= 0,
    ensures
        folder_due(date_folder_name(e), threshold) <==> date_le(
            if e.precision == "month"@ {
                CalendarDate { year: e.date.year, month: e.date.month, day: 1 }
            } else {
                e.date
            },
            threshold,
        ),
{
    lemma_folder_name_round_trip(e);
}

/// What becomes of an item of a dated folder moving into a history folder
/// of the same name.
#[derive(Debug, PartialEq, Eq, Structural)]
pub enum MergeStep {
    /// A folder meets a folder of its name: merge the two the same way.
    Merge,
    /// Nothing of its name is in the history: move it there.
    Move,
    /// A file meets an item of its name: the history keeps its own, and the
    /// file goes with the dated folder when that is removed.
    Keep,
}

/// Decides what becomes of an item when its folder merges into the history.
pub fn merge_step(is_dir: bool, target_exists: bool) -> (res: MergeStep)
    ensures
        res == (if !target_exists {
            MergeStep::Move
        } else if is_dir {
            MergeStep::Merge
        } else {
            MergeStep::Keep
        }),
{
    if !target_exists {
        MergeStep::Move
    } else if is_dir {
        MergeStep::Merge
    } else {
        MergeStep::Keep
    }
}

/// A clean-up moves a dated folder only when its date lies at least
/// `THRESHOLD_DAYS` days back: a folder dated fewer days back than that
/// stays in the sources.
pub proof fn lemma_recent_folder_stays(today: CalendarDate, n: nat, name: Seq<char>, threshold: CalendarDate)
    requires
        valid(today),
        n < THRESHOLD_DAYS,
        days_before(today, THRESHOLD_DAYS as nat) == Some(threshold),
        days_before(today, n) matches Some(f) && folder_date(name) == Some(f),
    ensures
        !folder_due(name, threshold),
{
    let f = days_before(today, n).unwrap();
    let k = (THRESHOLD_DAYS - n) as nat;
    crate::date_utils::lemma_days_before_add(today, n, k);
    assert(n + k == THRESHOLD_DAYS as nat);
    crate::date_utils::lemma_days_before_earlier(today, n);
    crate::date_utils::lemma_days_before_earlier(f, k);
}

} // verus!
