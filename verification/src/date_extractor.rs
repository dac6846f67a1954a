//! Choosing the date a spreadsheet is archived under.

use vstd::prelude::*;
use crate::date_utils::{
    CalendarDate, ExtractedDate, ExtractedView, at, first_date, parse_date, parsed_date, prev_date,
    valid, yesterday_of, today_local,
};
use crate::text::str_eq;

verus! {

/// The date a spreadsheet is archived under, given today's date: the date in
/// its date column, with the precision the rule forces ("day" or "month",
/// anything else keeps the precision it was read with); yesterday when the
/// rule names no date column or the column gives no date.
pub open spec fn extracted_date(
    today: CalendarDate,
    date_column: Seq<char>,
    raw_value: Option<Seq<char>>,
    force_precision: Seq<char>,
) -> ExtractedView {
    let fallback = at(prev_date(today), "day"@);
    if date_column.len() == 0 {
        fallback
    } else {
        match raw_value {
            None => fallback,
            Some(raw) => match parsed_date(raw) {
                None => fallback,
                Some(e) => at(
                    e.date,
                    if force_precision == "day"@ {
                        "day"@
                    } else if force_precision == "month"@ {
                        "month"@
                    } else {
                        e.precision
                    },
                ),
            },
        }
    }
}

/// The characters of an optional cell value.
pub open spec fn raw_view(raw_value: Option<String>) -> Option<Seq<char>> {
    match raw_value {
        Some(s) => Some(s@),
        None => None,
    }
}

/// The date a spreadsheet is archived under, given today's date and the
/// first value of its date column (read only when the rule names one).
pub fn extract_date_on(
    today: CalendarDate,
    date_column: &str,
    raw_value: Option<String>,
    force_precision: &str,
) -> (res: ExtractedDate)
    requires
        valid(today),
        today != first_date(),
    ensures
        res@ == extracted_date(today, date_column@, raw_view(raw_value), force_precision@),
        valid(res.date_value),
{
    if date_column.is_empty() {
        return yesterday_of(today);
    }
    let raw_str = match raw_value {
        Some(v) => v,
        None => return yesterday_of(today),
    };
    let extracted = match parse_date(raw_str.as_str()) {
        Some(e) => e,
        None => return yesterday_of(today),
    };
    let mut result = extracted;
    if str_eq(force_precision, "day") {
        result.precision = String::from_str("day");
    } else if str_eq(force_precision, "month") {
        result.precision = String::from_str("month");
    }
    result
}

/// The date a spreadsheet is archived under, with today's date from the
/// local clock; none when the clock cannot be read as a date.
pub fn extract_date(date_column: &str, raw_value: Option<String>, force_precision: &str) -> (res: Option<ExtractedDate>)
    ensures
        res matches Some(e) ==> valid(e.date_value) && exists|today: CalendarDate|
            valid(today) && today.year >= 1969 && e@ == extracted_date(
                today,
                date_column@,
                raw_view(raw_value),
                force_precision@,
            ),
{
    match today_local() {
        Some(today) => Some(extract_date_on(today, date_column, raw_value, force_precision)),
        None => None,
    }
}

/// The date a spreadsheet is archived under has day or month precision,
/// and the rule's forced precision when it forces one.
pub proof fn lemma_extracted_precision(
    today: CalendarDate,
    date_column: Seq<char>,
    raw_value: Option<Seq<char>>,
    force_precision: Seq<char>,
)
    ensures
        ({
            let e = extracted_date(today, date_column, raw_value, force_precision);
            &&& e.precision == "day"@ || e.precision == "month"@
            &&& (date_column.len() > 0 && raw_value is Some && parsed_date(raw_value.unwrap()) is Some
                && (force_precision == "day"@ || force_precision == "month"@))
                ==> e.precision == force_precision
        }),
{
    if raw_value is Some {
        crate::date_utils::lemma_parsed_date_precision(raw_value.unwrap());
    }
}

} // verus!
