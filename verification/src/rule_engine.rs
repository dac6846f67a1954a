//! Recognising a spreadsheet by its header row.

use vstd::prelude::*;
use crate::config::{AppSettings, Rule, RuleView, string_views, rule_views};
use crate::text::{trim_seq, lowercase_of, trim_str, to_lower, is_ascii_text, ascii_lowered};

verus! {

/// A column name as it is compared: trimmed when white space is ignored,
/// then lower-cased when case is ignored.
pub open spec fn normalized(name: Seq<char>, ignore_case: bool, ignore_space: bool) -> Seq<char> {
    let t = if ignore_space { trim_seq(name) } else { name };
    if ignore_case { lowercase_of(t) } else { t }
}

/// A column name with only ASCII characters as it is compared: trimmed
/// when white space is ignored, then with its capitals lowered when case is
/// ignored.
pub open spec fn ascii_normalized(name: Seq<char>, ignore_case: bool, ignore_space: bool) -> Seq<char> {
    let t = if ignore_space { trim_seq(name) } else { name };
    if ignore_case { ascii_lowered(t) } else { t }
}

/// Every header name, normalized under the settings.
pub open spec fn normalized_all(headers: Seq<Seq<char>>, settings: AppSettings) -> Seq<Seq<char>> {
    headers.map_values(|h: Seq<char>| normalized(h, settings.ignore_case, settings.ignore_space))
}

/// Every feature column, once normalized, is among the normalized headers.
pub open spec fn columns_present(
    cols: Seq<Seq<char>>,
    normalized_headers: Seq<Seq<char>>,
    settings: AppSettings,
) -> bool {
    forall|i: int|
        0 <= i < cols.len() ==> #[trigger] normalized_headers.contains(
            normalized(cols[i], settings.ignore_case, settings.ignore_space),
        )
}

/// A rule recognises a header row.
pub open spec fn rule_fits(rule: RuleView, headers: Seq<Seq<char>>, settings: AppSettings) -> bool {
    columns_present(rule.feature_columns, normalized_all(headers, settings), settings)
}

/// `i` is the position of the first rule that recognises the header row.
pub open spec fn is_first_fit(
    rules: Seq<RuleView>,
    headers: Seq<Seq<char>>,
    settings: AppSettings,
    i: int,
) -> bool {
    &&& 0 <= i < rules.len()
    &&& rule_fits(rules[i], headers, settings)
    &&& forall|j: int| 0 <= j < i ==> !rule_fits(#[trigger] rules[j], headers, settings)
}

/// Normalizes a column name for comparison.
pub fn normalize_column(name: &str, ignore_case: bool, ignore_space: bool) -> (res: String)
    ensures
        res@ == normalized(name@, ignore_case, ignore_space),
        is_ascii_text(name@) ==> res@ == ascii_normalized(name@, ignore_case, ignore_space),
{
    proof {
        if is_ascii_text(name@) {
            crate::text::lemma_trim_ascii(name@);
        }
    }
    let mut result = String::from_str(name);
    if ignore_space {
        result = trim_str(result.as_str());
    }
    if ignore_case {
        result = to_lower(result.as_str());
    }
    result
}

/// Whether a string occurs in a list of strings.
fn contains_string(list: &[String], s: &String) -> (res: bool)
    ensures
        res == string_views(list@).contains(s@),
{
    let n = list.len();
    let mut i: usize = 0;
    while i < n
        invariant
            n == list@.len(),
            i <= n,
            forall|j: int| 0 <= j < i ==> list@[j]@ != s@,
        decreases n - i,
    {
        if list[i] == *s {
            assert(string_views(list@)[i as int] == s@);
            return true;
        }
        i = i + 1;
    }
    assert forall|j: int| 0 <= j < string_views(list@).len() implies string_views(list@)[j] != s@ by {
        assert(list@[j]@ != s@);
    }
    false
}

/// Whether every feature column of the rule, normalized, is among the
/// already normalized headers.
pub fn rule_matches(rule: &Rule, normalized_headers: &[String], settings: &AppSettings) -> (res: bool)
    ensures
        res == columns_present(rule@.feature_columns, string_views(normalized_headers@), *settings),
{
    let n = rule.feature_columns.len();
    let mut i: usize = 0;
    while i < n
        invariant
            n == rule.feature_columns@.len(),
            i <= n,
            forall|j: int|
                0 <= j < i ==> #[trigger] string_views(normalized_headers@).contains(
                    normalized(rule.feature_columns@[j]@, settings.ignore_case, settings.ignore_space),
                ),
        decreases n - i,
    {
        let col = normalize_column(rule.feature_columns[i].as_str(), settings.ignore_case, settings.ignore_space);
        if !contains_string(normalized_headers, &col) {
            assert(rule@.feature_columns[i as int] == rule.feature_columns@[i as int]@);
            return false;
        }
        i = i + 1;
    }
    assert forall|j: int| 0 <= j < rule@.feature_columns.len() implies #[trigger] string_views(normalized_headers@).contains(
        normalized(rule@.feature_columns[j], settings.ignore_case, settings.ignore_space),
    ) by {
        assert(rule@.feature_columns[j] == rule.feature_columns@[j]@);
    }
    true
}

/// Normalizes every header.
fn normalize_headers(headers: &[String], settings: &AppSettings) -> (res: Vec<String>)
    ensures
        string_views(res@) == normalized_all(string_views(headers@), *settings),
{
    let n = headers.len();
    let mut res: Vec<String> = Vec::new();
    let mut i: usize = 0;
    while i < n
        invariant
            n == headers@.len(),
            i <= n,
            res@.len() == i,
            forall|j: int| 0 <= j < i ==> #[trigger] res@[j]@ == normalized(headers@[j]@, settings.ignore_case, settings.ignore_space),
        decreases n - i,
    {
        let h = normalize_column(headers[i].as_str(), settings.ignore_case, settings.ignore_space);
        res.push(h);
        i = i + 1;
    }
    assert(string_views(res@) =~= normalized_all(string_views(headers@), *settings));
    res
}

/// The position of the first rule, in list order, that recognises the
/// header row.
pub fn match_index(headers: &[String], rules: &[Rule], settings: &AppSettings) -> (res: Option<usize>)
    ensures
        match res {
            Some(i) => is_first_fit(rule_views(rules@), string_views(headers@), *settings, i as int),
            None => forall|i: int| 0 <= i < rules@.len() ==> !rule_fits(#[trigger] rules@[i]@, string_views(headers@), *settings),
        },
{
    let ghost hv = string_views(headers@);
    let ghost rv = rule_views(rules@);
    let normalized_headers = normalize_headers(headers, settings);
    let n = rules.len();
    let mut i: usize = 0;
    while i < n
        invariant
            n == rules@.len(),
            i <= n,
            hv == string_views(headers@),
            rv == rule_views(rules@),
            string_views(normalized_headers@) == normalized_all(hv, *settings),
            forall|j: int| 0 <= j < i ==> !rule_fits(#[trigger] rules@[j]@, hv, *settings),
        decreases n - i,
    {
        if rule_matches(&rules[i], normalized_headers.as_slice(), settings) {
            assert forall|j: int| 0 <= j < i implies !rule_fits(#[trigger] rv[j], hv, *settings) by {
                assert(rv[j] == rules@[j]@);
            }
            return Some(i);
        }
        i = i + 1;
    }
    None
}

/// The first rule, in list order, that recognises the header row.
pub fn match_all<'a>(headers: &[String], rules: &'a [Rule], settings: &AppSettings) -> (res: Option<&'a Rule>)
    ensures
        match res {
            Some(r) => exists|i: int| is_first_fit(rule_views(rules@), string_views(headers@), *settings, i)
                && *r == rules@[i],
            None => forall|i: int| 0 <= i < rules@.len() ==> !rule_fits(#[trigger] rules@[i]@, string_views(headers@), *settings),
        },
{
    match match_index(headers, rules, settings) {
        Some(i) => Some(&rules[i]),
        None => None,
    }
}

/// A rule recognises any header row that contains every header of a row it
/// recognises: extra columns never stop a rule from matching.
pub proof fn lemma_extra_headers_keep_match(
    rule: RuleView,
    headers: Seq<Seq<char>>,
    more: Seq<Seq<char>>,
    settings: AppSettings,
)
    requires
        rule_fits(rule, headers, settings),
        forall|i: int| 0 <= i < headers.len() ==> more.contains(#[trigger] headers[i]),
    ensures
        rule_fits(rule, more, settings),
{
    let nh = normalized_all(headers, settings);
    let nm = normalized_all(more, settings);
    assert forall|i: int| 0 <= i < rule.feature_columns.len() implies #[trigger] nm.contains(
        normalized(rule.feature_columns[i], settings.ignore_case, settings.ignore_space),
    ) by {
        let c = normalized(rule.feature_columns[i], settings.ignore_case, settings.ignore_space);
        assert(nh.contains(c));
        let k = choose|k: int| 0 <= k < nh.len() && nh[k] == c;
        assert(more.contains(headers[k]));
        let m = choose|m: int| 0 <= m < more.len() && more[m] == headers[k];
        assert(nm[m] == c);
    }
}

/// A rule without feature columns recognises every header row.
pub proof fn lemma_empty_rule_fits_all(rule: RuleView, headers: Seq<Seq<char>>, settings: AppSettings)
    requires
        rule.feature_columns.len() == 0,
    ensures
        rule_fits(rule, headers, settings),
{
}

/// Normalizing an ASCII column name twice gives what normalizing it once
/// gives, and keeps it ASCII.
pub proof fn lemma_normalize_idempotent(name: Seq<char>, ignore_case: bool, ignore_space: bool)
    requires
        is_ascii_text(name),
    ensures
        is_ascii_text(ascii_normalized(name, ignore_case, ignore_space)),
        ascii_normalized(ascii_normalized(name, ignore_case, ignore_space), ignore_case, ignore_space)
            == ascii_normalized(name, ignore_case, ignore_space),
{
    crate::text::lemma_trim_ascii(name);
    crate::text::lemma_trim_idempotent(name);
    let t = if ignore_space { trim_seq(name) } else { name };
    crate::text::lemma_lower_ascii(t);
    crate::text::lemma_trim_lower_commute(t);
    crate::text::lemma_trim_ascii(t);
    crate::text::lemma_trim_idempotent(t);
}

} // verus!
