//! Character-level helpers on strings, with the std calls they rest on.

use vstd::prelude::*;

verus! {

/// The characters with the Unicode `White_Space` property.
pub open spec fn is_ws(c: char) -> bool {
    ||| ('\u{9}' <= c && c <= '\u{d}')
    ||| c == ' '
    ||| c == '\u{85}'
    ||| c == '\u{a0}'
    ||| c == '\u{1680}'
    ||| ('\u{2000}' <= c && c <= '\u{200a}')
    ||| c == '\u{2028}'
    ||| c == '\u{2029}'
    ||| c == '\u{202f}'
    ||| c == '\u{205f}'
    ||| c == '\u{3000}'
}

/// `s` without its leading white space.
pub open spec fn trim_start_seq(s: Seq<char>) -> Seq<char>
    decreases s.len(),
{
    if s.len() > 0 && is_ws(s[0]) {
        trim_start_seq(s.drop_first())
    } else {
        s
    }
}

/// `s` without its trailing white space.
pub open spec fn trim_end_seq(s: Seq<char>) -> Seq<char>
    decreases s.len(),
{
    if s.len() > 0 && is_ws(s.last()) {
        trim_end_seq(s.drop_last())
    } else {
        s
    }
}

/// `s` without leading and trailing white space.
pub open spec fn trim_seq(s: Seq<char>) -> Seq<char> {
    trim_end_seq(trim_start_seq(s))
}

/// Whether `s` holds only white space.
pub open spec fn is_blank(s: Seq<char>) -> bool {
    trim_seq(s).len() == 0
}

/// What `str::to_lowercase` returns for a string (Unicode case mapping).
pub uninterp spec fn lowercase_of(s: Seq<char>) -> Seq<char>;

/// Whether a character has the Unicode `White_Space` property.
pub(crate) fn is_white_space(c: char) -> (res: bool)
    ensures
        res == is_ws(c),
{
    ('\u{9}' <= c && c <= '\u{d}') || c == ' ' || c == '\u{85}' || c == '\u{a0}' || c == '\u{1680}'
        || ('\u{2000}' <= c && c <= '\u{200a}') || c == '\u{2028}' || c == '\u{2029}' || c == '\u{202f}'
        || c == '\u{205f}' || c == '\u{3000}'
}

/// Removes leading and trailing white space (as `str::trim`).
pub(crate) fn trim_str(s: &str) -> (res: String)
    ensures
        res@ == trim_seq(s@),
{
    let n = s.unicode_len();
    let mut i: usize = 0;
    assert(s@.skip(0) =~= s@);
    while i < n && is_white_space(s.get_char(i))
        invariant
            n == s@.len(),
            i <= n,
            trim_start_seq(s@) == trim_start_seq(s@.skip(i as int)),
        decreases n - i,
    {
        assert(s@.skip(i as int).drop_first() =~= s@.skip(i + 1));
        i = i + 1;
    }
    assert(trim_start_seq(s@.skip(i as int)) == s@.skip(i as int));
    let mut j: usize = n;
    assert(s@.subrange(i as int, n as int) =~= s@.skip(i as int));
    while j > i && is_white_space(s.get_char(j - 1))
        invariant
            n == s@.len(),
            i <= j <= n,
            trim_end_seq(s@.skip(i as int)) == trim_end_seq(s@.subrange(i as int, j as int)),
        decreases j - i,
    {
        assert(s@.subrange(i as int, j as int).drop_last() =~= s@.subrange(i as int, j - 1));
        j = j - 1;
    }
    assert(trim_end_seq(s@.subrange(i as int, j as int)) == s@.subrange(i as int, j as int));
    String::from_str(s.substring_char(i, j))
}

/// Every character is ASCII.
pub open spec fn is_ascii_text(s: Seq<char>) -> bool {
    forall|i: int| 0 <= i < s.len() ==> (#[trigger] s[i] as u32) < 128
}

/// A character with ASCII `A` to `Z` lowered to `a` to `z`.
pub open spec fn ascii_lower_char(c: char) -> char {
    if 'A' <= c && c <= 'Z' {
        ((c as u32) + 32) as char
    } else {
        c
    }
}

/// Text with its ASCII capital letters lowered.
pub open spec fn ascii_lowered(s: Seq<char>) -> Seq<char> {
    s.map_values(|c: char| ascii_lower_char(c))
}

/// Text lowered as `str::to_lowercase` lowers it: for ASCII text, `A` to
/// `Z` become `a` to `z` and nothing else changes.
pub open spec fn text_lowered(s: Seq<char>) -> Seq<char> {
    if is_ascii_text(s) {
        ascii_lowered(s)
    } else {
        lowercase_of(s)
    }
}

/// Calls `str::to_lowercase`. Its result is named: it follows the Unicode
/// case tables and depends on the argument alone. For ASCII text those
/// tables lower `A` to `Z` to `a` to `z`, one for one, and keep every other
/// character.
#[verifier::external_body]
pub(crate) fn to_lower(s: &str) -> (res: String)
    ensures
        res@ == lowercase_of(s@),
        is_ascii_text(s@) ==> res@ == ascii_lowered(s@),
{
    s.to_lowercase()
}

/// Calls `String::push`, which appends one character.
#[verifier::external_body]
pub(crate) fn push_char(s: &mut String, c: char)
    ensures
        final(s)@ == old(s)@.push(c),
{
    s.push(c)
}

/// The position of the first occurrence of `x` in `s`, or -1.
pub open spec fn first_index<A>(s: Seq<A>, x: A) -> int
    decreases s.len(),
{
    if s.len() == 0 {
        -1
    } else if s[0] == x {
        0
    } else {
        let r = first_index(s.drop_first(), x);
        if r < 0 {
            -1
        } else {
            r + 1
        }
    }
}

/// `first_index` is the least position holding `x`, or -1 when none does.
pub proof fn lemma_first_index<A>(s: Seq<A>, x: A)
    ensures
        -1 <= first_index(s, x) < s.len(),
        first_index(s, x) == -1 <==> !s.contains(x),
        first_index(s, x) >= 0 ==> s[first_index(s, x)] == x,
        forall|j: int| 0 <= j < first_index(s, x) ==> s[j] != x,
    decreases s.len(),
{
    if s.len() > 0 {
        lemma_first_index(s.drop_first(), x);
        if s[0] != x {
            let r = first_index(s.drop_first(), x);
            assert forall|j: int| 0 <= j < first_index(s, x) implies s[j] != x by {
                if j > 0 {
                    assert(s[j] == s.drop_first()[j - 1]);
                }
            }
            if s.contains(x) {
                let k = choose|k: int| 0 <= k < s.len() && s[k] == x;
                assert(s.drop_first()[k - 1] == x);
            }
            if r >= 0 {
                assert(s.contains(x));
            }
        }
    }
}

/// A position that holds `x` and is preceded by no `x` is `first_index`.
pub proof fn lemma_first_index_at<A>(s: Seq<A>, x: A, i: int)
    requires
        0 <= i < s.len(),
        s[i] == x,
        forall|j: int| 0 <= j < i ==> s[j] != x,
    ensures
        first_index(s, x) == i,
{
    lemma_first_index(s, x);
    assert(s.contains(x));
}

/// An element occurs in `s.push(x)` exactly when it occurs in `s` or is `x`.
pub proof fn lemma_push_contains<A>(s: Seq<A>, x: A, y: A)
    ensures
        s.push(x).contains(y) == (s.contains(y) || x == y),
{
    if s.push(x).contains(y) {
        let k = choose|k: int| 0 <= k < s.push(x).len() && s.push(x)[k] == y;
        if k < s.len() {
            assert(s[k] == y);
        }
    }
    if s.contains(y) {
        let k = choose|k: int| 0 <= k < s.len() && s[k] == y;
        assert(s.push(x)[k] == y);
    }
    if x == y {
        assert(s.push(x)[s.len() as int] == y);
    }
}

/// Whether two strings hold the same characters.
pub fn str_eq(a: &str, b: &str) -> (res: bool)
    ensures
        res == (a@ == b@),
{
    let n = a.unicode_len();
    let m = b.unicode_len();
    if n != m {
        return false;
    }
    let mut i: usize = 0;
    while i < n
        invariant
            n == a@.len(),
            m == b@.len(),
            n == m,
            i <= n,
            forall|j: int| 0 <= j < i ==> a@[j] == b@[j],
        decreases n - i,
    {
        if a.get_char(i) != b.get_char(i) {
            return false;
        }
        i = i + 1;
    }
    assert(a@ =~= b@);
    true
}

// ----- integers as text -----

/// An ASCII decimal digit.
pub open spec fn is_digit(c: char) -> bool {
    '0' <= c && c <= '9'
}

/// Every character is an ASCII decimal digit.
pub open spec fn all_digits(s: Seq<char>) -> bool {
    forall|i: int| 0 <= i < s.len() ==> is_digit(#[trigger] s[i])
}

/// The value of a string of decimal digits.
pub open spec fn digits_value(s: Seq<char>) -> int
    decreases s.len(),
{
    if s.len() == 0 {
        0
    } else {
        digits_value(s.drop_last()) * 10 + (s.last() as int - '0' as int)
    }
}

/// What Rust's integer `FromStr` reads from a string, before the range
/// check: an optional `+` (or `-` for signed types) followed by one or more
/// ASCII digits, and nothing else.
pub open spec fn parsed_integer(s: Seq<char>, signed: bool) -> Option<int> {
    if s.len() >= 2 && s[0] == '+' && all_digits(s.drop_first()) {
        Some(digits_value(s.drop_first()))
    } else if signed && s.len() >= 2 && s[0] == '-' && all_digits(s.drop_first()) {
        Some(-digits_value(s.drop_first()))
    } else if s.len() >= 1 && all_digits(s) {
        Some(digits_value(s))
    } else {
        None
    }
}

/// The character of a decimal digit.
pub open spec fn digit_char(d: int) -> char {
    (d + '0' as int) as char
}

/// The decimal digits of a natural number, without leading zeros.
pub open spec fn unsigned_decimal(n: nat) -> Seq<char>
    decreases n,
{
    if n < 10 {
        seq![digit_char(n as int)]
    } else {
        unsigned_decimal(n / 10) + seq![digit_char((n % 10) as int)]
    }
}

/// The decimal form of an integer, with a leading `-` when negative.
pub open spec fn decimal(n: int) -> Seq<char> {
    if n < 0 {
        seq!['-'] + unsigned_decimal((-n) as nat)
    } else {
        unsigned_decimal(n as nat)
    }
}

/// The decimal form of an integer zero-padded to `width` characters, the
/// sign counted in the width (as `format!("{:0w$}")` writes it).
pub open spec fn zero_padded_seq(n: int, width: nat) -> Seq<char> {
    let digits = if n < 0 { unsigned_decimal((-n) as nat) } else { unsigned_decimal(n as nat) };
    let sign: Seq<char> = if n < 0 { seq!['-'] } else { seq![] };
    let pad = width - sign.len() - digits.len();
    sign + Seq::new(if pad > 0 { pad as nat } else { 0 }, |i: int| '0') + digits
}

/// What `str::parse::<i64>` gives.
pub open spec fn parsed_i64(s: Seq<char>) -> Option<i64> {
    match parsed_integer(s, true) {
        Some(v) => if i64::MIN <= v <= i64::MAX { Some(v as i64) } else { None },
        None => None,
    }
}

/// What `str::parse::<i32>` gives.
pub open spec fn parsed_i32(s: Seq<char>) -> Option<i32> {
    match parsed_integer(s, true) {
        Some(v) => if i32::MIN <= v <= i32::MAX { Some(v as i32) } else { None },
        None => None,
    }
}

/// What `str::parse::<u32>` gives.
pub open spec fn parsed_u32(s: Seq<char>) -> Option<u32> {
    match parsed_integer(s, false) {
        Some(v) => if 0 <= v <= u32::MAX { Some(v as u32) } else { None },
        None => None,
    }
}

/// Calls `str::parse::<i64>`.
#[verifier::external_body]
pub(crate) fn parse_i64(s: &str) -> (res: Option<i64>)
    ensures
        res == parsed_i64(s@),
{
    s.parse::<i64>().ok()
}

/// Calls `str::parse::<i32>`.
#[verifier::external_body]
pub(crate) fn parse_i32(s: &str) -> (res: Option<i32>)
    ensures
        res == parsed_i32(s@),
{
    s.parse::<i32>().ok()
}

/// Calls `str::parse::<u32>`.
#[verifier::external_body]
pub(crate) fn parse_u32(s: &str) -> (res: Option<u32>)
    ensures
        res == parsed_u32(s@),
{
    s.parse::<u32>().ok()
}

/// Calls `i64::to_string`.
#[verifier::external_body]
pub(crate) fn i64_to_string(n: i64) -> (res: String)
    ensures
        res@ == decimal(n as int),
{
    n.to_string()
}

/// Formats an integer with `format!("{:0w$}")`.
#[verifier::external_body]
pub(crate) fn zero_padded(n: i64, width: usize) -> (res: String)
    ensures
        res@ == zero_padded_seq(n as int, width as nat),
{
    format!("{:01$}", n, width)
}

// ----- replacing -----

/// `s` with every non-overlapping occurrence of `from`, found from the left,
/// replaced by `to`.
pub open spec fn replace_all(s: Seq<char>, from: Seq<char>, to: Seq<char>) -> Seq<char>
    recommends
        from.len() > 0,
    decreases s.len(),
{
    if from.len() == 0 || s.len() < from.len() {
        s
    } else if s.take(from.len() as int) == from {
        to + replace_all(s.skip(from.len() as int), from, to)
    } else {
        seq![s[0]] + replace_all(s.drop_first(), from, to)
    }
}

/// Calls `str::replace`, which replaces every match of a non-empty pattern,
/// scanning from the left without overlaps.
#[verifier::external_body]
pub(crate) fn replace_str(s: &str, from: &str, to: &str) -> (res: String)
    requires
        from@.len() > 0,
    ensures
        res@ == replace_all(s@, from@, to@),
{
    s.replace(from, to)
}

// ----- counting and splitting -----

/// How many times `c` occurs in `s`.
pub open spec fn count_char(s: Seq<char>, c: char) -> nat
    decreases s.len(),
{
    if s.len() == 0 {
        0
    } else {
        count_char(s.drop_last(), c) + if s.last() == c { 1nat } else { 0nat }
    }
}

/// The part of `s` before `sep` when `sep` occurs in it exactly once
/// (splitting at `sep` then gives two parts).
pub fn sole_part_before(s: &str, sep: char) -> (res: Option<String>)
    ensures
        match res {
            Some(p) => count_char(s@, sep) == 1 && p@ == s@.take(first_index(s@, sep)),
            None => count_char(s@, sep) != 1,
        },
{
    let n = s.unicode_len();
    let mut count: usize = 0;
    let mut first: usize = 0;
    let mut i: usize = 0;
    while i < n
        invariant
            n == s@.len(),
            i <= n,
            count == count_char(s@.take(i as int), sep),
            count <= i,
            count == 0 ==> forall|j: int| 0 <= j < i ==> s@[j] != sep,
            count > 0 ==> first < i && s@[first as int] == sep && forall|j: int| 0 <= j < first ==> s@[j] != sep,
        decreases n - i,
    {
        assert(s@.take(i + 1).drop_last() =~= s@.take(i as int));
        let c = s.get_char(i);
        if c == sep {
            if count == 0 {
                first = i;
            }
            count = count + 1;
        }
        i = i + 1;
    }
    assert(s@.take(n as int) =~= s@);
    if count == 1 {
        proof { lemma_first_index_at(s@, sep, first as int); }
        let part = s.substring_char(0, first);
        Some(String::from_str(part))
    } else {
        None
    }
}

// ----- searching for a substring -----

/// The position of the first occurrence of `p` in `s`, or -1.
pub open spec fn first_match(s: Seq<char>, p: Seq<char>) -> int
    decreases s.len(),
{
    if s.len() < p.len() {
        -1
    } else if s.take(p.len() as int) =~= p {
        0
    } else if s.len() == 0 {
        -1
    } else {
        let r = first_match(s.drop_first(), p);
        if r < 0 {
            -1
        } else {
            r + 1
        }
    }
}

/// `p` occurs in `s` at position `i`.
pub open spec fn matches_at(s: Seq<char>, p: Seq<char>, i: int) -> bool {
    0 <= i && i + p.len() <= s.len() && s.subrange(i, i + p.len()) == p
}

/// `first_match` is the least position where `p` occurs, or -1 when it
/// occurs nowhere.
pub proof fn lemma_first_match(s: Seq<char>, p: Seq<char>)
    ensures
        -1 <= first_match(s, p) <= s.len(),
        first_match(s, p) >= 0 ==> matches_at(s, p, first_match(s, p)),
        forall|j: int| 0 <= j && (first_match(s, p) < 0 || j < first_match(s, p)) ==> !matches_at(s, p, j),
    decreases s.len(),
{
    if s.len() >= p.len() && !(s.take(p.len() as int) =~= p) {
        if s.len() == 0 {
            assert(s.take(p.len() as int) =~= p);
        }
        lemma_first_match(s.drop_first(), p);
        let r = first_match(s.drop_first(), p);
        assert forall|j: int| 0 <= j && (first_match(s, p) < 0 || j < first_match(s, p)) implies !matches_at(s, p, j) by {
            if j == 0 {
                assert(s.subrange(0, p.len() as int) =~= s.take(p.len() as int));
            } else if matches_at(s, p, j) {
                assert(s.drop_first().subrange(j - 1, j - 1 + p.len()) =~= s.subrange(j, j + p.len()));
                assert(matches_at(s.drop_first(), p, j - 1));
            }
        }
        if r >= 0 {
            assert(s.drop_first().subrange(r, r + p.len()) =~= s.subrange(r + 1, r + 1 + p.len()));
        }
    } else if s.len() >= p.len() {
        assert(s.subrange(0, p.len() as int) =~= s.take(p.len() as int));
    }
}

/// A position where `p` occurs and before which it does not is `first_match`.
pub proof fn lemma_first_match_at(s: Seq<char>, p: Seq<char>, i: int)
    requires
        matches_at(s, p, i),
        forall|j: int| 0 <= j < i ==> !matches_at(s, p, j),
    ensures
        first_match(s, p) == i,
{
    lemma_first_match(s, p);
}

/// Finds the first occurrence of `needle` in `hay`.
pub fn find_str(hay: &str, needle: &str) -> (res: Option<usize>)
    ensures
        match res {
            Some(i) => i == first_match(hay@, needle@),
            None => first_match(hay@, needle@) == -1,
        },
{
    let n = hay.unicode_len();
    let m = needle.unicode_len();
    if m > n {
        proof { lemma_first_match(hay@, needle@); }
        return None;
    }
    let mut i: usize = 0;
    while i <= n - m
        invariant
            n == hay@.len(),
            m == needle@.len(),
            m <= n,
            i <= n - m + 1,
            forall|j: int| 0 <= j < i ==> !matches_at(hay@, needle@, j),
        decreases n - m + 1 - i,
    {
        let mut k: usize = 0;
        let mut same = true;
        while k < m
            invariant
                n == hay@.len(),
                m == needle@.len(),
                i + m <= n,
                k <= m,
                same == (forall|t: int| 0 <= t < k ==> hay@[i + t] == needle@[t]),
            decreases m - k,
        {
            if hay.get_char(i + k) != needle.get_char(k) {
                same = false;
            }
            k = k + 1;
        }
        if same {
            assert(hay@.subrange(i as int, i + m) =~= needle@);
            proof { lemma_first_match_at(hay@, needle@, i as int); }
            return Some(i);
        }
        assert(!matches_at(hay@, needle@, i as int)) by {
            if matches_at(hay@, needle@, i as int) {
                let t = choose|t: int| 0 <= t < m && hay@[i + t] != needle@[t];
                assert(hay@.subrange(i as int, i + m)[t] == hay@[i + t]);
            }
        }
        i = i + 1;
    }
    proof {
        lemma_first_match(hay@, needle@);
        if first_match(hay@, needle@) >= 0 {
            assert(!matches_at(hay@, needle@, first_match(hay@, needle@)));
        }
    }
    None
}

/// `p` occurs somewhere in `s`.
pub open spec fn contains_seq(s: Seq<char>, p: Seq<char>) -> bool {
    first_match(s, p) >= 0
}

// ----- lines -----

/// The pieces of `s` between occurrences of `c` (one more than the number
/// of occurrences).
pub open spec fn split_seq(s: Seq<char>, c: char) -> Seq<Seq<char>>
    decreases s.len(),
{
    if s.len() == 0 {
        seq![Seq::<char>::empty()]
    } else {
        let p = split_seq(s.drop_last(), c);
        if s.last() == c {
            p.push(Seq::<char>::empty())
        } else {
            p.update(p.len() - 1, p.last().push(s.last()))
        }
    }
}

/// `split_seq` always has at least one piece.
pub proof fn lemma_split_seq_len(s: Seq<char>, c: char)
    ensures
        split_seq(s, c).len() >= 1,
    decreases s.len(),
{
    if s.len() > 0 {
        lemma_split_seq_len(s.drop_last(), c);
    }
}

/// A line without the carriage return before its line feed.
pub open spec fn strip_cr(line: Seq<char>) -> Seq<char> {
    if line.len() > 0 && line.last() == '\r' {
        line.drop_last()
    } else {
        line
    }
}

/// The lines of a text as `str::lines` gives them: split at line feeds,
/// a carriage return before a line feed removed, no line after a final
/// line feed.
pub open spec fn lines_of(s: Seq<char>) -> Seq<Seq<char>> {
    let p = split_seq(s, '\n');
    let n = p.len();
    let count: int = if n > 0 && p[n - 1].len() == 0 { n - 1 } else { n as int };
    Seq::new(count as nat, |i: int| if i < n - 1 { strip_cr(p[i]) } else { p[i] })
}

/// Splits a text into its lines.
pub fn split_lines(s: &str) -> (res: Vec<String>)
    ensures
        string_seq_views(res@) == lines_of(s@),
{
    let n = s.unicode_len();
    let mut done: Vec<String> = Vec::new();
    let mut cur = String::new();
    let mut i: usize = 0;
    proof { lemma_split_seq_len(s@.take(0), '\n'); }
    while i < n
        invariant
            n == s@.len(),
            i <= n,
            split_seq(s@.take(i as int), '\n').len() == done@.len() + 1,
            forall|j: int| 0 <= j < done@.len() ==> #[trigger] done@[j]@ == strip_cr(split_seq(s@.take(i as int), '\n')[j]),
            cur@ == split_seq(s@.take(i as int), '\n').last(),
        decreases n - i,
    {
        let ghost before = split_seq(s@.take(i as int), '\n');
        assert(s@.take(i + 1).drop_last() =~= s@.take(i as int));
        let c = s.get_char(i);
        if c == '\n' {
            let line = strip_cr_string(&cur);
            done.push(line);
            cur = String::new();
        } else {
            push_char(&mut cur, c);
        }
        i = i + 1;
        proof {
            let after = split_seq(s@.take(i as int), '\n');
            assert forall|j: int| 0 <= j < done@.len() implies #[trigger] done@[j]@ == strip_cr(after[j]) by {
                if j < before.len() - 1 {
                    assert(after[j] == before[j]);
                }
            }
        }
    }
    assert(s@.take(n as int) =~= s@);
    if cur.as_str().unicode_len() > 0 {
        done.push(cur);
    }
    assert(string_seq_views(done@) =~= lines_of(s@));
    done
}

/// The characters of each string in a sequence.
pub open spec fn string_seq_views(s: Seq<String>) -> Seq<Seq<char>> {
    s.map_values(|x: String| x@)
}

fn strip_cr_string(line: &String) -> (res: String)
    ensures
        res@ == strip_cr(line@),
{
    let n = line.as_str().unicode_len();
    if n > 0 && line.as_str().get_char(n - 1) == '\r' {
        String::from_str(line.as_str().substring_char(0, n - 1))
    } else {
        line.clone()
    }
}

/// `s` without its leading occurrences of `c`.
pub open spec fn strip_leading(s: Seq<char>, c: char) -> Seq<char>
    decreases s.len(),
{
    if s.len() > 0 && s[0] == c {
        strip_leading(s.drop_first(), c)
    } else {
        s
    }
}

/// Removes the leading occurrences of `c` (as `str::trim_start_matches`).
pub fn strip_leading_char(s: &str, c: char) -> (res: String)
    ensures
        res@ == strip_leading(s@, c),
{
    let n = s.unicode_len();
    let mut i: usize = 0;
    assert(s@.skip(0) =~= s@);
    while i < n && s.get_char(i) == c
        invariant
            n == s@.len(),
            i <= n,
            strip_leading(s@, c) == strip_leading(s@.skip(i as int), c),
        decreases n - i,
    {
        assert(s@.skip(i as int).drop_first() =~= s@.skip(i + 1));
        i = i + 1;
    }
    assert(strip_leading(s@.skip(i as int), c) == s@.skip(i as int));
    assert(s@.subrange(i as int, n as int) =~= s@.skip(i as int));
    String::from_str(s.substring_char(i, n))
}

// ----- the first element that satisfies a predicate -----

/// The position of the first element satisfying `pred`, or -1.
pub open spec fn first_where<A>(s: Seq<A>, pred: spec_fn(A) -> bool) -> int
    decreases s.len(),
{
    if s.len() == 0 {
        -1
    } else if pred(s[0]) {
        0
    } else {
        let r = first_where(s.drop_first(), pred);
        if r < 0 {
            -1
        } else {
            r + 1
        }
    }
}

/// A position that satisfies `pred`, preceded by none that does, is
/// `first_where`; and when none does, `first_where` is -1.
pub proof fn lemma_first_where<A>(s: Seq<A>, pred: spec_fn(A) -> bool, i: int)
    requires
        0 <= i <= s.len(),
        i < s.len() ==> pred(s[i]),
        forall|j: int| 0 <= j < i ==> !pred(#[trigger] s[j]),
    ensures
        first_where(s, pred) == (if i < s.len() { i } else { -1 }),
    decreases s.len(),
{
    if s.len() > 0 && i > 0 {
        assert forall|j: int| 0 <= j < i - 1 implies !pred(#[trigger] s.drop_first()[j]) by {
            assert(s.drop_first()[j] == s[j + 1]);
        }
        lemma_first_where(s.drop_first(), pred, i - 1);
    }
}

// ----- splitting at a character and removing a character -----

/// Splits a string at every occurrence of `sep` (as `str::split` with a
/// character).
pub fn split_char(s: &str, sep: char) -> (res: Vec<String>)
    ensures
        string_seq_views(res@) == split_seq(s@, sep),
{
    let n = s.unicode_len();
    let mut done: Vec<String> = Vec::new();
    let mut cur = String::new();
    let mut i: usize = 0;
    proof { lemma_split_seq_len(s@.take(0), sep); }
    while i < n
        invariant
            n == s@.len(),
            i <= n,
            split_seq(s@.take(i as int), sep).len() == done@.len() + 1,
            forall|j: int| 0 <= j < done@.len() ==> #[trigger] done@[j]@ == split_seq(s@.take(i as int), sep)[j],
            cur@ == split_seq(s@.take(i as int), sep).last(),
        decreases n - i,
    {
        let ghost before = split_seq(s@.take(i as int), sep);
        assert(s@.take(i + 1).drop_last() =~= s@.take(i as int));
        let c = s.get_char(i);
        if c == sep {
            done.push(cur);
            cur = String::new();
        } else {
            push_char(&mut cur, c);
        }
        i = i + 1;
        proof {
            let after = split_seq(s@.take(i as int), sep);
            assert forall|j: int| 0 <= j < done@.len() implies #[trigger] done@[j]@ == after[j] by {
                if j < before.len() - 1 {
                    assert(after[j] == before[j]);
                }
            }
        }
    }
    assert(s@.take(n as int) =~= s@);
    done.push(cur);
    assert(string_seq_views(done@) =~= split_seq(s@, sep));
    done
}

/// Keeps the characters other than `c`.
pub open spec fn not_char(c: char) -> spec_fn(char) -> bool {
    |x: char| x != c
}

/// Removes every occurrence of a character (as replacing it by "").
pub fn remove_char(s: &str, c: char) -> (res: String)
    ensures
        res@ == s@.filter(not_char(c)),
{
    let n = s.unicode_len();
    let mut res = String::new();
    let mut i: usize = 0;
    while i < n
        invariant
            n == s@.len(),
            i <= n,
            res@ == s@.take(i as int).filter(not_char(c)),
        decreases n - i,
    {
        let x = s.get_char(i);
        proof {
            assert(s@.take(i + 1).drop_last() =~= s@.take(i as int));
            reveal_with_fuel(Seq::filter, 1);
        }
        if x != c {
            push_char(&mut res, x);
        }
        i = i + 1;
    }
    assert(s@.take(n as int) =~= s@);
    res
}

// ----- facts about the text functions -----

/// Replacing a pattern that does not occur changes nothing.
pub proof fn lemma_replace_absent(s: Seq<char>, from: Seq<char>, to: Seq<char>)
    requires
        from.len() > 0,
        first_match(s, from) == -1,
    ensures
        replace_all(s, from, to) == s,
    decreases s.len(),
{
    if s.len() >= from.len() {
        assert(!(s.take(from.len() as int) =~= from));
        assert(s.take(from.len() as int) != from);
        lemma_replace_absent(s.drop_first(), from, to);
        assert(seq![s[0]] + s.drop_first() =~= s);
    }
}

/// The decimal digits of a natural number are digits, and read back as it.
pub proof fn lemma_unsigned_decimal(n: nat)
    ensures
        all_digits(unsigned_decimal(n)),
        unsigned_decimal(n).len() >= 1,
        digits_value(unsigned_decimal(n)) == n,
    decreases n,
{
    if n >= 10 {
        lemma_unsigned_decimal(n / 10);
        let s = unsigned_decimal(n);
        assert(s.drop_last() =~= unsigned_decimal(n / 10));
        assert(s.last() == digit_char((n % 10) as int));
        assert(digit_char((n % 10) as int) as int == (n % 10) + '0' as int);
        vstd::arithmetic::div_mod::lemma_fundamental_div_mod(n as int, 10);
        assert(digits_value(s) == digits_value(s.drop_last()) * 10 + (s.last() as int - '0' as int));
    } else {
        assert(digit_char(n as int) as int == n + '0' as int);
        let s = unsigned_decimal(n);
        assert(s.drop_last() =~= Seq::<char>::empty());
        assert(digits_value(s) == digits_value(s.drop_last()) * 10 + (s.last() as int - '0' as int));
    }
}

/// A leading zero does not change the value of digits.
pub proof fn lemma_leading_zero(s: Seq<char>)
    ensures
        digits_value(seq!['0'] + s) == digits_value(s),
    decreases s.len(),
{
    if s.len() > 0 {
        lemma_leading_zero(s.drop_last());
        assert((seq!['0'] + s).drop_last() =~= seq!['0'] + s.drop_last());
    } else {
        assert((seq!['0'] + s).drop_last() =~= s);
    }
}

/// Leading zeros do not change the value of digits.
pub proof fn lemma_leading_zeros(k: nat, s: Seq<char>)
    ensures
        digits_value(Seq::new(k, |i: int| '0') + s) == digits_value(s),
    decreases k,
{
    if k > 0 {
        lemma_leading_zeros((k - 1) as nat, s);
        lemma_leading_zero(Seq::new((k - 1) as nat, |i: int| '0') + s);
        assert(Seq::new(k, |i: int| '0') + s =~= seq!['0'] + (Seq::new((k - 1) as nat, |i: int| '0') + s));
    } else {
        assert(Seq::new(k, |i: int| '0') + s =~= s);
    }
}

/// A zero-padded natural number is digits, and reads back as the number.
pub proof fn lemma_zero_padded(n: nat, width: nat)
    ensures
        all_digits(zero_padded_seq(n as int, width)),
        zero_padded_seq(n as int, width).len() >= 1,
        digits_value(zero_padded_seq(n as int, width)) == n,
        parsed_integer(zero_padded_seq(n as int, width), true) == Some(n as int),
        parsed_integer(zero_padded_seq(n as int, width), false) == Some(n as int),
{
    let digits = unsigned_decimal(n);
    lemma_unsigned_decimal(n);
    let pad = width - digits.len();
    let k: nat = if pad > 0 { pad as nat } else { 0 };
    let zeros = Seq::new(k, |i: int| '0');
    let z = zero_padded_seq(n as int, width);
    assert(z =~= zeros + digits);
    lemma_leading_zeros(k, digits);
    assert forall|i: int| 0 <= i < z.len() implies is_digit(#[trigger] z[i]) by {
        if i >= k {
            assert(z[i] == digits[i - k]);
        }
    }
    assert(z[0] != '+' && z[0] != '-') by {
        assert(is_digit(z[0]));
    }
}

/// Splitting after appending text without the separator extends the last
/// piece.
pub proof fn lemma_split_extend(a: Seq<char>, b: Seq<char>, c: char)
    requires
        !b.contains(c),
    ensures
        split_seq(a + b, c) == split_seq(a, c).update(
            split_seq(a, c).len() - 1,
            split_seq(a, c).last() + b,
        ),
    decreases b.len(),
{
    lemma_split_seq_len(a, c);
    if b.len() == 0 {
        assert(a + b =~= a);
        assert(split_seq(a, c).last() + b =~= split_seq(a, c).last());
        assert(split_seq(a, c).update(split_seq(a, c).len() - 1, split_seq(a, c).last()) =~= split_seq(a, c));
    } else {
        assert(!b.drop_last().contains(c)) by {
            if b.drop_last().contains(c) {
                let k = choose|k: int| 0 <= k < b.drop_last().len() && b.drop_last()[k] == c;
                assert(b[k] == c);
            }
        }
        lemma_split_extend(a, b.drop_last(), c);
        assert((a + b).drop_last() =~= a + b.drop_last());
        assert(b.last() != c) by {
            assert(b[b.len() - 1] == b.last());
        }
        lemma_split_seq_len(a + b.drop_last(), c);
        let p = split_seq(a, c);
        let q = split_seq(a + b.drop_last(), c);
        assert((a + b).last() == b.last());
        assert(q.len() == p.len());
        assert(q.last() == p.last() + b.drop_last());
        assert(split_seq(a + b, c) == q.update(q.len() - 1, q.last().push(b.last())));
        assert((p.last() + b.drop_last()).push(b.last()) =~= p.last() + b);
        assert(split_seq(a + b, c) =~= p.update(p.len() - 1, p.last() + b));
    }
}

/// Splitting a text, a separator, and text without the separator adds
/// that text as a new last piece.
pub proof fn lemma_split_append(a: Seq<char>, b: Seq<char>, c: char)
    requires
        !b.contains(c),
    ensures
        split_seq(a + seq![c] + b, c) == split_seq(a, c).push(b),
{
    lemma_split_seq_len(a, c);
    assert((a + seq![c]).drop_last() =~= a);
    assert(split_seq(a + seq![c], c) == split_seq(a, c).push(Seq::<char>::empty()));
    lemma_split_extend(a + seq![c], b, c);
    assert(Seq::<char>::empty() + b =~= b);
    assert(split_seq(a, c).push(Seq::<char>::empty()).update(split_seq(a, c).len() as int, b) =~= split_seq(a, c).push(b));
}

/// Text without the separator is one piece.
pub proof fn lemma_split_single(b: Seq<char>, c: char)
    requires
        !b.contains(c),
    ensures
        split_seq(b, c) == seq![b],
{
    lemma_split_extend(Seq::<char>::empty(), b, c);
    assert(Seq::<char>::empty() + b =~= b);
    assert(split_seq(Seq::<char>::empty(), c).update(0, Seq::<char>::empty() + b) =~= seq![b]);
}

/// `s` neither starts nor ends with white space.
pub open spec fn bordered(s: Seq<char>) -> bool {
    s.len() == 0 || (!is_ws(s[0]) && !is_ws(s.last()))
}

/// Trimming keeps text that neither starts nor ends with white space, and
/// takes away one white-space character put before it.
pub proof fn lemma_trim_bordered(c: char, s: Seq<char>)
    requires
        bordered(s),
        is_ws(c),
    ensures
        trim_seq(s) == s,
        trim_seq(seq![c] + s) == s,
{
    assert(trim_start_seq(s) == s);
    assert(trim_end_seq(s) == s);
    let cs = seq![c] + s;
    assert(cs.drop_first() =~= s);
    assert(trim_start_seq(cs) == trim_start_seq(s));
}

/// Trimming takes away a white-space character put before any text.
pub proof fn lemma_trim_lead_ws(c: char, s: Seq<char>)
    requires
        is_ws(c),
    ensures
        trim_seq(seq![c] + s) == trim_seq(s),
{
    let cs = seq![c] + s;
    assert(cs.drop_first() =~= s);
    assert(trim_start_seq(cs) == trim_start_seq(s));
}

/// Text without its leading white space is empty or starts with a
/// character that is not white space.
pub proof fn lemma_trim_start_shape(s: Seq<char>)
    ensures
        trim_start_seq(s).len() == 0 || !is_ws(trim_start_seq(s)[0]),
    decreases s.len(),
{
    if s.len() > 0 && is_ws(s[0]) {
        lemma_trim_start_shape(s.drop_first());
    }
}

/// Text without its trailing white space is a prefix of the text, and is
/// empty or ends with a character that is not white space.
pub proof fn lemma_trim_end_shape(s: Seq<char>)
    ensures
        trim_end_seq(s).len() <= s.len(),
        trim_end_seq(s) == s.take(trim_end_seq(s).len() as int),
        trim_end_seq(s).len() == 0 || !is_ws(trim_end_seq(s).last()),
    decreases s.len(),
{
    if s.len() > 0 && is_ws(s.last()) {
        lemma_trim_end_shape(s.drop_last());
        let t = trim_end_seq(s.drop_last());
        assert(s.drop_last().take(t.len() as int) =~= s.take(t.len() as int));
    } else {
        assert(s.take(s.len() as int) =~= s);
    }
}

/// Trimming trimmed text changes nothing.
pub proof fn lemma_trim_idempotent(s: Seq<char>)
    ensures
        trim_seq(trim_seq(s)) == trim_seq(s),
{
    let u = trim_start_seq(s);
    let w = trim_end_seq(u);
    lemma_trim_start_shape(s);
    lemma_trim_end_shape(u);
    if w.len() > 0 {
        assert(w[0] == u[0]);
    }
    assert(trim_start_seq(w) == w);
    assert(trim_end_seq(w) == w);
}

/// The part of `s` after its last `c` (all of `s` when it has none).
pub open spec fn after_last(s: Seq<char>, c: char) -> Seq<char>
    decreases s.len(),
{
    if s.len() == 0 {
        s
    } else if s.last() == c {
        Seq::<char>::empty()
    } else {
        after_last(s.drop_last(), c).push(s.last())
    }
}

/// `after_last(s, c)` is the end of `s` after its last `c`: `s` is what
/// comes before, a `c` when `s` has one, and that end, which holds no `c`.
pub proof fn lemma_after_last(s: Seq<char>, c: char)
    ensures
        after_last(s, c).len() <= s.len(),
        s == s.take(s.len() - after_last(s, c).len()) + after_last(s, c),
        !after_last(s, c).contains(c),
        after_last(s, c).len() < s.len() ==> s[s.len() - after_last(s, c).len() - 1] == c,
        after_last(s, c).len() == s.len() ==> !s.contains(c),
    decreases s.len(),
{
    if s.len() > 0 {
        if s.last() == c {
            assert(s.take(s.len() as int) =~= s);
            assert(s.take(s.len() - 0) + Seq::<char>::empty() =~= s);
        } else {
            lemma_after_last(s.drop_last(), c);
            let t = after_last(s.drop_last(), c);
            let u = t.push(s.last());
            assert(s.drop_last().take(s.len() - 1 - t.len()) =~= s.take(s.len() - u.len()));
            let pre = s.take(s.len() - u.len());
            assert(s.drop_last() == pre + t);
            assert(s =~= s.drop_last().push(s.last()));
            assert((pre + t).push(s.last()) =~= pre + u);
            assert(s =~= s.take(s.len() - u.len()) + u);
            assert(!u.contains(c)) by {
                if u.contains(c) {
                    let k = choose|k: int| 0 <= k < u.len() && u[k] == c;
                    if k < t.len() {
                        assert(t[k] == c);
                    }
                }
            }
            if u.len() == s.len() {
                assert(!s.contains(c)) by {
                    assert(s =~= u);
                }
            } else {
                assert(s[s.len() - u.len() - 1] == s.drop_last()[s.drop_last().len() - t.len() - 1]);
            }
        }
    }
}

/// No piece of a split holds the separator.
pub proof fn lemma_split_pieces_lack(s: Seq<char>, c: char)
    ensures
        forall|i: int| 0 <= i < split_seq(s, c).len() ==> !(#[trigger] split_seq(s, c)[i]).contains(c),
    decreases s.len(),
{
    if s.len() > 0 {
        lemma_split_pieces_lack(s.drop_last(), c);
        lemma_split_seq_len(s.drop_last(), c);
        let p = split_seq(s.drop_last(), c);
        if s.last() != c {
            let q = p.last().push(s.last());
            assert(!q.contains(c)) by {
                if q.contains(c) {
                    let k = choose|k: int| 0 <= k < q.len() && q[k] == c;
                    if k < p.last().len() {
                        assert(p[p.len() - 1][k] == c);
                    }
                }
            }
        } else {
            assert(!Seq::<char>::empty().contains(c));
        }
    }
}

/// Text without its leading white space is a suffix of the text.
pub proof fn lemma_trim_start_suffix(s: Seq<char>)
    ensures
        trim_start_seq(s).len() <= s.len(),
        trim_start_seq(s) == s.skip(s.len() - trim_start_seq(s).len()),
    decreases s.len(),
{
    if s.len() > 0 && is_ws(s[0]) {
        lemma_trim_start_suffix(s.drop_first());
        let t = trim_start_seq(s.drop_first());
        assert(s.drop_first().skip(s.len() - 1 - t.len()) =~= s.skip(s.len() - t.len()));
    } else {
        assert(s.skip(0) =~= s);
    }
}

/// Trimming text that lacks a character gives text that lacks it.
pub proof fn lemma_trim_lacks(s: Seq<char>, c: char)
    requires
        !s.contains(c),
    ensures
        !trim_seq(s).contains(c),
{
    lemma_trim_start_suffix(s);
    let u = trim_start_seq(s);
    lemma_trim_end_shape(u);
    let w = trim_end_seq(u);
    if w.contains(c) {
        let k = choose|k: int| 0 <= k < w.len() && w[k] == c;
        assert(u[k] == c);
        assert(s[s.len() - u.len() + k] == c);
    }
}

/// No line of a text holds a line feed.
pub proof fn lemma_lines_lack_feed(s: Seq<char>)
    ensures
        forall|i: int| 0 <= i < lines_of(s).len() ==> !(#[trigger] lines_of(s)[i]).contains('\n'),
{
    lemma_split_pieces_lack(s, '\n');
    let p = split_seq(s, '\n');
    assert forall|i: int| 0 <= i < lines_of(s).len() implies !(#[trigger] lines_of(s)[i]).contains('\n') by {
        assert(!p[i].contains('\n'));
        if lines_of(s)[i].contains('\n') {
            let k = choose|k: int| 0 <= k < lines_of(s)[i].len() && lines_of(s)[i][k] == '\n';
            assert(p[i][k] == '\n');
        }
    }
}

/// Lowering an ASCII letter keeps it ASCII, makes it no capital, and
/// keeps whether a character is white space.
proof fn lemma_ascii_lower_char(c: char)
    ensures
        is_ws(ascii_lower_char(c)) == is_ws(c),
        (c as u32) < 128 ==> (ascii_lower_char(c) as u32) < 128,
        ascii_lower_char(ascii_lower_char(c)) == ascii_lower_char(c),
{
}

/// Trimming text lowers the same before or after its ASCII capitals are
/// lowered.
pub proof fn lemma_trim_lower_commute(s: Seq<char>)
    ensures
        trim_start_seq(ascii_lowered(s)) == ascii_lowered(trim_start_seq(s)),
        trim_end_seq(ascii_lowered(s)) == ascii_lowered(trim_end_seq(s)),
        trim_seq(ascii_lowered(s)) == ascii_lowered(trim_seq(s)),
    decreases s.len(),
{
    if s.len() > 0 {
        lemma_ascii_lower_char(s[0]);
        lemma_ascii_lower_char(s.last());
        assert(ascii_lowered(s).drop_first() =~= ascii_lowered(s.drop_first()));
        assert(ascii_lowered(s).drop_last() =~= ascii_lowered(s.drop_last()));
        lemma_trim_lower_commute(s.drop_first());
        lemma_trim_lower_commute(s.drop_last());
    }
    lemma_trim_end_lower(trim_start_seq(s));
}

/// Trimming the end commutes with lowering ASCII capitals.
proof fn lemma_trim_end_lower(s: Seq<char>)
    ensures
        trim_end_seq(ascii_lowered(s)) == ascii_lowered(trim_end_seq(s)),
    decreases s.len(),
{
    if s.len() > 0 {
        lemma_ascii_lower_char(s.last());
        assert(ascii_lowered(s).drop_last() =~= ascii_lowered(s.drop_last()));
        lemma_trim_end_lower(s.drop_last());
    }
}

/// Lowering ASCII text gives ASCII text that lowering leaves alone.
pub proof fn lemma_lower_ascii(s: Seq<char>)
    requires
        is_ascii_text(s),
    ensures
        is_ascii_text(ascii_lowered(s)),
        ascii_lowered(ascii_lowered(s)) == ascii_lowered(s),
{
    assert forall|i: int| 0 <= i < s.len() implies (#[trigger] ascii_lowered(s)[i] as u32) < 128 by {
        lemma_ascii_lower_char(s[i]);
    }
    assert forall|i: int| 0 <= i < s.len() implies #[trigger] ascii_lowered(ascii_lowered(s))[i] == ascii_lowered(s)[i] by {
        lemma_ascii_lower_char(s[i]);
    }
    assert(ascii_lowered(ascii_lowered(s)) =~= ascii_lowered(s));
}

/// Trimmed ASCII text is ASCII.
pub proof fn lemma_trim_ascii(s: Seq<char>)
    requires
        is_ascii_text(s),
    ensures
        is_ascii_text(trim_seq(s)),
{
    lemma_trim_start_suffix(s);
    let u = trim_start_seq(s);
    lemma_trim_end_shape(u);
    let w = trim_end_seq(u);
    assert forall|i: int| 0 <= i < w.len() implies (#[trigger] w[i] as u32) < 128 by {
        assert(w[i] == u[i]);
        assert(u[i] == s[s.len() - u.len() + i]);
    }
}

/// Ten to the power `k`.
pub open spec fn pow10(k: nat) -> nat
    decreases k,
{
    if k == 0 { 1 } else { 10 * pow10((k - 1) as nat) }
}

/// A number below ten to the power `k` has at most `k` decimal digits.
pub proof fn lemma_decimal_len(n: nat, k: nat)
    requires
        k >= 1,
        n < pow10(k),
    ensures
        unsigned_decimal(n).len() <= k,
    decreases n,
{
    if n >= 10 {
        assert(k >= 2) by {
            if k == 1 {
                assert(pow10(1) == 10) by {
                    reveal_with_fuel(pow10, 2);
                }
            }
        }
        assert(n / 10 < pow10((k - 1) as nat)) by (nonlinear_arith)
            requires
                n < pow10(k),
                pow10(k) == 10 * pow10((k - 1) as nat),
        {
        }
        lemma_decimal_len(n / 10, (k - 1) as nat);
    }
}

/// A number below ten to the power `w` zero-padded to `w` characters has
/// exactly `w` digits.
pub proof fn lemma_zero_padded_len(n: nat, w: nat)
    requires
        w >= 1,
        n < pow10(w),
    ensures
        zero_padded_seq(n as int, w).len() == w,
{
    lemma_decimal_len(n, w);
}

/// The value of digits put after digits.
pub proof fn lemma_digits_concat(a: Seq<char>, b: Seq<char>)
    ensures
        digits_value(a + b) == digits_value(a) * pow10(b.len()) + digits_value(b),
    decreases b.len(),
{
    if b.len() > 0 {
        lemma_digits_concat(a, b.drop_last());
        assert((a + b).drop_last() =~= a + b.drop_last());
        assert((a + b).last() == b.last());
        let x = digits_value(a);
        let y = digits_value(b.drop_last());
        let p = pow10((b.len() - 1) as nat);
        let l = b.last() as int - '0' as int;
        assert((x * p + y) * 10 + l == x * (10 * p) + (y * 10 + l)) by (nonlinear_arith);
        assert(digits_value(b) == y * 10 + l);
        assert(pow10(b.len()) == 10 * p);
        assert(digits_value(a + b) == (x * p + y) * 10 + l);
        assert(digits_value(a + b) == x * pow10(b.len()) + digits_value(b));
    } else {
        assert(a + b =~= a);
        assert(pow10(0) == 1);
        assert(digits_value(b) == 0);
        assert(digits_value(a) * 1 == digits_value(a));
    }
}

/// Replacing in text after a prefix that cannot start a match replaces in
/// the rest alone.
pub proof fn lemma_replace_after(a: Seq<char>, b: Seq<char>, from: Seq<char>, to: Seq<char>)
    requires
        from.len() > 0,
        forall|i: int| 0 <= i < a.len() ==> #[trigger] a[i] != from[0],
    ensures
        replace_all(a + b, from, to) == a + replace_all(b, from, to),
    decreases a.len(),
{
    if a.len() > 0 {
        let ab = a + b;
        assert(ab[0] == a[0]);
        if ab.len() >= from.len() {
            assert(ab.take(from.len() as int)[0] != from[0]);
        }
        assert(ab.drop_first() =~= a.drop_first() + b);
        assert forall|i: int| 0 <= i < a.drop_first().len() implies #[trigger] a.drop_first()[i] != from[0] by {
            assert(a.drop_first()[i] == a[i + 1]);
        }
        lemma_replace_after(a.drop_first(), b, from, to);
        if ab.len() < from.len() {
            assert(b.len() < from.len());
            assert(a.drop_first() + b =~= ab.drop_first());
        }
        assert(seq![a[0]] + (a.drop_first() + replace_all(b, from, to)) =~= a + replace_all(b, from, to));
    } else {
        assert(a + b =~= b);
    }
}

/// Digits hold no `-`.
pub proof fn lemma_digits_no_dash(s: Seq<char>)
    requires
        all_digits(s),
    ensures
        !s.contains('-'),
{
    if s.contains('-') {
        let k = choose|k: int| 0 <= k < s.len() && s[k] == '-';
        assert(is_digit(s[k]));
    }
}

} // verus!
