//! Recognising spreadsheet files, and finding the header row and the date
//! column in a sheet's cells.

use vstd::prelude::*;
use crate::paths::unc_free;
use crate::text::{
    is_ascii_text, ascii_lowered,
    after_last,
    contains_seq, is_blank, lowercase_of, str_eq, string_seq_views, to_lower, trim_seq, trim_str,
};

verus! {

/// An extension that marks a spreadsheet, case ignored: xlsx, xlsm or xls.
pub open spec fn is_excel_ext(ext: Seq<char>) -> bool {
    let e = lowercase_of(ext);
    e == "xlsx"@ || e == "xlsm"@ || e == "xls"@
}

/// An ASCII extension that marks a spreadsheet: xlsx, xlsm or xls once its
/// capitals are lowered.
pub open spec fn ascii_excel_ext(ext: Seq<char>) -> bool {
    let e = ascii_lowered(ext);
    e == "xlsx"@ || e == "xlsm"@ || e == "xls"@
}

/// Whether an extension marks a spreadsheet.
pub fn is_excel_extension(extension: Option<&str>) -> (res: bool)
    ensures
        res == match extension {
            Some(e) => is_excel_ext(e@),
            None => false,
        },
        match extension {
            Some(e) => is_ascii_text(e@) ==> res == ascii_excel_ext(e@),
            None => true,
        },
{
    match extension {
        Some(e) => {
            let lower = to_lower(e);
            let l = lower.as_str();
            str_eq(l, "xlsx") || str_eq(l, "xlsm") || str_eq(l, "xls")
        },
        None => false,
    }
}

/// A path without the separators and `.` components at its end, which no
/// platform counts as components: "a/b/" and "a/b/." name what "a/b"
/// names.
pub open spec fn strip_tail(p: Seq<char>) -> Seq<char>
    decreases p.len(),
{
    if p.len() > 0 && p.last() == '/' {
        strip_tail(p.drop_last())
    } else if p.len() >= 2 && p.last() == '.' && p[p.len() - 2] == '/' {
        strip_tail(p.drop_last())
    } else {
        p
    }
}

/// The last component of a path: the part after the last `/` once the
/// path's tail of separators and `.` components is set aside.
pub open spec fn path_name(p: Seq<char>) -> Seq<char> {
    after_last(strip_tail(p), '/')
}

/// A path that every platform splits the same way: no `\` and no `:`,
/// not starting with `//`, and whose last component is a name other than
/// `.` and `..`.
pub open spec fn plain_path(p: Seq<char>) -> bool {
    let name = path_name(p);
    &&& !p.contains('\\')
    &&& !p.contains(':')
    &&& !(p.len() >= 2 && p[0] == '/' && p[1] == '/')
    &&& name.len() > 0
    &&& name != "."@
    &&& name != ".."@
}

/// The extension of a file name: the part after its last `.`, when that
/// `.` is not its first character; none when it has no `.` or only a
/// leading one.
pub open spec fn name_extension(name: Seq<char>) -> Option<Seq<char>> {
    let ext = after_last(name, '.');
    if ext.len() == name.len() || ext.len() + 1 == name.len() {
        None
    } else {
        Some(ext)
    }
}

/// The extension of a plain path: that of its file name.
pub open spec fn plain_extension(p: Seq<char>) -> Option<Seq<char>> {
    name_extension(path_name(p))
}

/// Calls `std::path::Path::extension` and copies the result. How a path
/// splits into components depends on the platform; what holds of every
/// outcome is that an extension has no `.` and occurs in the path after a
/// `.`. For a path that every platform splits the same way, the
/// documented rule gives the result: the part of the file name after its
/// final `.`, none when the name has no `.` or begins with its only `.`.
#[verifier::external_body]
pub(crate) fn path_extension(file_path: &str) -> (res: Option<String>)
    ensures
        res matches Some(e) ==> !e@.contains('.') && contains_seq(file_path@, "."@ + e@),
        plain_path(file_path@) ==> match res {
            Some(e) => plain_extension(file_path@) == Some(e@),
            None => plain_extension(file_path@) is None,
        },
{
    std::path::Path::new(file_path).extension().and_then(|e| e.to_str()).map(|e| e.to_string())
}

/// The stem of a file name: the name without its extension and the `.`
/// before it; all of the name when it has no extension.
pub open spec fn name_stem(name: Seq<char>) -> Seq<char> {
    match name_extension(name) {
        Some(e) => name.take(name.len() - e.len() - 1),
        None => name,
    }
}

/// `name` is what the file name of `path` can be: for a path with no `\`
/// that does not start with two separators, it holds no `/`; for a path
/// every platform splits the same way it is the path's last component.
pub open spec fn file_name_of(path: Seq<char>, name: Seq<char>) -> bool {
    &&& (!path.contains('\\') && unc_free(path) ==> !name.contains('/'))
    &&& (plain_path(path) ==> name == path_name(path))
}

/// Calls `std::path::Path::file_name` and copies the result, empty when the
/// path has no file name. Where `/` separates components (a path with no
/// `\` that does not start with two separators, so not a Windows verbatim
/// path), a component holds no `/`; for a path every platform splits the
/// same way, the file name is its last component, trailing separators and
/// `.` components set aside.
#[verifier::external_body]
pub(crate) fn path_file_name(p: &str) -> (res: String)
    ensures
        file_name_of(p@, res@),
{
    std::path::Path::new(p).file_name().map(|n| n.to_string_lossy().to_string()).unwrap_or_default()
}

/// Calls `std::path::Path::file_stem` and copies the result, empty when the
/// path has no file name. For a path every platform splits the same way,
/// the documented rule gives the stem: the file name before its final `.`,
/// all of it when it has no `.` or begins with its only `.`.
#[verifier::external_body]
pub(crate) fn path_file_stem(p: &str) -> (res: String)
    ensures
        plain_path(p@) ==> res@ == name_stem(path_name(p@)),
{
    std::path::Path::new(p).file_stem().map(|n| n.to_string_lossy().to_string()).unwrap_or_default()
}

/// Whether a file is a spreadsheet, by the extension of its path: for a
/// path that every platform splits the same way, exactly when its file
/// name's extension is xlsx, xlsm or xls, case ignored.
pub fn is_excel_file(file_path: &str) -> (res: bool)
    ensures
        res ==> exists|e: Seq<char>| is_excel_ext(e) && !e.contains('.') && contains_seq(file_path@, "."@ + e),
        plain_path(file_path@) ==> res == match plain_extension(file_path@) {
            Some(e) => is_excel_ext(e),
            None => false,
        },
        plain_path(file_path@) ==> match plain_extension(file_path@) {
            Some(e) => is_ascii_text(e) ==> res == ascii_excel_ext(e),
            None => true,
        },
{
    let ext = path_extension(file_path);
    match &ext {
        Some(e) => is_excel_extension(Some(e.as_str())),
        None => false,
    }
}

// ----- a sheet's cells -----

/// The text of a cell: `None` when it is empty.
pub type Cell = Option<String>;

/// The text of each cell of a row.
pub open spec fn cell_views(row: Seq<Cell>) -> Seq<Option<Seq<char>>> {
    row.map_values(|c: Cell| match c {
        Some(s) => Some(s@),
        None => None,
    })
}

/// The text of each row of a sheet.
pub open spec fn sheet_view(rows: Seq<Vec<Cell>>) -> Seq<Seq<Option<Seq<char>>>> {
    rows.map_values(|r: Vec<Cell>| cell_views(r@))
}

/// The headers a row gives: its non-empty cells, in order.
pub open spec fn row_headers(row: Seq<Option<Seq<char>>>) -> Seq<Seq<char>>
    decreases row.len(),
{
    if row.len() == 0 {
        Seq::<Seq<char>>::empty()
    } else {
        let r = row_headers(row.drop_last());
        match row.last() {
            Some(s) => r.push(s),
            None => r,
        }
    }
}

/// How many headers are not blank.
pub open spec fn non_blank_count(headers: Seq<Seq<char>>) -> nat
    decreases headers.len(),
{
    if headers.len() == 0 {
        0
    } else {
        non_blank_count(headers.drop_last()) + if is_blank(headers.last()) { 0nat } else { 1nat }
    }
}

/// A row is a header row when at least three of its headers are not blank.
pub open spec fn is_header_row(row: Seq<Option<Seq<char>>>) -> bool {
    non_blank_count(row_headers(row)) >= 3
}

/// The first header row among rows `from` up to (not including) `to`.
pub open spec fn first_header_row(rows: Seq<Seq<Option<Seq<char>>>>, from: int, to: int) -> int
    decreases to - from,
{
    if from >= to {
        -1
    } else if is_header_row(rows[from]) {
        from
    } else {
        first_header_row(rows, from + 1, to)
    }
}

/// The header row of a sheet, given the row the rule names (1-based; 0
/// counts as 1): the first header row among that row and the two after
/// it, else the sheet's first row when another row was named and it is a
/// header row. Gives the headers and the 1-based row.
pub open spec fn detected_headers(rows: Seq<Seq<Option<Seq<char>>>>, feature_row: u32) -> Option<(Seq<Seq<char>>, u32)> {
    let start: int = if feature_row >= 1 { feature_row - 1 } else { 0 };
    let end: int = if start + 3 < rows.len() { start + 3 } else { rows.len() as int };
    let r = first_header_row(rows, start, end);
    if r >= 0 {
        Some((row_headers(rows[r]), (r + 1) as u32))
    } else if start > 0 && rows.len() > 0 && is_header_row(rows[0]) {
        Some((row_headers(rows[0]), 1u32))
    } else {
        None
    }
}

/// The headers of a row, and how many are not blank.
fn headers_of(row: &Vec<Cell>) -> (res: (Vec<String>, usize))
    ensures
        string_seq_views(res.0@) == row_headers(cell_views(row@)),
        res.1 == non_blank_count(row_headers(cell_views(row@))),
{
    let ghost rv = cell_views(row@);
    let n = row.len();
    let mut headers: Vec<String> = Vec::new();
    let mut count: usize = 0;
    let mut i: usize = 0;
    while i < n
        invariant
            n == row@.len(),
            i <= n,
            rv == cell_views(row@),
            string_seq_views(headers@) == row_headers(rv.take(i as int)),
            count == non_blank_count(row_headers(rv.take(i as int))),
            count <= i,
        decreases n - i,
    {
        assert(rv.take(i + 1).drop_last() =~= rv.take(i as int));
        match &row[i] {
            Some(s) => {
                let ghost prev = string_seq_views(headers@);
                let t = trim_str(s.as_str());
                if !t.as_str().is_empty() {
                    count = count + 1;
                }
                headers.push(s.clone());
                assert(string_seq_views(headers@) =~= prev.push(s@));
                assert(row_headers(rv.take(i + 1)) == row_headers(rv.take(i as int)).push(s@));
                assert(row_headers(rv.take(i + 1)).drop_last() =~= row_headers(rv.take(i as int)));
            },
            None => {},
        }
        i = i + 1;
    }
    assert(rv.take(n as int) =~= rv);
    (headers, count)
}

/// The characters of an optional header row.
pub open spec fn detected_view(d: Option<(Vec<String>, u32)>) -> Option<(Seq<Seq<char>>, u32)> {
    match d {
        Some((h, r)) => Some((string_seq_views(h@), r)),
        None => None,
    }
}

/// Finds the header row of a sheet given as rows of cells.
pub fn detect_header_row(rows: &Vec<Vec<Cell>>, feature_row: u32) -> (res: Option<(Vec<String>, u32)>)
    ensures
        detected_view(res) == detected_headers(sheet_view(rows@), feature_row),
{
    let ghost sv = sheet_view(rows@);
    let total_rows = rows.len();
    let start: usize = if feature_row >= 1 { (feature_row - 1) as usize } else { 0 };
    let end: usize = if start < total_rows && total_rows - start > 3 { start + 3 } else { total_rows };
    assert(end as int == (if start + 3 < sv.len() { start + 3 } else { sv.len() as int }));
    let mut row_idx = start;
    while row_idx < end
        invariant
            total_rows == rows@.len(),
            sv == sheet_view(rows@),
            start <= row_idx,
            end <= total_rows,
            row_idx <= end || row_idx == start,
            start as int == (if feature_row >= 1 { feature_row - 1 } else { 0 }),
            end as int == (if start + 3 < sv.len() { start + 3 } else { sv.len() as int }),
            first_header_row(sv, start as int, end as int) == first_header_row(sv, row_idx as int, end as int),
        decreases end - row_idx,
    {
        let (headers, count) = headers_of(&rows[row_idx]);
        assert(sv[row_idx as int] == cell_views(rows@[row_idx as int]@));
        if count >= 3 {
            assert(is_header_row(sv[row_idx as int]));
            assert(first_header_row(sv, row_idx as int, end as int) == row_idx);
            assert(first_header_row(sv, start as int, end as int) == row_idx);
            assert(detected_headers(sv, feature_row) == Some((row_headers(sv[row_idx as int]), (row_idx + 1) as u32)));
            return Some((headers, (row_idx + 1) as u32));
        }
        row_idx = row_idx + 1;
    }
    if start > 0 && total_rows > 0 {
        let (headers, count) = headers_of(&rows[0]);
        assert(sv[0] == cell_views(rows@[0]@));
        if count >= 3 {
            return Some((headers, 1));
        }
    }
    None
}

// ----- the date column -----

/// The cell at a row and column, `None` beyond the row's end.
pub open spec fn cell_at(rows: Seq<Seq<Option<Seq<char>>>>, r: int, c: int) -> Option<Seq<char>> {
    if 0 <= c < rows[r].len() {
        rows[r][c]
    } else {
        None
    }
}

/// The position, in row-major order, of the first cell among the first
/// three rows whose text is the column name; -1 when none is.
pub open spec fn column_position(rows: Seq<Seq<Option<Seq<char>>>>, width: int, name: Seq<char>) -> int {
    let h: int = if rows.len() < 3 { rows.len() as int } else { 3 };
    column_search(rows, width, name, 0, h * width)
}

/// The first position from `k` on (row `k / width`, column `k % width`)
/// whose cell is the column name.
pub open spec fn column_search(rows: Seq<Seq<Option<Seq<char>>>>, width: int, name: Seq<char>, k: int, end: int) -> int
    decreases end - k,
{
    if k >= end || width <= 0 {
        -1
    } else if cell_at(rows, k / width, k % width) == Some(name) {
        k
    } else {
        column_search(rows, width, name, k + 1, end)
    }
}

/// The first row from `r` on whose cell in column `c` is not blank.
pub open spec fn value_search(rows: Seq<Seq<Option<Seq<char>>>>, c: int, r: int) -> Option<Seq<char>>
    decreases rows.len() - r,
{
    if r >= rows.len() {
        None
    } else {
        match cell_at(rows, r, c) {
            Some(s) => if !is_blank(s) { Some(s) } else { value_search(rows, c, r + 1) },
            None => value_search(rows, c, r + 1),
        }
    }
}

/// The first value of a column: the column is found by its name among the
/// first three rows, and its first non-blank cell below the row holding
/// the name (the header rows skipped) is the value.
pub open spec fn column_value(rows: Seq<Seq<Option<Seq<char>>>>, width: int, name: Seq<char>) -> Option<Seq<char>> {
    if name.len() == 0 || rows.len() == 0 || width == 0 {
        None
    } else {
        let k = column_position(rows, width, name);
        if k < 0 {
            None
        } else {
            value_search(rows, k % width, k / width + 1)
        }
    }
}

/// The characters of an optional cell.
pub open spec fn opt_cell_view(c: Option<String>) -> Option<Seq<char>> {
    match c {
        Some(s) => Some(s@),
        None => None,
    }
}

fn get_cell(rows: &Vec<Vec<Cell>>, r: usize, c: usize) -> (res: Option<String>)
    requires
        r < rows@.len(),
    ensures
        opt_cell_view(res) == cell_at(sheet_view(rows@), r as int, c as int),
{
    let row = &rows[r];
    assert(sheet_view(rows@)[r as int] == cell_views(row@));
    if c < row.len() {
        match &row[c] {
            Some(s) => Some(s.clone()),
            None => None,
        }
    } else {
        None
    }
}

/// The first column of a row, from `col` on, whose cell is the name.
fn find_in_row(rows: &Vec<Vec<Cell>>, width: usize, column_name: &str, row: usize, h: usize) -> (res: Option<usize>)
    requires
        row < h,
        h <= rows@.len(),
        width > 0,
    ensures
        match res {
            Some(c) => c < width && column_search(sheet_view(rows@), width as int, column_name@, row * width, h * width)
                == row * width + c,
            None => column_search(sheet_view(rows@), width as int, column_name@, row * width, h * width)
                == column_search(sheet_view(rows@), width as int, column_name@, (row + 1) * width, h * width),
        },
{
    let ghost sv = sheet_view(rows@);
    proof {
        assert(row * width + width == (row + 1) * width) by (nonlinear_arith);
        assert((row + 1) * width <= h * width) by (nonlinear_arith)
            requires row < h, width > 0;
    }
    let mut col: usize = 0;
    while col < width
        invariant
            sv == sheet_view(rows@),
            h <= rows@.len(),
            width > 0,
            row < h,
            col <= width,
            row * width + width == (row + 1) * width,
            (row + 1) * width <= h * width,
            column_search(sv, width as int, column_name@, row * width, h * width) == column_search(
                sv,
                width as int,
                column_name@,
                row * width + col,
                h * width,
            ),
        decreases width - col,
    {
        let ghost k = row * width + col;
        proof {
            vstd::arithmetic::div_mod::lemma_fundamental_div_mod_converse(k, width as int, row as int, col as int);
        }
        let cell = get_cell(rows, row, col);
        if let Some(s) = cell {
            if str_eq(s.as_str(), column_name) {
                return Some(col);
            }
        }
        col = col + 1;
    }
    None
}

/// Finds the first value of a named column in a sheet of `width` columns.
pub fn find_column_value(rows: &Vec<Vec<Cell>>, width: usize, column_name: &str) -> (res: Option<String>)
    ensures
        opt_cell_view(res) == column_value(sheet_view(rows@), width as int, column_name@),
{
    let ghost sv = sheet_view(rows@);
    let total_rows = rows.len();
    if column_name.is_empty() || total_rows == 0 || width == 0 {
        return None;
    }
    let h: usize = if total_rows < 3 { total_rows } else { 3 };
    let mut found: Option<(usize, usize)> = None;
    let mut row: usize = 0;
    while row < h && found.is_none()
        invariant
            total_rows == rows@.len(),
            sv == sheet_view(rows@),
            h <= total_rows,
            h == (if sv.len() < 3 { sv.len() as int } else { 3 }),
            width > 0,
            row <= h,
            match found {
                Some((r, c)) => r < h && c < width && column_position(sv, width as int, column_name@) == r * width + c,
                None => column_position(sv, width as int, column_name@) == column_search(
                    sv,
                    width as int,
                    column_name@,
                    row * width,
                    h * width,
                ),
            },
        decreases h - row,
    {
        match find_in_row(rows, width, column_name, row, h) {
            Some(c) => {
                found = Some((row, c));
            },
            None => {},
        }
        row = row + 1;
    }
    let (frow, col) = match found {
        Some(p) => p,
        None => {
            proof {
                assert(row * width == h * width);
            }
            return None;
        },
    };
    proof {
        vstd::arithmetic::div_mod::lemma_fundamental_div_mod_converse(
            frow * width + col, width as int, frow as int, col as int);
    }
    assert(column_value(sv, width as int, column_name@) == value_search(sv, col as int, frow + 1));
    let mut r: usize = frow + 1;
    while r < total_rows
        invariant
            column_value(sv, width as int, column_name@) == value_search(sv, col as int, frow + 1),
            total_rows == rows@.len(),
            sv == sheet_view(rows@),
            frow + 1 <= r <= total_rows,
            value_search(sv, col as int, frow + 1) == value_search(sv, col as int, r as int),
        decreases total_rows - r,
    {
        let cell = get_cell(rows, r, col);
        match cell {
            Some(s) => {
                let t = trim_str(s.as_str());
                if !t.as_str().is_empty() {
                    assert(cell_at(sv, r as int, col as int) == Some(s@));
                    assert(!is_blank(s@));
                    assert(value_search(sv, col as int, r as int) == Some(s@));
                    return Some(s);
                }
            },
            None => {},
        }
        r = r + 1;
    }
    None
}

/// `first_header_row` finds a header row within its range, or none.
proof fn lemma_first_header_row(rows: Seq<Seq<Option<Seq<char>>>>, from: int, to: int)
    requires
        0 <= from,
        to <= rows.len(),
    ensures
        first_header_row(rows, from, to) == -1 || (from <= first_header_row(rows, from, to) < to
            && is_header_row(rows[first_header_row(rows, from, to)])),
    decreases to - from,
{
    if from < to && !is_header_row(rows[from]) {
        lemma_first_header_row(rows, from + 1, to);
    }
}

/// A header row found in a sheet gives at least three headers that are not
/// blank, and is the row of the sheet that it reports (1-based), among the
/// named row and the two after it, or the first row (for a sheet whose row
/// numbers fit in a `u32`).
pub proof fn lemma_detected_header_row(rows: Seq<Seq<Option<Seq<char>>>>, feature_row: u32)
    requires
        rows.len() <= u32::MAX,
    ensures
        detected_headers(rows, feature_row) matches Some((headers, r)) ==> {
            let start: int = if feature_row >= 1 { feature_row - 1 } else { 0 };
            &&& 1 <= r <= rows.len()
            &&& (r == 1 || (start < r <= start + 3))
            &&& headers == row_headers(rows[r - 1])
            &&& non_blank_count(headers) >= 3
        },
{
    let start: int = if feature_row >= 1 { feature_row - 1 } else { 0 };
    let end: int = if start + 3 < rows.len() { start + 3 } else { rows.len() as int };
    lemma_first_header_row(rows, start, end);
}

/// `value_search` finds a cell that is not blank, or none.
proof fn lemma_value_search(rows: Seq<Seq<Option<Seq<char>>>>, c: int, r: int)
    ensures
        value_search(rows, c, r) matches Some(v) ==> !is_blank(v),
    decreases rows.len() - r,
{
    if r < rows.len() {
        lemma_value_search(rows, c, r + 1);
    }
}

/// A date value read from a column is never blank.
pub proof fn lemma_column_value_not_blank(rows: Seq<Seq<Option<Seq<char>>>>, width: int, name: Seq<char>)
    ensures
        column_value(rows, width, name) matches Some(v) ==> !is_blank(v),
{
    let k = column_position(rows, width, name);
    lemma_value_search(rows, k % width, k / width + 1);
}

/// `first_header_row` gives the first row in its range with three non-blank
/// headers.
proof fn lemma_first_header_row_at(rows: Seq<Seq<Option<Seq<char>>>>, from: int, to: int, r: int)
    requires
        0 <= from <= r < to <= rows.len(),
        non_blank_count(row_headers(rows[r])) >= 3,
        forall|j: int| from <= j < r ==> non_blank_count(row_headers(#[trigger] rows[j])) < 3,
    ensures
        first_header_row(rows, from, to) == r,
    decreases r - from,
{
    if from < r {
        lemma_first_header_row_at(rows, from + 1, to, r);
    }
}

/// The header row is looked for in the named row (1-based; 0 counts as 1)
/// and the two after it: when one of those rows of the sheet has at least
/// three headers that are not blank, the first such row is found, with its
/// headers and its 1-based number.
pub proof fn lemma_header_in_named_rows(rows: Seq<Seq<Option<Seq<char>>>>, feature_row: u32, r: int)
    requires
        rows.len() <= u32::MAX,
        (if feature_row >= 1 { feature_row - 1 } else { 0 }) <= r < (if feature_row >= 1 { feature_row - 1 } else { 0 }) + 3,
        r < rows.len(),
        non_blank_count(row_headers(rows[r])) >= 3,
        forall|j: int|
            (if feature_row >= 1 { feature_row - 1 } else { 0 }) <= j < r ==> non_blank_count(
                row_headers(#[trigger] rows[j]),
            ) < 3,
    ensures
        detected_headers(rows, feature_row) == Some((row_headers(rows[r]), (r + 1) as u32)),
{
    let start: int = if feature_row >= 1 { feature_row - 1 } else { 0 };
    let end: int = if start + 3 < rows.len() { start + 3 } else { rows.len() as int };
    lemma_first_header_row_at(rows, start, end, r);
}

} // verus!
