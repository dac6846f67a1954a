use eaa::reader;

fn row(cells: &[Option<&str>]) -> Vec<Option<String>> {
    cells.iter().map(|c| c.map(|s| s.to_string())).collect()
}

#[test]
fn excel_extensions() {
    assert!(reader::is_excel_file("/a/b/report.XLSX"));
    assert!(reader::is_excel_file("report.xls"));
    assert!(reader::is_excel_file("report.xlsm"));
    assert!(!reader::is_excel_file("report.csv"));
    assert!(!reader::is_excel_file("xlsx"));
    assert!(reader::is_excel_extension(Some("XlSx")));
    assert!(!reader::is_excel_extension(None));
}

#[test]
fn header_row_detection() {
    let sheet = vec![
        row(&[Some("标题"), None, None]),
        row(&[Some("a"), Some(" "), Some("b"), Some("c")]),
        row(&[Some("1"), Some("2"), Some("3")]),
    ];
    let (h, r) = reader::detect_header_row(&sheet, 1).unwrap();
    assert_eq!(r, 2);
    assert_eq!(h, vec!["a", " ", "b", "c"]);
    let (_, r) = reader::detect_header_row(&sheet, 3).unwrap();
    assert_eq!(r, 3);
    let only_title = vec![row(&[Some("x"), Some("y"), Some("z")]), row(&[Some("t"), None, None])];
    let (_, r) = reader::detect_header_row(&only_title, 2).unwrap();
    assert_eq!(r, 1);
    assert!(reader::detect_header_row(&vec![row(&[Some("x")])], 1).is_none());
}

#[test]
fn column_values() {
    let sheet = vec![
        row(&[Some("名称"), Some("交易日期")]),
        row(&[Some("a"), Some("  ")]),
        row(&[Some("b"), Some("2026-06-21")]),
    ];
    assert_eq!(reader::find_column_value(&sheet, 2, "交易日期"), Some("2026-06-21".to_string()));
    assert_eq!(reader::find_column_value(&sheet, 2, "名称"), Some("a".to_string()));
    assert_eq!(reader::find_column_value(&sheet, 2, "缺失"), None);
    assert_eq!(reader::find_column_value(&sheet, 2, ""), None);
    assert_eq!(reader::find_column_value(&sheet, 0, "名称"), None);
}

#[test]
fn excel_file_by_final_extension() {
    assert!(!reader::is_excel_file(".xlsx"));
    assert!(!reader::is_excel_file("report.xlsx.bak"));
    assert!(!reader::is_excel_file("/in/dir.xlsx/report"));
    assert!(!reader::is_excel_file("report."));
    assert!(reader::is_excel_file("/in/archive.2026.xls"));
}

#[test]
fn column_value_below_its_header_row() {
    let sheet = vec![
        row(&[Some("报表"), Some("2026-01-01")]),
        row(&[Some("名称"), Some("交易日期")]),
        row(&[Some("a"), Some("2026-06-21")]),
    ];
    assert_eq!(reader::find_column_value(&sheet, 2, "交易日期"), Some("2026-06-21".to_string()));
    let only_header = vec![row(&[Some("交易日期")])];
    assert_eq!(reader::find_column_value(&only_header, 1, "交易日期"), None);
}

#[test]
fn excel_file_with_trailing_separator() {
    assert!(reader::is_excel_file("/data/Report.XLSX"));
    assert!(reader::is_excel_file("/data/b.xlsx/"));
    assert!(reader::is_excel_file("/data/b.xlsx/."));
    assert!(!reader::is_excel_file("/data/a.xlsb"));
}
