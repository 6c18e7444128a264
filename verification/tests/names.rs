use xlsx2csv::names::{is_excel_extension, output_file_name, should_skip_sheet};

#[test]
fn hidden_sheet_is_skipped() {
    assert!(should_skip_sheet("hiddenSheet"));
    assert!(!should_skip_sheet("Sheet1"));
    assert!(!should_skip_sheet("hiddensheet"));
    assert!(!should_skip_sheet("hiddenSheet2"));
    assert!(!should_skip_sheet(""));
}

#[test]
fn accepted_extensions() {
    assert!(is_excel_extension("xlsx"));
    assert!(is_excel_extension("xlsm"));
    assert!(is_excel_extension("xlsb"));
    assert!(is_excel_extension("xls"));
}

#[test]
fn extensions_are_case_insensitive() {
    assert!(is_excel_extension("XLSX"));
    assert!(is_excel_extension("Xlsm"));
    assert!(is_excel_extension("xLsB"));
    assert!(is_excel_extension("XLS"));
}

#[test]
fn other_extensions_are_rejected() {
    assert!(!is_excel_extension("csv"));
    assert!(!is_excel_extension("xltx"));
    assert!(!is_excel_extension("xl"));
    assert!(!is_excel_extension("xlsxx"));
    assert!(!is_excel_extension(""));
    assert!(!is_excel_extension("ods"));
}

#[test]
fn output_name_joins_stem_and_sheet() {
    assert_eq!(output_file_name("book", "Sheet1"), "book_Sheet1.csv");
}

#[test]
fn output_name_strips_illegal_characters() {
    assert_eq!(output_file_name("book", "a/b"), "book_ab.csv");
    assert_eq!(output_file_name("book", "q?<>*"), "book_q.csv");
    assert_eq!(output_file_name("my:book", "x|y"), "mybook_xy.csv");
}

#[test]
fn output_name_is_truncated_to_255_bytes() {
    let long = "s".repeat(300);
    let name = output_file_name("book", &long);
    assert_eq!(name.len(), 255);
    assert!(name.starts_with("book_sss"));
}
