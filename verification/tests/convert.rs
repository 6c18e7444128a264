use xlsx2csv::cell::{Cell, Grid};
use xlsx2csv::convert::convert_sheet;

fn sheet1_grid() -> Grid {
    Grid {
        rows: vec![
            vec![Cell::Text(String::from("A")), Cell::Float(format!("{}", 1.0_f64))],
            vec![Cell::Float(format!("{}", 2.0_f64)), Cell::Bool(true)],
        ],
        cols: 2,
    }
}

#[test]
fn hidden_sheet_yields_no_file() {
    assert!(convert_sheet("name", "hiddenSheet", &sheet1_grid()).is_none());
}

#[test]
fn workbook_with_hidden_sheet_yields_one_file() {
    let mut written: Vec<(String, String)> = Vec::new();
    for sheet in ["Sheet1", "hiddenSheet"] {
        if let Some(out) = convert_sheet("name", sheet, &sheet1_grid()) {
            written.push(out);
        }
    }
    assert_eq!(written.len(), 1);
    assert_eq!(written[0].0, "name_Sheet1.csv");
    assert_eq!(written[0].1, "A;1\r\n2;true\r\n");
}

#[test]
fn ordinary_sheet_yields_name_and_contents() {
    let g = Grid { rows: vec![vec![Cell::Int(5)]], cols: 1 };
    let (name, contents) = convert_sheet("book", "Data", &g).unwrap();
    assert_eq!(name, "book_Data.csv");
    assert_eq!(contents, "5\r\n");
}
