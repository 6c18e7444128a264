use xlsx2csv::cell::{Cell, CellError, Grid};
use xlsx2csv::serialize::{render_cell, serialize_grid};

fn float_cell(f: f64) -> Cell {
    Cell::Float(format!("{}", f))
}

fn grid(rows: Vec<Vec<Cell>>, cols: usize) -> Grid {
    Grid { rows, cols }
}

#[test]
fn two_by_two_scenario() {
    let g = grid(
        vec![
            vec![Cell::Text(String::from("A")), float_cell(1.0)],
            vec![float_cell(2.0), Cell::Bool(true)],
        ],
        2,
    );
    assert_eq!(serialize_grid(&g), "A;1\r\n2;true\r\n");
}

#[test]
fn line_and_separator_counts() {
    let g = grid(
        vec![
            vec![Cell::Int(1), Cell::Int(2), Cell::Int(3)],
            vec![Cell::Empty, Cell::Empty, Cell::Empty],
            vec![Cell::Bool(false), float_cell(0.5), Cell::Text(String::from("x"))],
            vec![Cell::Int(-7), Cell::Empty, Cell::Bool(true)],
        ],
        3,
    );
    let out = serialize_grid(&g);
    assert_eq!(out.matches("\r\n").count(), 4);
    assert_eq!(out.matches(';').count(), 4 * (3 - 1));
    for line in out.split("\r\n").filter(|l| !l.is_empty()) {
        assert_eq!(line.matches(';').count(), 2);
    }
    assert_eq!(out, "1;2;3\r\n;;\r\nfalse;0.5;x\r\n-7;;true\r\n");
}

#[test]
fn serialization_is_deterministic() {
    let g = grid(
        vec![vec![Cell::Text(String::from("same")), Cell::DateTime { days: 45000, secs: 1 }]],
        2,
    );
    let first = serialize_grid(&g);
    let second = serialize_grid(&g);
    assert_eq!(first.as_bytes(), second.as_bytes());
}

#[test]
fn float_cells_use_default_decimal_text() {
    assert_eq!(format!("{}", 3.14_f64), "3.14");
    assert_eq!(format!("{}", 3.0_f64), "3");
    let g = grid(vec![vec![float_cell(3.14), float_cell(3.0)]], 2);
    assert_eq!(serialize_grid(&g), "3.14;3\r\n");
}

#[test]
fn bool_cells_are_lowercase_words() {
    assert_eq!(render_cell(&Cell::Bool(true)), "true");
    assert_eq!(render_cell(&Cell::Bool(false)), "false");
    assert_ne!(render_cell(&Cell::Bool(true)), "1");
    assert_ne!(render_cell(&Cell::Bool(false)), "0");
}

#[test]
fn error_cells_use_symbolic_names() {
    let cases = vec![
        (CellError::Div0, "Div0"),
        (CellError::NA, "NA"),
        (CellError::Name, "Name"),
        (CellError::Null, "Null"),
        (CellError::Num, "Num"),
        (CellError::Ref, "Ref"),
        (CellError::Value, "Value"),
        (CellError::GettingData, "GettingData"),
    ];
    for (e, name) in cases {
        let out = render_cell(&Cell::Error(e));
        assert_eq!(out, name);
        assert!(out.parse::<i64>().is_err());
    }
}

#[test]
fn int_cells_are_decimal() {
    assert_eq!(render_cell(&Cell::Int(0)), "0");
    assert_eq!(render_cell(&Cell::Int(1234567890)), "1234567890");
    assert_eq!(render_cell(&Cell::Int(-42)), "-42");
    assert_eq!(render_cell(&Cell::Int(i64::MAX)), "9223372036854775807");
    assert_eq!(render_cell(&Cell::Int(i64::MIN)), "-9223372036854775808");
}

#[test]
fn iso_cells_are_verbatim() {
    let g = grid(
        vec![vec![
            Cell::DateTimeIso(String::from("2023-03-15T08:30:00")),
            Cell::DurationIso(String::from("PT2H30M")),
        ]],
        2,
    );
    assert_eq!(serialize_grid(&g), "2023-03-15T08:30:00;PT2H30M\r\n");
}

#[test]
fn empty_cells_write_nothing() {
    let g = grid(vec![vec![Cell::Empty, Cell::Empty], vec![Cell::Empty, Cell::Text(String::new())]], 2);
    assert_eq!(serialize_grid(&g), ";\r\n;\r\n");
}

#[test]
fn single_column_has_no_separator() {
    let g = grid(vec![vec![Cell::Int(1)], vec![Cell::Int(2)]], 1);
    assert_eq!(serialize_grid(&g), "1\r\n2\r\n");
}

#[test]
fn date_time_cells_are_decoded() {
    let g = grid(vec![vec![Cell::DateTime { days: 1, secs: 43200 }]], 1);
    assert_eq!(serialize_grid(&g), "1899-12-31T12:00:00\r\n");
}
