//! The typed cell grid that a sheet yields.
use vstd::prelude::*;
use crate::date::MAX_DAY_COUNT;

verus! {

/// A symbolic cell error code.
#[derive(Clone, Copy, Debug, PartialEq, Eq)]
pub enum CellError {
    Div0,
    NA,
    Name,
    Null,
    Num,
    Ref,
    Value,
    GettingData,
}

/// The symbolic name under which an error cell is written out.
pub open spec fn error_text(e: CellError) -> Seq<char> {
    match e {
        CellError::Div0 => "Div0"@,
        CellError::NA => "NA"@,
        CellError::Name => "Name"@,
        CellError::Null => "Null"@,
        CellError::Num => "Num"@,
        CellError::Ref => "Ref"@,
        CellError::Value => "Value"@,
        CellError::GettingData => "GettingData"@,
    }
}

/// The symbolic name of an error code.
pub fn error_name(e: &CellError) -> (r: &'static str)
    ensures
        r@ == error_text(*e),
{
    match e {
        CellError::Div0 => "Div0",
        CellError::NA => "NA",
        CellError::Name => "Name",
        CellError::Null => "Null",
        CellError::Num => "Num",
        CellError::Ref => "Ref",
        CellError::Value => "Value",
        CellError::GettingData => "GettingData",
    }
}

/// One typed cell value. A floating-point cell carries its default decimal
/// text, rendered by the caller: verified code holds no floats, and the
/// text is written out verbatim. A numeric date-time carries the day count
/// since the epoch 1899-12-30 and the seconds within the day, both already
/// split off the fractional-day value by the caller.
pub enum Cell {
    Empty,
    Text(String),
    Float(String),
    Int(i64),
    Bool(bool),
    DateTime { days: u32, secs: u32 },
    DateTimeIso(String),
    DurationIso(String),
    Error(CellError),
}

/// A date-time cell must carry a representable date (up to 9999-12-31)
/// and a time within one day.
pub open spec fn cell_wf(c: Cell) -> bool {
    match c {
        Cell::DateTime { days, secs } => days <= MAX_DAY_COUNT && secs < 86400,
        _ => true,
    }
}

/// A rectangular grid of cells: every row has exactly `cols` fields,
/// and there is at least one column.
pub struct Grid {
    pub rows: Vec<Vec<Cell>>,
    pub cols: usize,
}

impl Grid {
    pub open spec fn wf(self) -> bool {
        &&& self.cols >= 1
        &&& forall|i: int| 0 <= i < self.rows@.len() ==> (#[trigger] self.rows@[i])@.len()
            == self.cols
        &&& forall|i: int, j: int|
            0 <= i < self.rows@.len() && 0 <= j < self.rows@[i]@.len() ==> cell_wf(
                #[trigger] self.rows@[i]@[j],
            )
    }

    /// The grid as a sequence of rows of cells.
    pub open spec fn view_rows(self) -> Seq<Seq<Cell>> {
        self.rows@.map_values(|r: Vec<Cell>| r@)
    }
}

} // verus!
