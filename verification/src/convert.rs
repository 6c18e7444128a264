//! The whole decision made for one sheet of a workbook.
use vstd::prelude::*;
use crate::cell::Grid;
use crate::names::{output_file_name, sanitized_of, should_skip_sheet};
use crate::serialize::{grid_text, serialize_grid};

verus! {

/// Convert one sheet: a sheet literally named `hiddenSheet` yields no
/// output file at all; every other sheet yields the derived output file
/// name together with the serialized text of its grid.
pub fn convert_sheet(stem: &str, sheet: &str, g: &Grid) -> (r: Option<(String, String)>)
    requires
        g.wf(),
    ensures
        r is None <==> sheet@ == "hiddenSheet"@,
        r matches Some(p) ==> p.0@ == sanitized_of(stem@ + "_"@ + sheet@ + ".csv"@),
        r matches Some(p) ==> p.1@ == grid_text(g.view_rows()),
{
    if should_skip_sheet(sheet) {
        None
    } else {
        Some((output_file_name(stem, sheet), serialize_grid(g)))
    }
}

} // verus!
