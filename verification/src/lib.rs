//! Conversion of spreadsheet workbook sheets into semicolon-delimited,
//! CRLF-terminated text files.
//!
//! The heart of the library is the grid serializer ([`serialize::serialize_grid`]),
//! which writes a typed cell grid with exact per-type formatting, and the
//! date decoder ([`date::decode_date_time`]), which turns the legacy
//! fractional-day encoding into a calendar date-time. Both carry full
//! functional contracts; the surrounding pieces (sheet skipping, accepted
//! input extensions, output file naming) are verified as well, with only
//! the file-name sanitization delegated to an outside crate behind a
//! trusted declaration.
use vstd::prelude::*;

pub mod cell;
pub mod convert;
pub mod date;
pub mod names;
pub mod serialize;
pub mod text;

verus! {

} // verus!
