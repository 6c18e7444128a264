//! Serializing a cell grid into semicolon-delimited, CRLF-terminated text.
use vstd::prelude::*;
use crate::cell::{Cell, CellError, Grid, cell_wf, error_text, error_name};
use crate::date::{
    DateTime, civil_from_days, decode_date_time, hour_of, lemma_civil_from_days_props, minute_of,
    second_of,
};
use crate::text::{
    clean, count_char, dec2, dec4, dec_int, dec_nat, lemma_clean_count, lemma_count_char_concat,
    lemma_count_char_pair, lemma_count_char_single, lemma_dec2_clean, lemma_dec4_clean,
    lemma_dec_int_clean, render2, render4, render_i64,
};

verus! {

/// The `YYYY-MM-DDTHH:MM:SS` text of a calendar date-time.
pub open spec fn date_time_text(y: int, m: int, d: int, h: int, mi: int, s: int) -> Seq<char> {
    dec4(y) + "-"@ + dec2(m) + "-"@ + dec2(d) + "T"@ + dec2(h) + ":"@ + dec2(mi) + ":"@ + dec2(s)
}

/// Format a calendar date-time as `YYYY-MM-DDTHH:MM:SS`.
pub fn format_date_time(dt: &DateTime) -> (r: String)
    requires
        dt.wf(),
    ensures
        r@ == date_time_text(
            dt.year as int,
            dt.month as int,
            dt.day as int,
            dt.hour as int,
            dt.minute as int,
            dt.second as int,
        ),
{
    let mut s = render4(dt.year);
    s.append("-");
    s.append(render2(dt.month).as_str());
    s.append("-");
    s.append(render2(dt.day).as_str());
    s.append("T");
    s.append(render2(dt.hour).as_str());
    s.append(":");
    s.append(render2(dt.minute).as_str());
    s.append(":");
    s.append(render2(dt.second).as_str());
    s
}

/// The text a single field is written as, by cell type: nothing for an
/// empty cell, strings verbatim, decimal text for numbers, the decoded
/// calendar date-time for a numeric date, lowercase literals for booleans,
/// and the symbolic name for an error.
pub open spec fn cell_text(c: Cell) -> Seq<char> {
    match c {
        Cell::Empty => Seq::<char>::empty(),
        Cell::Text(s) => s@,
        Cell::Float(t) => t@,
        Cell::Int(i) => dec_int(i as int),
        Cell::Bool(b) => if b {
            "true"@
        } else {
            "false"@
        },
        Cell::DateTime { days, secs } => {
            let (y, m, d) = civil_from_days(days as int);
            date_time_text(
                y,
                m,
                d,
                hour_of(secs as int),
                minute_of(secs as int),
                second_of(secs as int),
            )
        },
        Cell::DateTimeIso(s) => s@,
        Cell::DurationIso(s) => s@,
        Cell::Error(e) => error_text(e),
    }
}

/// Write one field.
pub fn render_cell(c: &Cell) -> (r: String)
    requires
        cell_wf(*c),
    ensures
        r@ == cell_text(*c),
{
    match c {
        Cell::Empty => String::new(),
        Cell::Text(s) => String::from_str(s.as_str()),
        Cell::Float(t) => String::from_str(t.as_str()),
        Cell::Int(i) => render_i64(*i),
        Cell::Bool(b) => String::from_str(if *b { "true" } else { "false" }),
        Cell::DateTime { days, secs } => {
            let dt = decode_date_time(*days, *secs);
            format_date_time(&dt)
        },
        Cell::DateTimeIso(s) => String::from_str(s.as_str()),
        Cell::DurationIso(s) => String::from_str(s.as_str()),
        Cell::Error(e) => String::from_str(error_name(e)),
    }
}

/// The fields of one row, joined by the separator `;`: one separator after
/// every field but the last.
pub open spec fn fields_text(r: Seq<Cell>) -> Seq<char>
    decreases r.len(),
{
    if r.len() == 0 {
        Seq::<char>::empty()
    } else if r.len() == 1 {
        cell_text(r[0])
    } else {
        fields_text(r.drop_last()) + ";"@ + cell_text(r.last())
    }
}

/// One row: its fields followed by the row terminator CRLF.
pub open spec fn row_text(r: Seq<Cell>) -> Seq<char> {
    fields_text(r) + "\r\n"@
}

/// The whole grid: every row in top-to-bottom order, each terminated by
/// CRLF, the last row included.
pub open spec fn grid_text(g: Seq<Seq<Cell>>) -> Seq<char>
    decreases g.len(),
{
    if g.len() == 0 {
        Seq::<char>::empty()
    } else {
        grid_text(g.drop_last()) + row_text(g.last())
    }
}

/// Serialize a grid. The output is exactly `grid_text` of the grid: rows
/// top to bottom, fields left to right, `;` between fields, CRLF after
/// every row, and no escaping of field contents.
pub fn serialize_grid(g: &Grid) -> (r: String)
    requires
        g.wf(),
    ensures
        r@ == grid_text(g.view_rows()),
{
    let ghost gs = g.view_rows();
    let mut out = String::new();
    let mut i: usize = 0;
    assert(out@ =~= grid_text(gs.take(0)));
    while i < g.rows.len()
        invariant
            g.wf(),
            gs == g.view_rows(),
            0 <= i <= g.rows@.len(),
            out@ == grid_text(gs.take(i as int)),
        decreases g.rows@.len() - i,
    {
        let row = &g.rows[i];
        assert(gs[i as int] == row@);
        let mut j: usize = 0;
        while j < row.len()
            invariant
                g.wf(),
                gs == g.view_rows(),
                0 <= i < g.rows@.len(),
                row == &g.rows@[i as int],
                gs[i as int] == row@,
                0 <= j <= row@.len(),
                out@ == grid_text(gs.take(i as int)) + fields_text(row@.take(j as int)),
            decreases row@.len() - j,
        {
            if j > 0 {
                out.append(";");
            }
            let piece = render_cell(&row[j]);
            out.append(piece.as_str());
            proof {
                let pre = row@.take(j as int);
                let post = row@.take(j + 1);
                assert(post.drop_last() =~= pre);
                assert(post.last() == row@[j as int]);
                if j == 0 {
                    assert(out@ =~= grid_text(gs.take(i as int)) + fields_text(post));
                } else {
                    assert(fields_text(post) == fields_text(pre) + ";"@ + cell_text(
                        row@[j as int],
                    ));
                    assert(out@ =~= grid_text(gs.take(i as int)) + fields_text(post));
                }
            }
            j = j + 1;
        }
        out.append("\r\n");
        proof {
            assert(row@.take(row@.len() as int) =~= row@);
            let pre = gs.take(i as int);
            let post = gs.take(i + 1);
            assert(post.drop_last() =~= pre);
            assert(post.last() == gs[i as int]);
            assert(out@ =~= grid_text(post));
        }
        i = i + 1;
    }
    proof {
        assert(gs.take(gs.len() as int) =~= gs);
    }
    out
}

/// A cell whose verbatim text carries neither the field separator nor a
/// CR or LF. Only string-bearing cells can carry them at all: their
/// contents are written unescaped, which is what breaks the line shape
/// when they do.
pub open spec fn cell_clean(c: Cell) -> bool {
    match c {
        Cell::Text(s) => clean(s@),
        Cell::Float(t) => clean(t@),
        Cell::DateTimeIso(s) => clean(s@),
        Cell::DurationIso(s) => clean(s@),
        _ => true,
    }
}

pub open spec fn row_clean(r: Seq<Cell>) -> bool {
    forall|k: int| 0 <= k < r.len() ==> cell_wf(#[trigger] r[k]) && cell_clean(#[trigger] r[k])
}

/// The decoded date-time text contains only digits and punctuation, never
/// a separator or line break.
proof fn lemma_date_time_text_clean(y: int, m: int, d: int, h: int, mi: int, s: int)
    requires
        0 <= y < 10000,
        0 <= m < 100,
        0 <= d < 100,
        0 <= h < 100,
        0 <= mi < 100,
        0 <= s < 100,
    ensures
        clean(date_time_text(y, m, d, h, mi, s)),
{
    reveal_strlit("-");
    reveal_strlit("T");
    reveal_strlit(":");
    lemma_dec4_clean(y);
    lemma_dec2_clean(m);
    lemma_dec2_clean(d);
    lemma_dec2_clean(h);
    lemma_dec2_clean(mi);
    lemma_dec2_clean(s);
}

/// The text of a well-formed, clean cell is itself clean.
pub proof fn lemma_cell_text_clean(c: Cell)
    requires
        cell_wf(c),
        cell_clean(c),
    ensures
        clean(cell_text(c)),
{
    match c {
        Cell::Int(i) => {
            lemma_dec_int_clean(i as int);
        },
        Cell::Bool(b) => {
            reveal_strlit("true");
            reveal_strlit("false");
        },
        Cell::DateTime { days, secs } => {
            lemma_civil_from_days_props(days as int);
            let (y, m, d) = civil_from_days(days as int);
            assert(secs < 86400);
            assert(hour_of(secs as int) < 24 && minute_of(secs as int) < 60 && second_of(
                secs as int,
            ) < 60) by {
                vstd::arithmetic::div_mod::lemma_div_is_ordered(secs as int, 86399, 3600);
            }
            lemma_date_time_text_clean(
                y,
                m,
                d,
                hour_of(secs as int),
                minute_of(secs as int),
                second_of(secs as int),
            );
        },
        Cell::Error(e) => {
            reveal_strlit("Div0");
            reveal_strlit("NA");
            reveal_strlit("Name");
            reveal_strlit("Null");
            reveal_strlit("Num");
            reveal_strlit("Ref");
            reveal_strlit("Value");
            reveal_strlit("GettingData");
        },
        _ => {},
    }
}

/// The fields of a row of clean cells hold one separator between each two
/// neighbouring fields and no line break.
pub proof fn lemma_fields_text_shape(r: Seq<Cell>)
    requires
        r.len() >= 1,
        row_clean(r),
    ensures
        count_char(fields_text(r), ';') == r.len() - 1,
        count_char(fields_text(r), '\r') == 0,
        count_char(fields_text(r), '\n') == 0,
    decreases r.len(),
{
    reveal_strlit(";");
    if r.len() == 1 {
        lemma_cell_text_clean(r[0]);
        lemma_clean_count(cell_text(r[0]), ';');
        lemma_clean_count(cell_text(r[0]), '\r');
        lemma_clean_count(cell_text(r[0]), '\n');
    } else {
        let head = r.drop_last();
        assert(row_clean(head));
        lemma_fields_text_shape(head);
        lemma_cell_text_clean(r.last());
        lemma_clean_count(cell_text(r.last()), ';');
        lemma_clean_count(cell_text(r.last()), '\r');
        lemma_clean_count(cell_text(r.last()), '\n');
        lemma_count_char_single(";"@, ';');
        lemma_count_char_single(";"@, '\r');
        lemma_count_char_single(";"@, '\n');
        lemma_count_char_concat(fields_text(head), ";"@, ';');
        lemma_count_char_concat(fields_text(head) + ";"@, cell_text(r.last()), ';');
        lemma_count_char_concat(fields_text(head), ";"@, '\r');
        lemma_count_char_concat(fields_text(head) + ";"@, cell_text(r.last()), '\r');
        lemma_count_char_concat(fields_text(head), ";"@, '\n');
        lemma_count_char_concat(fields_text(head) + ";"@, cell_text(r.last()), '\n');
    }
}

/// One written row of clean cells is one line: exactly one separator
/// fewer than it has fields, exactly one CR and one LF, and it ends in
/// CRLF.
pub proof fn lemma_row_text_shape(r: Seq<Cell>)
    requires
        r.len() >= 1,
        row_clean(r),
    ensures
        count_char(row_text(r), ';') == r.len() - 1,
        count_char(row_text(r), '\r') == 1,
        count_char(row_text(r), '\n') == 1,
        row_text(r).len() >= 2,
        row_text(r)[row_text(r).len() - 2] == '\r',
        row_text(r)[row_text(r).len() - 1] == '\n',
{
    reveal_strlit("\r\n");
    lemma_fields_text_shape(r);
    lemma_count_char_pair("\r\n"@, ';');
    lemma_count_char_pair("\r\n"@, '\r');
    lemma_count_char_pair("\r\n"@, '\n');
    lemma_count_char_concat(fields_text(r), "\r\n"@, ';');
    lemma_count_char_concat(fields_text(r), "\r\n"@, '\r');
    lemma_count_char_concat(fields_text(r), "\r\n"@, '\n');
}

/// The serialized text of a grid of R rows and C columns of clean cells
/// holds exactly R line feeds (one per row, the last row included) and
/// exactly R * (C - 1) separators: C - 1 in each line.
pub proof fn lemma_grid_text_shape(g: Seq<Seq<Cell>>, cols: int)
    requires
        cols >= 1,
        forall|i: int| 0 <= i < g.len() ==> (#[trigger] g[i]).len() == cols,
        forall|i: int| 0 <= i < g.len() ==> row_clean(#[trigger] g[i]),
    ensures
        count_char(grid_text(g), '\n') == g.len(),
        count_char(grid_text(g), '\r') == g.len(),
        count_char(grid_text(g), ';') == g.len() * (cols - 1),
    decreases g.len(),
{
    if g.len() == 0 {
        assert(g.len() * (cols - 1) == 0);
    } else {
        let head = g.drop_last();
        lemma_grid_text_shape(head, cols);
        lemma_row_text_shape(g.last());
        lemma_count_char_concat(grid_text(head), row_text(g.last()), '\n');
        lemma_count_char_concat(grid_text(head), row_text(g.last()), '\r');
        lemma_count_char_concat(grid_text(head), row_text(g.last()), ';');
        assert((g.len() - 1) * (cols - 1) + (cols - 1) == g.len() * (cols - 1))
            by (nonlinear_arith);
    }
}

/// Serialization is a pure function of the grid: any two outputs written
/// for the same grid are identical, byte for byte.
pub proof fn lemma_serialize_deterministic(g: Seq<Seq<Cell>>, out1: Seq<char>, out2: Seq<char>)
    requires
        out1 == grid_text(g),
        out2 == grid_text(g),
    ensures
        out1 == out2,
{
}

/// Boolean cells are written as the lowercase words `true` and `false`,
/// never as digits.
pub proof fn lemma_bool_text_lowercase()
    ensures
        cell_text(Cell::Bool(true)) == seq!['t', 'r', 'u', 'e'],
        cell_text(Cell::Bool(false)) == seq!['f', 'a', 'l', 's', 'e'],
        cell_text(Cell::Bool(true)) != dec_nat(1),
        cell_text(Cell::Bool(false)) != dec_nat(0),
{
    reveal_strlit("true");
    reveal_strlit("false");
    assert(cell_text(Cell::Bool(true)) =~= seq!['t', 'r', 'u', 'e']);
    assert(cell_text(Cell::Bool(false)) =~= seq!['f', 'a', 'l', 's', 'e']);
}

/// Error cells are written as their symbolic names: words that start
/// with an uppercase letter, never a numeric code.
pub proof fn lemma_error_text_symbolic()
    ensures
        forall|e: CellError| (#[trigger] error_text(e)).len() >= 2,
        forall|e: CellError| 'A' <= #[trigger] error_text(e)[0] <= 'Z',
{
    reveal_strlit("Div0");
    reveal_strlit("NA");
    reveal_strlit("Name");
    reveal_strlit("Null");
    reveal_strlit("Num");
    reveal_strlit("Ref");
    reveal_strlit("Value");
    reveal_strlit("GettingData");
    assert forall|e: CellError| (#[trigger] error_text(e)).len() >= 2 && 'A' <= error_text(
        e,
    )[0] <= 'Z' by {
        match e {
            CellError::Div0 => {},
            CellError::NA => {},
            CellError::Name => {},
            CellError::Null => {},
            CellError::Num => {},
            CellError::Ref => {},
            CellError::Value => {},
            CellError::GettingData => {},
        }
    }
}

} // verus!
