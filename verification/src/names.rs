//! The decisions made per sheet and per input file: which sheets are
//! skipped, which input extensions are accepted, and how an output file
//! name is derived.
use vstd::prelude::*;

verus! {

/// What `sanitize_filename::sanitize_with_options` returns for a name,
/// with illegal filesystem characters stripped, the result truncated to
/// 255 bytes, and Windows reserved device names avoided.
pub uninterp spec fn sanitized_of(s: Seq<char>) -> Seq<char>;

/// Relies on `sanitize_filename::sanitize_with_options` under fixed
/// options (empty replacement, truncation on, Windows reserved names
/// avoided): built from fixed patterns, its result depends on the name
/// alone.
#[verifier::external_body]
fn sanitize_name(name: &str) -> (r: String)
    ensures
        r@ == sanitized_of(name@),
{
    sanitize_filename::sanitize_with_options(
        name,
        sanitize_filename::Options { windows: true, truncate: true, replacement: "" },
    )
}

/// The name of the output file for one sheet: the workbook's base name,
/// an underscore, the sheet name, and the `.csv` extension, the whole
/// sanitized for use as a file name.
pub fn output_file_name(stem: &str, sheet: &str) -> (r: String)
    ensures
        r@ == sanitized_of(stem@ + "_"@ + sheet@ + ".csv"@),
{
    let mut n = String::from_str(stem);
    n.append("_");
    n.append(sheet);
    n.append(".csv");
    sanitize_name(n.as_str())
}

/// A sheet with this exact name is never written out.
pub fn should_skip_sheet(name: &str) -> (r: bool)
    ensures
        r == (name@ == "hiddenSheet"@),
{
    let ghost t: Seq<char> = "hiddenSheet"@;
    proof {
        reveal_strlit("hiddenSheet");
    }
    if name.unicode_len() != 11 {
        return false;
    }
    let marker = "hiddenSheet";
    let mut i: usize = 0;
    while i < 11
        invariant
            t == "hiddenSheet"@,
            t.len() == 11,
            marker@ == t,
            name@.len() == 11,
            0 <= i <= 11,
            forall|k: int| 0 <= k < i ==> name@[k] == t[k],
        decreases 11 - i,
    {
        if name.get_char(i) != marker.get_char(i) {
            proof {
                assert(name@[i as int] != t[i as int]);
            }
            return false;
        }
        i = i + 1;
    }
    proof {
        assert(name@ =~= t);
    }
    true
}

/// ASCII lowercasing of one character; all others are unchanged.
pub open spec fn lower_char(c: char) -> char {
    if 'A' <= c && c <= 'Z' {
        ((c as int) + 32) as char
    } else {
        c
    }
}

/// Case-insensitive match of `s` against a lowercase pattern `t`.
pub open spec fn matches_ci(s: Seq<char>, t: Seq<char>) -> bool {
    s.len() == t.len() && forall|k: int| 0 <= k < s.len() ==> lower_char(s[k]) == t[k]
}

/// The input extensions that are accepted, compared without regard to
/// case.
pub open spec fn excel_extension(s: Seq<char>) -> bool {
    ||| matches_ci(s, "xlsx"@)
    ||| matches_ci(s, "xlsm"@)
    ||| matches_ci(s, "xlsb"@)
    ||| matches_ci(s, "xls"@)
}

fn lower_char_exec(c: char) -> (r: char)
    ensures
        r == lower_char(c),
{
    if c >= 'A' && c <= 'Z' {
        (((c as u8) + 32) as char)
    } else {
        c
    }
}

fn matches_ci_exec(s: &str, t: &str) -> (r: bool)
    ensures
        r == matches_ci(s@, t@),
{
    let n = s.unicode_len();
    if n != t.unicode_len() {
        return false;
    }
    let mut i: usize = 0;
    while i < n
        invariant
            n == s@.len(),
            s@.len() == t@.len(),
            0 <= i <= n,
            forall|k: int| 0 <= k < i ==> lower_char(s@[k]) == t@[k],
        decreases n - i,
    {
        let lc = lower_char_exec(s.get_char(i));
        if lc != t.get_char(i) {
            return false;
        }
        i = i + 1;
    }
    true
}

/// Whether a file extension names one of the accepted workbook formats
/// (`xlsx`, `xlsm`, `xlsb`, `xls`), case-insensitively.
pub fn is_excel_extension(ext: &str) -> (r: bool)
    ensures
        r == excel_extension(ext@),
{
    if matches_ci_exec(ext, "xlsx") {
        return true;
    }
    if matches_ci_exec(ext, "xlsm") {
        return true;
    }
    if matches_ci_exec(ext, "xlsb") {
        return true;
    }
    matches_ci_exec(ext, "xls")
}

} // verus!
