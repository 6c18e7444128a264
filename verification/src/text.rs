//! Decimal text rendering and small facts about character sequences.
use vstd::prelude::*;

verus! {

/// The decimal digit character for a value between 0 and 9.
pub open spec fn digit_char(d: int) -> char {
    (48 + d) as char
}

/// Decimal text of a non-negative integer, most significant digit first,
/// no leading zeros (a single `0` for zero).
pub open spec fn dec_nat(n: int) -> Seq<char>
    decreases n,
{
    if n < 10 {
        seq![digit_char(n)]
    } else {
        dec_nat(n / 10).push(digit_char(n % 10))
    }
}

/// Decimal text of an integer, with a leading `-` when negative.
pub open spec fn dec_int(i: int) -> Seq<char> {
    if i < 0 {
        "-"@ + dec_nat(-i)
    } else {
        dec_nat(i)
    }
}

/// Two-digit zero-padded decimal text.
pub open spec fn dec2(n: int) -> Seq<char> {
    seq![digit_char(n / 10), digit_char(n % 10)]
}

/// Four-digit zero-padded decimal text.
pub open spec fn dec4(n: int) -> Seq<char> {
    seq![digit_char(n / 1000), digit_char((n / 100) % 10), digit_char((n / 10) % 10), digit_char(
        n % 10,
    )]
}

fn digit_str(d: u32) -> (r: &'static str)
    requires
        d < 10,
    ensures
        r@ == seq![digit_char(d as int)],
{
    proof {
        reveal_strlit("0");
        reveal_strlit("1");
        reveal_strlit("2");
        reveal_strlit("3");
        reveal_strlit("4");
        reveal_strlit("5");
        reveal_strlit("6");
        reveal_strlit("7");
        reveal_strlit("8");
        reveal_strlit("9");
    }
    let r: &'static str = match d {
        0 => "0",
        1 => "1",
        2 => "2",
        3 => "3",
        4 => "4",
        5 => "5",
        6 => "6",
        7 => "7",
        8 => "8",
        _ => "9",
    };
    proof {
        assert(r@ =~= seq![digit_char(d as int)]);
    }
    r
}

/// Decimal text of a machine integer, matching `dec_nat`.
pub fn render_nat(n: u64) -> (r: String)
    ensures
        r@ == dec_nat(n as int),
    decreases n,
{
    if n < 10 {
        String::from_str(digit_str(n as u32))
    } else {
        let mut s = render_nat(n / 10);
        s.append(digit_str((n % 10) as u32));
        proof {
            assert(s@ =~= dec_nat(n as int));
        }
        s
    }
}

/// Decimal text of a signed machine integer, matching `dec_int`.
pub fn render_i64(i: i64) -> (r: String)
    ensures
        r@ == dec_int(i as int),
{
    if i >= 0 {
        render_nat(i as u64)
    } else {
        let mag: u64 = if i == i64::MIN {
            9223372036854775808u64
        } else {
            (-i) as u64
        };
        assert(mag as int == -(i as int));
        let mut s = String::from_str("-");
        let tail = render_nat(mag);
        s.append(tail.as_str());
        s
    }
}

/// Two-digit zero-padded decimal text of a value below 100.
pub fn render2(n: u32) -> (r: String)
    requires
        n < 100,
    ensures
        r@ == dec2(n as int),
{
    let mut s = String::from_str(digit_str(n / 10));
    s.append(digit_str(n % 10));
    proof {
        assert(s@ =~= dec2(n as int));
    }
    s
}

/// Four-digit zero-padded decimal text of a value below 10000.
pub fn render4(n: u32) -> (r: String)
    requires
        n < 10000,
    ensures
        r@ == dec4(n as int),
{
    let mut s = String::from_str(digit_str(n / 1000));
    s.append(digit_str((n / 100) % 10));
    s.append(digit_str((n / 10) % 10));
    s.append(digit_str(n % 10));
    proof {
        assert(s@ =~= dec4(n as int));
    }
    s
}

/// How many times character `c` occurs in `s`.
pub open spec fn count_char(s: Seq<char>, c: char) -> int
    decreases s.len(),
{
    if s.len() == 0 {
        0
    } else {
        count_char(s.drop_last(), c) + if s.last() == c {
            1int
        } else {
            0int
        }
    }
}

/// Counting distributes over concatenation.
pub proof fn lemma_count_char_concat(a: Seq<char>, b: Seq<char>, c: char)
    ensures
        count_char(a + b, c) == count_char(a, c) + count_char(b, c),
    decreases b.len(),
{
    if b.len() == 0 {
        assert(a + b =~= a);
    } else {
        assert((a + b).drop_last() =~= a + b.drop_last());
        lemma_count_char_concat(a, b.drop_last(), c);
    }
}

/// Occurrences of a character in a one-element sequence.
pub proof fn lemma_count_char_single(s: Seq<char>, c: char)
    requires
        s.len() == 1,
    ensures
        count_char(s, c) == if s[0] == c {
            1int
        } else {
            0int
        },
{
    assert(s.drop_last() =~= Seq::<char>::empty());
    assert(count_char(Seq::<char>::empty(), c) == 0);
}

/// Occurrences of a character in a two-element sequence.
pub proof fn lemma_count_char_pair(s: Seq<char>, c: char)
    requires
        s.len() == 2,
    ensures
        count_char(s, c) == (if s[0] == c {
            1int
        } else {
            0int
        }) + (if s[1] == c {
            1int
        } else {
            0int
        }),
{
    lemma_count_char_single(s.drop_last(), c);
}

/// A character sequence free of the field separator and of the two
/// row-terminator characters.
pub open spec fn clean(s: Seq<char>) -> bool {
    forall|k: int| 0 <= k < s.len() ==> s[k] != ';' && s[k] != '\r' && s[k] != '\n'
}

/// A clean sequence contains no occurrence of those characters at all.
pub proof fn lemma_clean_count(s: Seq<char>, c: char)
    requires
        clean(s),
        c == ';' || c == '\r' || c == '\n',
    ensures
        count_char(s, c) == 0,
    decreases s.len(),
{
    if s.len() > 0 {
        lemma_clean_count(s.drop_last(), c);
    }
}

pub proof fn lemma_clean_concat(a: Seq<char>, b: Seq<char>)
    requires
        clean(a),
        clean(b),
    ensures
        clean(a + b),
{
}

/// Decimal digit text is clean.
pub proof fn lemma_dec_nat_clean(n: int)
    requires
        n >= 0,
    ensures
        clean(dec_nat(n)),
    decreases n,
{
    if n >= 10 {
        lemma_dec_nat_clean(n / 10);
    }
}

pub proof fn lemma_dec2_clean(n: int)
    requires
        0 <= n < 100,
    ensures
        clean(dec2(n)),
{
}

pub proof fn lemma_dec4_clean(n: int)
    requires
        0 <= n < 10000,
    ensures
        clean(dec4(n)),
{
}

pub proof fn lemma_dec_int_clean(i: int)
    ensures
        clean(dec_int(i)),
{
    reveal_strlit("-");
    if i < 0 {
        lemma_dec_nat_clean(-i);
        lemma_clean_concat("-"@, dec_nat(-i));
    } else {
        lemma_dec_nat_clean(i);
    }
}

} // verus!
