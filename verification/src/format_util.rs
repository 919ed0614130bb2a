//! Rendering of durations as text.

use vstd::prelude::*;
use vstd::string::*;
use vstd::arithmetic::div_mod::{lemma_fundamental_div_mod, lemma_div_denominator};

verus! {

/// The character for one decimal digit.
pub open spec fn digit_char(d: int) -> char {
    if d == 0 {
        '0'
    } else if d == 1 {
        '1'
    } else if d == 2 {
        '2'
    } else if d == 3 {
        '3'
    } else if d == 4 {
        '4'
    } else if d == 5 {
        '5'
    } else if d == 6 {
        '6'
    } else if d == 7 {
        '7'
    } else if d == 8 {
        '8'
    } else {
        '9'
    }
}

/// The value of one decimal digit character.
pub open spec fn digit_val(c: char) -> int {
    if c == '0' {
        0
    } else if c == '1' {
        1
    } else if c == '2' {
        2
    } else if c == '3' {
        3
    } else if c == '4' {
        4
    } else if c == '5' {
        5
    } else if c == '6' {
        6
    } else if c == '7' {
        7
    } else if c == '8' {
        8
    } else {
        9
    }
}

/// The decimal rendering of a non-negative number, most significant digit
/// first, a single `0` for zero.
pub open spec fn spec_digits(n: int) -> Seq<char>
    recommends
        n >= 0,
    decreases n,
{
    if n < 10 {
        seq![digit_char(n)]
    } else {
        spec_digits(n / 10).push(digit_char(n % 10))
    }
}

/// The number a digit string denotes, read left to right.
pub open spec fn seq_val(s: Seq<char>) -> int
    decreases s.len(),
{
    if s.len() == 0 {
        0
    } else {
        seq_val(s.drop_last()) * 10 + digit_val(s.last())
    }
}

/// A number rendered to a width of at least two, padded with a leading zero.
pub open spec fn spec_pad2(n: int) -> Seq<char>
    recommends
        n >= 0,
{
    if n < 10 {
        seq!['0'] + spec_digits(n)
    } else {
        spec_digits(n)
    }
}

/// Reading the decimal rendering back gives the number.
pub proof fn lemma_seq_val_digits(n: int)
    requires
        n >= 0,
    ensures
        seq_val(spec_digits(n)) == n,
    decreases n,
{
    if n < 10 {
        let s = spec_digits(n);
        assert(s =~= Seq::empty().push(digit_char(n)));
        assert(s.drop_last() =~= Seq::<char>::empty());
        assert(seq_val(Seq::<char>::empty()) == 0);
        assert(digit_val(digit_char(n)) == n);
        assert(seq_val(s) == seq_val(s.drop_last()) * 10 + digit_val(s.last()));
    } else {
        lemma_seq_val_digits(n / 10);
        lemma_fundamental_div_mod(n, 10);
        assert(spec_digits(n) =~= spec_digits(n / 10).push(digit_char(n % 10)));
        assert(spec_digits(n).drop_last() =~= spec_digits(n / 10));
        assert(spec_digits(n).last() == digit_char(n % 10));
        assert(digit_val(digit_char(n % 10)) == n % 10);
        assert(seq_val(spec_digits(n)) == seq_val(spec_digits(n / 10)) * 10 + digit_val(
            digit_char(n % 10),
        ));
    }
}

/// How wide a decimal rendering is: one digit below ten, two below one
/// hundred, and at least one digit always.
pub proof fn lemma_digits_len(n: int)
    requires
        n >= 0,
    ensures
        spec_digits(n).len() >= 1,
        n < 10 ==> spec_digits(n).len() == 1,
        10 <= n < 100 ==> spec_digits(n).len() == 2,
        n >= 10 ==> spec_digits(n).len() >= 2,
    decreases n,
{
    if n >= 10 {
        lemma_digits_len(n / 10);
        assert(spec_digits(n) =~= spec_digits(n / 10).push(digit_char(n % 10)));
    }
}

/// Reading a zero-padded rendering back gives the number.
pub proof fn lemma_seq_val_pad2(n: int)
    requires
        n >= 0,
    ensures
        seq_val(spec_pad2(n)) == n,
{
    if n < 10 {
        let s = spec_pad2(n);
        assert(s =~= seq!['0', digit_char(n)]);
        assert(s.drop_last() =~= seq!['0']);
        assert(seq_val(seq!['0']) == seq_val(seq!['0'].drop_last()) * 10 + digit_val('0'));
        assert(seq!['0'].drop_last() =~= Seq::<char>::empty());
    } else {
        lemma_seq_val_digits(n);
    }
}

/// The rendering of a number below one hundred is exactly two characters.
pub proof fn lemma_pad2_len(n: int)
    requires
        0 <= n < 100,
    ensures
        spec_pad2(n).len() == 2,
{
    if n >= 10 {
        lemma_digits_len(n);
    }
}

/// A zero-padded rendering is at least two characters wide.
pub proof fn lemma_pad2_len_ge2(n: int)
    requires
        n >= 0,
    ensures
        spec_pad2(n).len() >= 2,
{
    lemma_digits_len(n);
}

/// One decimal digit as text.
fn digit_str(d: u64) -> (s: &'static str)
    requires
        d < 10,
    ensures
        s@ =~= seq![digit_char(d as int)],
{
    proof {
        reveal_strlit("0");
        reveal_strlit("1");
        reveal_strlit("2");
        reveal_strlit("3");
        reveal_strlit("4");
        reveal_strlit("5");
        reveal_strlit("6");
        reveal_strlit("7");
        reveal_strlit("8");
        reveal_strlit("9");
    }
    if d == 0 {
        "0"
    } else if d == 1 {
        "1"
    } else if d == 2 {
        "2"
    } else if d == 3 {
        "3"
    } else if d == 4 {
        "4"
    } else if d == 5 {
        "5"
    } else if d == 6 {
        "6"
    } else if d == 7 {
        "7"
    } else if d == 8 {
        "8"
    } else {
        "9"
    }
}

/// Appends the decimal rendering of `n` to `out`.
fn append_digits(out: &mut String, n: u64)
    ensures
        final(out)@ == old(out)@ + spec_digits(n as int),
    decreases n,
{
    if n >= 10 {
        append_digits(out, n / 10);
        out.append(digit_str(n % 10));
        proof {
            assert(out@ =~= old(out)@ + spec_digits(n as int));
        }
    } else {
        out.append(digit_str(n));
        proof {
            assert(out@ =~= old(out)@ + spec_digits(n as int));
        }
    }
}

/// Appends the zero-padded rendering of `n` to `out`.
fn append_pad2(out: &mut String, n: u64)
    ensures
        final(out)@ == old(out)@ + spec_pad2(n as int),
{
    if n < 10 {
        out.append("0");
        proof {
            reveal_strlit("0");
        }
    }
    append_digits(out, n);
    proof {
        assert(out@ =~= old(out)@ + spec_pad2(n as int));
    }
}

/// The `HH:MM` rendering of a non-negative duration in seconds: whole hours,
/// a colon, then the remaining whole minutes zero-padded to two digits.
pub open spec fn spec_hh_mm(d: int) -> Seq<char> {
    spec_pad2(d / 3600) + seq![':'] + spec_pad2((d / 60) % 60)
}

/// Renders a non-negative duration strictly as `HH:MM`.
pub fn format_duration_hh_mm(d: i64) -> (s: String)
    requires
        d >= 0,
    ensures
        s@ == spec_hh_mm(d as int),
{
    let mut s = String::new();
    append_pad2(&mut s, (d / 3600) as u64);
    s.append(":");
    proof {
        reveal_strlit(":");
    }
    append_pad2(&mut s, ((d / 60) % 60) as u64);
    proof {
        assert(s@ =~= spec_hh_mm(d as int));
    }
    s
}

/// The informal rendering of a non-negative duration: `<H>h <MM>m` from one
/// hour up, `<MM>m` from one minute up, and the literal `<1m` below a minute.
pub open spec fn spec_duration_str(d: int) -> Seq<char> {
    let hours_part = if d / 3600 > 0 {
        spec_digits(d / 3600) + seq!['h', ' ']
    } else {
        Seq::<char>::empty()
    };
    let minutes_part = if d / 60 > 0 {
        spec_pad2((d / 60) % 60) + seq!['m']
    } else {
        seq!['<', '1', 'm']
    };
    hours_part + minutes_part
}

/// Renders a non-negative duration informally, omitting a zero hour count.
pub fn format_duration(d: i64) -> (s: String)
    requires
        d >= 0,
    ensures
        s@ == spec_duration_str(d as int),
{
    proof {
        reveal_strlit("h ");
        reveal_strlit("m");
        reveal_strlit("<1m");
    }
    let mut s = String::new();
    if d / 3600 > 0 {
        append_digits(&mut s, (d / 3600) as u64);
        s.append("h ");
    }
    if d / 60 > 0 {
        append_pad2(&mut s, ((d / 60) % 60) as u64);
        s.append("m");
    } else {
        s.append("<1m");
    }
    proof {
        assert(s@ =~= spec_duration_str(d as int));
    }
    s
}

/// The `HH:MM` rendering determines the duration in whole minutes: splitting
/// the text before its two final characters recovers the hour and minute
/// counts, and those recombine to the duration's whole minutes.
pub proof fn lemma_format_hh_mm_round_trip(d: int)
    requires
        d >= 0,
    ensures
        spec_hh_mm(d).len() >= 5,
        spec_hh_mm(d)[spec_hh_mm(d).len() - 3] == ':',
        seq_val(spec_hh_mm(d).subrange(0, spec_hh_mm(d).len() - 3)) == d / 3600,
        seq_val(spec_hh_mm(d).subrange(spec_hh_mm(d).len() - 2, spec_hh_mm(d).len() as int)) == (
        d / 60) % 60,
        seq_val(spec_hh_mm(d).subrange(0, spec_hh_mm(d).len() - 3)) * 60 + seq_val(
            spec_hh_mm(d).subrange(spec_hh_mm(d).len() - 2, spec_hh_mm(d).len() as int),
        ) == d / 60,
{
    let s = spec_hh_mm(d);
    let h = d / 3600;
    let m = (d / 60) % 60;
    let hp = spec_pad2(h);
    let mp = spec_pad2(m);
    lemma_pad2_len(m);
    lemma_pad2_len_ge2(h);
    assert(hp.len() >= 2);
    assert(s.subrange(0, s.len() - 3) =~= hp);
    assert(s.subrange(s.len() - 2, s.len() as int) =~= mp);
    lemma_seq_val_pad2(h);
    lemma_seq_val_pad2(m);
    lemma_div_denominator(d, 60, 60);
    lemma_fundamental_div_mod(d / 60, 60);
}

} // verus!
