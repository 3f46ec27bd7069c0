use crate::error::TicTacToeError;
use vstd::prelude::*;

verus! {

/// Whether `b` is a blank: a space, a tab, a line feed, a vertical tab, a
/// form feed or a carriage return.
pub open spec fn is_blank(b: u8) -> bool {
    b == 0x20 || (0x09 <= b <= 0x0d)
}

/// Whether `b` is one of the digits `0` to `9`.
pub open spec fn is_digit(b: u8) -> bool {
    0x30 <= b <= 0x39
}

/// Whether every byte of `s` from `from` up to `to` is a blank.
pub open spec fn all_blank(s: Seq<u8>, from: int, to: int) -> bool {
    forall|i: int| from <= i < to ==> is_blank(#[trigger] s[i])
}

/// The number that the digits `s` write in base ten.
pub open spec fn digits_value(s: Seq<u8>) -> nat
    decreases s.len(),
{
    if s.len() == 0 {
        0
    } else {
        10 * digits_value(s.drop_last()) + (s.last() - 0x30) as nat
    }
}

/// Whether `s` is one digit or more and nothing else.
pub open spec fn all_digits(s: Seq<u8>) -> bool {
    s.len() > 0 && forall|i: int| 0 <= i < s.len() ==> is_digit(#[trigger] s[i])
}

/// The digits of the token `t`: the token without its plus sign, where it
/// begins with one.
pub open spec fn token_digits(t: Seq<u8>) -> Seq<u8> {
    if t.len() > 0 && t[0] == 0x2b {
        t.skip(1)
    } else {
        t
    }
}

/// Whether the token `t` writes a number: digits, with or without one plus
/// sign before them.
pub open spec fn is_number(t: Seq<u8>) -> bool {
    all_digits(token_digits(t))
}

/// The number that the token `t` writes.
pub open spec fn number_value(t: Seq<u8>) -> nat {
    digits_value(token_digits(t))
}

/// Whether `s` is made of blanks up to `a`, a number up to `b`, one blank or
/// more up to `c`, a number up to `d`, and blanks to the end.
pub open spec fn is_move_text(s: Seq<u8>, a: int, b: int, c: int, d: int) -> bool {
    &&& 0 <= a < b < c < d <= s.len()
    &&& all_blank(s, 0, a)
    &&& is_number(s.subrange(a, b))
    &&& all_blank(s, b, c)
    &&& is_number(s.subrange(c, d))
    &&& all_blank(s, d, s.len() as int)
}

/// Whether the line `s` reads as the move to `row` and `col`: it holds two
/// numbers and blanks, as `is_move_text` says, the first number is `row` and
/// the second is `col`.
pub open spec fn reads_as(s: Seq<u8>, row: usize, col: usize) -> bool {
    exists|a: int, b: int, c: int, d: int| #[trigger]
        is_move_text(s, a, b, c, d) && number_value(s.subrange(a, b)) == row && number_value(
            s.subrange(c, d),
        ) == col
}

/// Whether `to` is where the blanks that begin at `from` end.
spec fn blanks_end(s: Seq<u8>, from: int, to: int) -> bool {
    &&& from <= to <= s.len()
    &&& all_blank(s, from, to)
    &&& to < s.len() ==> !is_blank(s[to])
}

/// Whether `to` is where the bytes other than blanks that begin at `from`
/// end.
spec fn token_ends(s: Seq<u8>, from: int, to: int) -> bool {
    &&& from <= to <= s.len()
    &&& forall|i: int| from <= i < to ==> !is_blank(#[trigger] s[i])
    &&& to < s.len() ==> is_blank(s[to])
}

proof fn lemma_number_has_no_blank(s: Seq<u8>, a: int, b: int)
    requires
        0 <= a <= b <= s.len(),
        is_number(s.subrange(a, b)),
    ensures
        a < b,
        forall|i: int| a <= i < b ==> !is_blank(#[trigger] s[i]),
{
    let t = s.subrange(a, b);
    let digits = token_digits(t);
    assert forall|i: int| a <= i < b implies !is_blank(#[trigger] s[i]) by {
        assert(t[i - a] == s[i]);
        if t[0] == 0x2b {
            if i > a {
                assert(digits[i - a - 1] == t[i - a]);
                assert(is_digit(digits[i - a - 1]));
            }
        } else {
            assert(is_digit(digits[i - a]));
        }
    }
}

proof fn lemma_prefix_value(s: Seq<u8>, n: int)
    requires
        0 <= n <= s.len(),
    ensures
        digits_value(s.take(n)) <= digits_value(s),
    decreases s.len() - n,
{
    if n < s.len() {
        lemma_prefix_value(s, n + 1);
        assert(s.take(n + 1).drop_last() =~= s.take(n));
    } else {
        assert(s.take(n) =~= s);
    }
}

/// A line that has the shape of a move has it in one way only: the places
/// where its numbers begin and end are those that a scan from the left
/// finds.
proof fn lemma_scan_finds_the_move(
    s: Seq<u8>,
    a: int,
    b: int,
    c: int,
    d: int,
    e: int,
    a2: int,
    b2: int,
    c2: int,
    d2: int,
)
    requires
        blanks_end(s, 0, a),
        token_ends(s, a, b),
        blanks_end(s, b, c),
        token_ends(s, c, d),
        blanks_end(s, d, e),
        is_move_text(s, a2, b2, c2, d2),
    ensures
        a2 == a,
        b2 == b,
        c2 == c,
        d2 == d,
        e == s.len(),
{
    lemma_number_has_no_blank(s, a2, b2);
    lemma_number_has_no_blank(s, c2, d2);
    assert(!is_blank(s[a2]));
    assert(is_blank(s[b2]));
    assert(!is_blank(s[c2]));
    if a < a2 {
        assert(is_blank(s[a]));
    }
    assert(a2 == a);
    if b < b2 {
        assert(!is_blank(s[b]));
    }
    assert(b2 == b);
    if c < c2 {
        assert(is_blank(s[c]));
    }
    assert(c2 == c);
    if d < d2 {
        assert(!is_blank(s[d]));
    }
    if d2 < d {
        assert(is_blank(s[d2]));
    }
    assert(d2 == d);
    if e < s.len() {
        assert(is_blank(s[e]));
    }
}

/// A line reads as one move at most.
pub proof fn a_line_reads_one_way(s: Seq<u8>, row1: usize, col1: usize, row2: usize, col2: usize)
    requires
        reads_as(s, row1, col1),
        reads_as(s, row2, col2),
    ensures
        row1 == row2,
        col1 == col2,
{
    let (a1, b1, c1, d1) = choose|a: int, b: int, c: int, d: int| #[trigger]
        is_move_text(s, a, b, c, d) && number_value(s.subrange(a, b)) == row1 && number_value(
            s.subrange(c, d),
        ) == col1;
    let (a2, b2, c2, d2) = choose|a: int, b: int, c: int, d: int| #[trigger]
        is_move_text(s, a, b, c, d) && number_value(s.subrange(a, b)) == row2 && number_value(
            s.subrange(c, d),
        ) == col2;
    lemma_number_has_no_blank(s, a1, b1);
    lemma_number_has_no_blank(s, c1, d1);
    assert(blanks_end(s, 0, a1));
    assert(token_ends(s, a1, b1));
    assert(blanks_end(s, b1, c1));
    assert(token_ends(s, c1, d1));
    assert(blanks_end(s, d1, s.len() as int));
    lemma_scan_finds_the_move(s, a1, b1, c1, d1, s.len() as int, a2, b2, c2, d2);
}

/// Gives the place of the first byte from `from` on that is no blank, or the
/// length of the line where there is none.
fn skip_blanks(line: &[u8], from: usize) -> (to: usize)
    requires
        from <= line@.len(),
    ensures
        blanks_end(line@, from as int, to as int),
{
    let mut i: usize = from;
    while i < line.len()
        invariant
            from <= i <= line@.len(),
            all_blank(line@, from as int, i as int),
        decreases line@.len() - i,
    {
        let b: u8 = line[i];
        if !(b == 0x20 || (0x09 <= b && b <= 0x0d)) {
            return i;
        }
        i = i + 1;
    }
    i
}

/// Gives the place of the first byte from `from` on that is a blank, or the
/// length of the line where there is none.
fn skip_token(line: &[u8], from: usize) -> (to: usize)
    requires
        from <= line@.len(),
    ensures
        token_ends(line@, from as int, to as int),
{
    let mut i: usize = from;
    while i < line.len()
        invariant
            from <= i <= line@.len(),
            forall|k: int| from <= k < i ==> !is_blank(#[trigger] line@[k]),
        decreases line@.len() - i,
    {
        let b: u8 = line[i];
        if b == 0x20 || (0x09 <= b && b <= 0x0d) {
            return i;
        }
        i = i + 1;
    }
    i
}

/// Reads the bytes of `line` from `from` up to `to` as a number.
///
/// Gives the number exactly when the bytes write one that a `usize` can
/// hold.
fn read_number(line: &[u8], from: usize, to: usize) -> (r: Option<usize>)
    requires
        from <= to <= line@.len(),
    ensures
        match r {
            Some(n) => is_number(line@.subrange(from as int, to as int)) && number_value(
                line@.subrange(from as int, to as int),
            ) == n,
            None => !is_number(line@.subrange(from as int, to as int)) || number_value(
                line@.subrange(from as int, to as int),
            ) > usize::MAX,
        },
{
    let ghost token = line@.subrange(from as int, to as int);
    if from == to {
        return None;
    }
    let start: usize = if line[from] == 0x2b {
        from + 1
    } else {
        from
    };
    let ghost digits = line@.subrange(start as int, to as int);
    assert(digits =~= token_digits(token));
    if start == to {
        return None;
    }
    let mut value: usize = 0;
    let mut i: usize = start;
    while i < to
        invariant
            from <= start <= i <= to <= line@.len(),
            start < to,
            digits == line@.subrange(start as int, to as int),
            digits == token_digits(line@.subrange(from as int, to as int)),
            forall|k: int| 0 <= k < i - start ==> is_digit(#[trigger] digits[k]),
            value == digits_value(digits.take(i - start)),
        decreases to - i,
    {
        let b: u8 = line[i];
        if b < 0x30 || b > 0x39 {
            assert(!is_digit(digits[i - start]));
            return None;
        }
        let digit: usize = (b - 0x30) as usize;
        proof {
            lemma_prefix_value(digits, i - start + 1);
            assert(digits.take(i - start + 1).drop_last() =~= digits.take(i - start));
            assert(digits.take(i - start + 1).last() == b);
        }
        let tens: usize = match value.checked_mul(10) {
            Some(tens) => tens,
            None => {
                return None;
            },
        };
        value = match tens.checked_add(digit) {
            Some(sum) => sum,
            None => {
                return None;
            },
        };
        i = i + 1;
    }
    assert(digits.take(to - start) =~= digits);
    Some(value)
}

/// Reads a line of text as a move: a row and a column.
///
/// The line holds two numbers in base ten, each with or without a plus sign
/// before its digits, with one blank or more between them; blanks may come
/// before the first and after the second, and nothing else. The result is
/// the row and the column exactly when the line is such a line and both
/// numbers fit a `usize`; every other line gives `InvalidMoveInput`.
pub fn parse_move(line: &[u8]) -> (r: Result<(usize, usize), TicTacToeError>)
    ensures
        match r {
            Ok(at) => reads_as(line@, at.0, at.1),
            Err(e) => e == TicTacToeError::InvalidMoveInput && forall|row: usize, col: usize|
                !reads_as(line@, row, col),
        },
{
    let a: usize = skip_blanks(line, 0);
    let b: usize = skip_token(line, a);
    let c: usize = skip_blanks(line, b);
    let d: usize = skip_token(line, c);
    let e: usize = skip_blanks(line, d);
    proof {
        assert forall|a2: int, b2: int, c2: int, d2: int| #[trigger]
            is_move_text(line@, a2, b2, c2, d2) implies a2 == a && b2 == b && c2 == c && d2 == d
            && e == line@.len() by {
            lemma_scan_finds_the_move(
                line@,
                a as int,
                b as int,
                c as int,
                d as int,
                e as int,
                a2,
                b2,
                c2,
                d2,
            );
        }
    }
    if a == b || c == d || e != line.len() {
        return Err(TicTacToeError::InvalidMoveInput);
    }
    let row: usize = match read_number(line, a, b) {
        Some(row) => row,
        None => {
            return Err(TicTacToeError::InvalidMoveInput);
        },
    };
    let col: usize = match read_number(line, c, d) {
        Some(col) => col,
        None => {
            return Err(TicTacToeError::InvalidMoveInput);
        },
    };
    assert(is_move_text(line@, a as int, b as int, c as int, d as int));
    Ok((row, col))
}

} // verus!
