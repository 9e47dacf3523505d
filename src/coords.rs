//! Square labels: a column letter followed by a 1-based row number (`C3`).
use vstd::prelude::*;

verus! {

/// Why a square label was refused.
#[derive(Debug, Clone, Copy, PartialEq, Eq, Structural)]
pub enum CoordError {
    /// Fewer than two characters, or the row part is not a number.
    Format,
    /// The row is 0 or above the board, or the column is not on the board.
    Range,
}

pub open spec fn is_digit(ch: char) -> bool {
    '0' <= ch && ch <= '9'
}

pub open spec fn digit_value(ch: char) -> nat {
    (ch as u32 - '0' as u32) as nat
}

/// The number written by a sequence of decimal digits.
pub open spec fn digits_value(s: Seq<char>) -> nat
    decreases s.len(),
{
    if s.len() == 0 {
        0
    } else {
        digits_value(s.drop_last()) * 10 + digit_value(s.last())
    }
}

pub open spec fn all_digits(s: Seq<char>) -> bool {
    forall|i: int| 0 <= i < s.len() ==> is_digit(#[trigger] s[i])
}

/// The digits of a row number: an optional leading `+` is dropped.
pub open spec fn unsigned_part(s: Seq<char>) -> Seq<char> {
    if s.len() > 0 && s[0] == '+' {
        s.drop_first()
    } else {
        s
    }
}

/// The value of an unsigned decimal numeral that fits in `usize`, if `s` is one.
pub open spec fn numeral(s: Seq<char>) -> Option<nat> {
    let d = unsigned_part(s);
    if d.len() > 0 && all_digits(d) && digits_value(d) <= usize::MAX {
        Some(digits_value(d))
    } else {
        None
    }
}

/// Column index of a letter, case-insensitive: `A` and `a` are column 0.
pub open spec fn column_of(ch: char) -> Option<nat> {
    if 'A' <= ch && ch <= 'Z' {
        Some((ch as u32 - 'A' as u32) as nat)
    } else if 'a' <= ch && ch <= 'z' {
        Some((ch as u32 - 'a' as u32) as nat)
    } else {
        None
    }
}

/// What a label means on a board of `height` rows and `width` columns.
pub open spec fn parse_label(s: Seq<char>, height: nat, width: nat) -> Result<(usize, usize), CoordError> {
    if s.len() < 2 {
        Err(CoordError::Format)
    } else {
        match numeral(s.drop_first()) {
            None => Err(CoordError::Format),
            Some(n) => {
                if n == 0 || n > height {
                    Err(CoordError::Range)
                } else {
                    match column_of(s[0]) {
                        Some(c) if c < width => Ok(((n - 1) as usize, c as usize)),
                        _ => Err(CoordError::Range),
                    }
                }
            },
        }
    }
}

pub open spec fn digit_char(d: nat) -> char {
    ((d + '0' as u32) as u32) as char
}

/// Decimal digits of `n`, without leading zeros.
pub open spec fn decimal(n: nat) -> Seq<char>
    decreases n,
{
    if n < 10 {
        seq![digit_char(n)]
    } else {
        decimal(n / 10).push(digit_char(n % 10))
    }
}

pub open spec fn column_char(c: nat) -> char {
    ((c + 'A' as u32) as u32) as char
}

/// The label of the square at `row`, `col`.
pub open spec fn label_of(row: nat, col: nat) -> Seq<char> {
    seq![column_char(col)] + decimal(row + 1)
}

/// Reads a label such as `C3` (or `c3`) into `(row, col)` indices.
pub fn algebraic_to_coords(s: &str, board_height: usize, board_width: usize) -> (res: Result<(usize, usize), CoordError>)
    ensures
        res == parse_label(s@, board_height as nat, board_width as nat),
{
    let n = s.unicode_len();
    if n < 2 {
        return Err(CoordError::Format);
    }
    let rest = s.substring_char(1, n);
    assert(rest@ =~= s@.drop_first());
    let row_num = match parse_numeral(rest) {
        Some(v) => v,
        None => return Err(CoordError::Format),
    };
    if row_num == 0 || row_num > board_height {
        return Err(CoordError::Range);
    }
    let col_char = s.get_char(0);
    let col_idx: usize = if 'A' <= col_char && col_char <= 'Z' {
        (col_char as u32 - 'A' as u32) as usize
    } else if 'a' <= col_char && col_char <= 'z' {
        (col_char as u32 - 'a' as u32) as usize
    } else {
        return Err(CoordError::Range);
    };
    if col_idx >= board_width {
        return Err(CoordError::Range);
    }
    Ok((row_num - 1, col_idx))
}

/// Reads an unsigned decimal numeral, with an optional leading `+`.
pub fn parse_numeral(s: &str) -> (res: Option<usize>)
    ensures
        res matches Some(v) ==> numeral(s@) == Some(v as nat),
        res is None ==> numeral(s@) is None,
{
    let n = s.unicode_len();
    let mut i: usize = 0;
    if n > 0 && s.get_char(0) == '+' {
        i = 1;
    }
    let ghost start = i as int;
    let ghost d = unsigned_part(s@);
    assert(d =~= s@.subrange(start, n as int));
    if i == n {
        return None;
    }
    let mut v: usize = 0;
    while i < n
        invariant
            0 <= start <= i <= n,
            n == s@.len(),
            d == s@.subrange(start, n as int),
            d == unsigned_part(s@),
            all_digits(s@.subrange(start, i as int)),
            v as nat == digits_value(s@.subrange(start, i as int)),
        decreases n - i,
    {
        let ch = s.get_char(i);
        assert(s@.subrange(start, i + 1).drop_last() =~= s@.subrange(start, i as int));
        if !('0' <= ch && ch <= '9') {
            assert(d[i - start] == ch);
            assert(!all_digits(d));
            return None;
        }
        let dv = (ch as u32 - '0' as u32) as usize;
        let next = match v.checked_mul(10) {
            Some(t) => t.checked_add(dv),
            None => None,
        };
        match next {
            Some(t) => {
                v = t;
            },
            None => {
                proof {
                    let p = s@.subrange(start, i + 1);
                    assert(p =~= d.subrange(0, i - start + 1));
                    assert(p.last() == ch);
                    assert(digits_value(p) == v * 10 + dv);
                    assert(digits_value(p) > usize::MAX);
                    if all_digits(d) {
                        lemma_digits_prefix_bound(d, (i - start + 1) as nat);
                    }
                }
                return None;
            },
        }
        i = i + 1;
    }
    assert(s@.subrange(start, n as int) =~= d);
    Some(v)
}

/// A numeral's value is at least that of any of its prefixes.
proof fn lemma_digits_prefix_bound(d: Seq<char>, k: nat)
    requires
        k <= d.len(),
        all_digits(d),
    ensures
        digits_value(d.subrange(0, k as int)) <= digits_value(d),
    decreases d.len() - k,
{
    if k < d.len() {
        lemma_digits_prefix_bound(d, k + 1);
        assert(d.subrange(0, (k + 1) as int).drop_last() =~= d.subrange(0, k as int));
    } else {
        assert(d.subrange(0, k as int) =~= d);
    }
}

/// Appends the decimal digits of `n` to `out`.
fn push_decimal(out: &mut Vec<char>, n: usize)
    ensures
        final(out)@ == old(out)@ + decimal(n as nat),
    decreases n,
{
    if n >= 10 {
        push_decimal(out, n / 10);
    }
    let d = (n % 10) as u8;
    out.push((48u8 + d) as char);
}

/// Relies on `String`'s `FromIterator<char>`: the characters, in order.
#[verifier::external_body]
fn string_from_chars(v: &Vec<char>) -> (r: String)
    ensures
        r@ == v@,
{
    v.iter().collect()
}

/// The label of the square at `r`, `c` (`coords_to_algebraic(2, 2, h)` is `C3`).
pub fn coords_to_algebraic(r: usize, c: usize, _board_height: usize) -> (res: String)
    requires
        c < 26,
        r < usize::MAX,
    ensures
        res@ == label_of(r as nat, c as nat),
{
    let mut out: Vec<char> = Vec::new();
    out.push((65u8 + c as u8) as char);
    push_decimal(&mut out, r + 1);
    assert(out@ =~= label_of(r as nat, c as nat));
    string_from_chars(&out)
}

proof fn lemma_decimal(n: nat)
    ensures
        decimal(n).len() > 0,
        all_digits(decimal(n)),
        digits_value(decimal(n)) == n,
    decreases n,
{
    if n >= 10 {
        lemma_decimal(n / 10);
        let s = decimal(n);
        assert(s.drop_last() =~= decimal(n / 10));
        assert(forall|i: int| 0 <= i < s.len() - 1 ==> s[i] == decimal(n / 10)[i]);
        assert(s.last() == digit_char(n % 10));
        assert(digit_value(digit_char(n % 10)) == n % 10);
        assert(n == (n / 10) * 10 + n % 10);
    } else {
        let s = decimal(n);
        assert(s.drop_last() =~= Seq::<char>::empty());
        assert(digit_value(digit_char(n)) == n);
        assert(digits_value(s) == digits_value(s.drop_last()) * 10 + digit_value(s.last()));
    }
}

/// Formatting a square and reading the label back on a board that holds the
/// square gives the same square.
pub proof fn lemma_label_round_trip(row: nat, col: nat, height: nat, width: nat)
    requires
        row < height,
        col < width,
        width <= 26,
        height <= usize::MAX,
    ensures
        parse_label(label_of(row, col), height, width) == Ok::<(usize, usize), CoordError>((row as usize, col as usize)),
{
    let s = label_of(row, col);
    let d = decimal(row + 1);
    lemma_decimal(row + 1);
    assert(s.drop_first() =~= d);
    assert(is_digit(d[0]));
    assert(unsigned_part(d) == d);
}

} // verus!
