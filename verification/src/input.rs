//! Reading a pair of coordinates from a line of text.
//!
//! A line names a square as `<row>,<col>`: two numerals separated by one
//! comma, each with any amount of white space around it. A numeral is a run
//! of decimal digits, which a `+` may precede. Both numbers must be below
//! `BOARD_SIZE`.

use vstd::prelude::*;
use crate::cell::BOARD_SIZE;

verus! {

/// Why a line does not name a square.
#[derive(Clone, Copy, Debug, PartialEq, Eq, Structural)]
pub enum InputError {
    /// The line does not consist of exactly two tokens separated by a comma.
    TokenCount,
    /// One of the two tokens is not a numeral.
    NotANumber,
    /// Both tokens are numerals, and one of them is not below `BOARD_SIZE`.
    OutOfRange,
}

/// Whether `c` is white space: a character with the Unicode property
/// `White_Space`.
pub open spec fn is_whitespace(c: char) -> bool {
    ||| '\u{9}' <= c <= '\u{d}'
    ||| c == ' '
    ||| c == '\u{85}'
    ||| c == '\u{a0}'
    ||| c == '\u{1680}'
    ||| '\u{2000}' <= c <= '\u{200a}'
    ||| c == '\u{2028}'
    ||| c == '\u{2029}'
    ||| c == '\u{202f}'
    ||| c == '\u{205f}'
    ||| c == '\u{3000}'
}

/// `s` without the white space at its start.
pub open spec fn trim_start(s: Seq<char>) -> Seq<char>
    decreases s.len(),
{
    if s.len() > 0 && is_whitespace(s.first()) {
        trim_start(s.drop_first())
    } else {
        s
    }
}

/// `s` without the white space at its end.
pub open spec fn trim_end(s: Seq<char>) -> Seq<char>
    decreases s.len(),
{
    if s.len() > 0 && is_whitespace(s.last()) {
        trim_end(s.drop_last())
    } else {
        s
    }
}

/// `s` without the white space at its start and at its end.
pub open spec fn trim(s: Seq<char>) -> Seq<char> {
    trim_end(trim_start(s))
}

/// The tokens of a line: the pieces between its commas, in order. A line
/// with no comma is one token, and a comma at either end borders an empty
/// token.
pub open spec fn tokens(s: Seq<char>) -> Seq<Seq<char>>
    decreases s.len(),
{
    if s.len() == 0 {
        seq![Seq::empty()]
    } else {
        let before = tokens(s.drop_last());
        if s.last() == ',' {
            before.push(Seq::empty())
        } else {
            before.drop_last().push(before.last().push(s.last()))
        }
    }
}

/// Whether `c` is one of the decimal digits `0` to `9`.
pub open spec fn is_digit(c: char) -> bool {
    '0' <= c <= '9'
}

/// The number that the digit `c` stands for.
pub open spec fn digit_value(c: char) -> int {
    c as int - '0' as int
}

/// Whether `s` consists of decimal digits only.
pub open spec fn all_digits(s: Seq<char>) -> bool {
    forall|i: int| 0 <= i < s.len() ==> is_digit(#[trigger] s[i])
}

/// The number that a run of decimal digits denotes.
pub open spec fn digits_value(s: Seq<char>) -> int
    decreases s.len(),
{
    if s.len() == 0 {
        0
    } else {
        10 * digits_value(s.drop_last()) + digit_value(s.last())
    }
}

/// The digits of a numeral: what follows its `+`, if it has one.
pub open spec fn unsigned(s: Seq<char>) -> Seq<char> {
    if s.len() > 0 && s.first() == '+' {
        s.drop_first()
    } else {
        s
    }
}

/// Whether `s` is a numeral: at least one decimal digit and nothing else,
/// but for a `+` that may stand in front.
pub open spec fn is_numeral(s: Seq<char>) -> bool {
    unsigned(s).len() > 0 && all_digits(unsigned(s))
}

/// The number that a numeral denotes.
pub open spec fn numeral_value(s: Seq<char>) -> int {
    digits_value(unsigned(s))
}

/// The coordinate that one token gives: the token without the white space
/// around it must be a numeral, and its number must be below `BOARD_SIZE`.
pub open spec fn coordinate(token: Seq<char>) -> Result<usize, InputError> {
    let numeral = trim(token);
    if !is_numeral(numeral) {
        Err(InputError::NotANumber)
    } else if numeral_value(numeral) >= BOARD_SIZE {
        Err(InputError::OutOfRange)
    } else {
        Ok(numeral_value(numeral) as usize)
    }
}

/// The square that a line names, or why it names none. The number of tokens
/// is checked first, then that both are numerals, then that both numbers
/// are on the board.
pub open spec fn coordinates(line: Seq<char>) -> Result<(usize, usize), InputError> {
    let parts = tokens(line);
    if parts.len() != 2 {
        Err(InputError::TokenCount)
    } else {
        match (coordinate(parts[0]), coordinate(parts[1])) {
            (Ok(row), Ok(col)) => Ok((row, col)),
            (Err(InputError::NotANumber), _) => Err(InputError::NotANumber),
            (_, Err(InputError::NotANumber)) => Err(InputError::NotANumber),
            _ => Err(InputError::OutOfRange),
        }
    }
}

/// The tokens of `parts` written one after the other with a comma between
/// each two.
pub open spec fn joined(parts: Seq<Seq<char>>) -> Seq<char>
    decreases parts.len(),
{
    if parts.len() == 0 {
        Seq::empty()
    } else if parts.len() == 1 {
        parts[0]
    } else {
        joined(parts.drop_last()) + seq![','] + parts.last()
    }
}

/// The tokens of a line are what lies between its commas: there is at
/// least one token, no token holds a comma, and the tokens joined by commas
/// give the line back.
pub proof fn lemma_tokens_split_at_commas(s: Seq<char>)
    ensures
        tokens(s).len() >= 1,
        forall|i: int, j: int|
            0 <= i < tokens(s).len() && 0 <= j < tokens(s)[i].len() ==> tokens(s)[i][j] != ',',
        joined(tokens(s)) == s,
    decreases s.len(),
{
    if s.len() > 0 {
        let before = tokens(s.drop_last());
        lemma_tokens_split_at_commas(s.drop_last());
        if s.last() == ',' {
            let parts = before.push(Seq::empty());
            assert(parts.drop_last() =~= before);
            assert(joined(parts) =~= s.drop_last() + seq![',']);
            assert(s =~= s.drop_last() + seq![',']);
        } else {
            let longer = before.last().push(s.last());
            let parts = before.drop_last().push(longer);
            assert(parts.drop_last() =~= before.drop_last());
            if before.len() == 1 {
                assert(before.last() == s.drop_last());
                assert(longer =~= s);
            } else {
                assert(joined(before) == joined(before.drop_last()) + seq![','] + before.last());
                assert(joined(parts) =~= joined(before) + seq![s.last()]);
                assert(s =~= s.drop_last() + seq![s.last()]);
            }
            assert forall|i: int, j: int| 0 <= i < parts.len() && 0 <= j < parts[i].len() implies parts[i][j]
                != ',' by {
                if i < parts.len() - 1 {
                    assert(parts[i] == before[i]);
                } else if j < before.last().len() {
                    assert(parts[i][j] == before[before.len() - 1][j]);
                }
            }
        }
    } else {
        assert(joined(tokens(s)) =~= s);
    }
}

/// Trimming takes white space off both ends and nothing else: what is left
/// is a stretch of `s` that neither starts nor ends with white space, and
/// everything before and after it is white space.
pub proof fn lemma_trim_is_a_stretch(s: Seq<char>) -> (ends: (int, int))
    ensures
        0 <= ends.0 <= ends.1 <= s.len(),
        trim(s) == s.subrange(ends.0, ends.1),
        forall|i: int| 0 <= i < ends.0 ==> is_whitespace(#[trigger] s[i]),
        forall|i: int| ends.1 <= i < s.len() ==> is_whitespace(#[trigger] s[i]),
        trim(s).len() > 0 ==> !is_whitespace(trim(s).first()) && !is_whitespace(trim(s).last()),
{
    let from = lemma_trim_start_is_a_tail(s);
    let tail = s.subrange(from, s.len() as int);
    let kept = lemma_trim_end_is_a_head(tail);
    assert(tail.subrange(0, kept) =~= s.subrange(from, from + kept));
    assert forall|i: int| from + kept <= i < s.len() implies is_whitespace(#[trigger] s[i]) by {
        assert(s[i] == tail[i - from]);
    }
    if trim(s).len() > 0 {
        assert(trim(s).first() == tail[0]);
    }
    (from, from + kept)
}

proof fn lemma_trim_start_is_a_tail(s: Seq<char>) -> (from: int)
    ensures
        0 <= from <= s.len(),
        trim_start(s) == s.subrange(from, s.len() as int),
        forall|i: int| 0 <= i < from ==> is_whitespace(#[trigger] s[i]),
        from < s.len() ==> !is_whitespace(s[from]),
    decreases s.len(),
{
    if s.len() > 0 && is_whitespace(s.first()) {
        let rest = s.drop_first();
        let from = lemma_trim_start_is_a_tail(rest);
        assert(rest.subrange(from, rest.len() as int) =~= s.subrange(from + 1, s.len() as int));
        assert forall|i: int| 0 <= i < from + 1 implies is_whitespace(#[trigger] s[i]) by {
            if i > 0 {
                assert(s[i] == rest[i - 1]);
            }
        }
        if from < rest.len() {
            assert(s[from + 1] == rest[from]);
        }
        from + 1
    } else {
        assert(s.subrange(0, s.len() as int) =~= s);
        0
    }
}

proof fn lemma_trim_end_is_a_head(s: Seq<char>) -> (to: int)
    ensures
        0 <= to <= s.len(),
        trim_end(s) == s.subrange(0, to),
        forall|i: int| to <= i < s.len() ==> is_whitespace(#[trigger] s[i]),
        to > 0 ==> !is_whitespace(s[to - 1]),
    decreases s.len(),
{
    if s.len() > 0 && is_whitespace(s.last()) {
        let rest = s.drop_last();
        let to = lemma_trim_end_is_a_head(rest);
        assert(rest.subrange(0, to) =~= s.subrange(0, to));
        assert forall|i: int| to <= i < s.len() implies is_whitespace(#[trigger] s[i]) by {
            if i < rest.len() {
                assert(s[i] == rest[i]);
            }
        }
        if to > 0 {
            assert(s[to - 1] == rest[to - 1]);
        }
        to
    } else {
        assert(s.subrange(0, s.len() as int) =~= s);
        s.len() as int
    }
}

/// A run of digits denotes no negative number.
proof fn lemma_digits_value_nonnegative(s: Seq<char>)
    requires
        all_digits(s),
    ensures
        0 <= digits_value(s),
    decreases s.len(),
{
    if s.len() > 0 {
        assert(is_digit(s[s.len() - 1]));
        lemma_digits_value_nonnegative(s.drop_last());
    }
}

fn is_space(c: char) -> (b: bool)
    ensures
        b == is_whitespace(c),
{
    ('\u{9}' <= c && c <= '\u{d}') || c == ' ' || c == '\u{85}' || c == '\u{a0}' || c == '\u{1680}'
        || ('\u{2000}' <= c && c <= '\u{200a}') || c == '\u{2028}' || c == '\u{2029}' || c
        == '\u{202f}' || c == '\u{205f}' || c == '\u{3000}'
}

/// The characters of a line, one by one.
fn chars_of(line: &str) -> (chars: Vec<char>)
    ensures
        chars@ == line@,
{
    let mut chars: Vec<char> = Vec::new();
    for c in it: line.chars()
        invariant
            it.seq() == line@,
            chars@ == line@.take(it.index() as int),
    {
        chars.push(c);
        assert(line@.take(it.index() + 1) =~= line@.take(it.index() as int).push(c));
    }
    assert(line@.take(line@.len() as int) =~= line@);
    chars
}

/// Reads the token `chars[from..to]` as a coordinate.
fn read_coordinate(chars: &Vec<char>, from: usize, to: usize) -> (result: Result<usize, InputError>)
    requires
        from <= to <= chars.len(),
    ensures
        result == coordinate(chars@.subrange(from as int, to as int)),
        result matches Ok(n) ==> n < BOARD_SIZE,
{
    let ghost token = chars@.subrange(from as int, to as int);
    let mut start: usize = from;
    while start < to && is_space(chars[start])
        invariant
            from <= start <= to <= chars.len(),
            trim_start(token) == trim_start(chars@.subrange(start as int, to as int)),
        decreases to - start,
    {
        assert(chars@.subrange(start as int, to as int).drop_first() =~= chars@.subrange(
            start + 1,
            to as int,
        ));
        start += 1;
    }
    let mut end: usize = to;
    while end > start && is_space(chars[end - 1])
        invariant
            start <= end <= to <= chars.len(),
            trim(token) == trim_end(chars@.subrange(start as int, end as int)),
        decreases end - start,
    {
        assert(chars@.subrange(start as int, end as int).drop_last() =~= chars@.subrange(
            start as int,
            end - 1,
        ));
        end -= 1;
    }
    let ghost numeral = chars@.subrange(start as int, end as int);
    assert(trim(token) == numeral);
    if start < end && chars[start] == '+' {
        start += 1;
    }
    let ghost digits = chars@.subrange(start as int, end as int);
    assert(digits =~= unsigned(numeral));
    if start == end {
        return Err(InputError::NotANumber);
    }
    let mut value: usize = 0;
    let mut beyond = false;
    let mut i: usize = start;
    while i < end
        invariant
            from <= to <= chars.len(),
            start <= i <= end <= chars.len(),
            token == chars@.subrange(from as int, to as int),
            trim(token) == numeral,
            unsigned(numeral) == digits,
            digits == chars@.subrange(start as int, end as int),
            all_digits(digits.take(i - start)),
            !beyond ==> value == digits_value(digits.take(i - start)) && value < BOARD_SIZE,
            beyond ==> digits_value(digits.take(i - start)) >= BOARD_SIZE,
        decreases end - i,
    {
        let c = chars[i];
        if !('0' <= c && c <= '9') {
            assert(!is_digit(digits[i - start]));
            return Err(InputError::NotANumber);
        }
        proof {
            let longer = digits.take(i + 1 - start);
            assert(longer.drop_last() =~= digits.take(i - start));
            assert(longer.last() == c);
            lemma_digits_value_nonnegative(digits.take(i - start));
        }
        if !beyond {
            value = value * 10 + (c as u32 - '0' as u32) as usize;
            if value >= BOARD_SIZE {
                beyond = true;
            }
        }
        i += 1;
    }
    assert(digits.take(end - start) =~= digits);
    if beyond {
        Err(InputError::OutOfRange)
    } else {
        Ok(value)
    }
}

/// Reads a line of the form `<row>,<col>` and returns the square it names.
/// A line that does not have exactly two tokens, that holds a token which
/// is no numeral, or that names a row or column off the board is rejected
/// with the reason.
pub fn parse_coordinates(line: &str) -> (result: Result<(usize, usize), InputError>)
    ensures
        result == coordinates(line@),
        result matches Ok(square) ==> square.0 < BOARD_SIZE && square.1 < BOARD_SIZE,
{
    let chars = chars_of(line);
    let mut commas: usize = 0;
    let mut comma_at: usize = 0;
    let mut i: usize = 0;
    assert(tokens(chars@.take(0)) =~~= seq![chars@.take(0)]);
    while i < chars.len()
        invariant
            i <= chars.len(),
            commas <= i,
            tokens(chars@.take(i as int)).len() == commas + 1,
            commas == 0 ==> tokens(chars@.take(i as int)) == seq![chars@.take(i as int)],
            commas == 1 ==> comma_at < i && tokens(chars@.take(i as int)) == seq![
                chars@.take(comma_at as int),
                chars@.subrange(comma_at + 1, i as int),
            ],
        decreases chars.len() - i,
    {
        proof {
            let longer = chars@.take(i + 1);
            let shorter = chars@.take(i as int);
            assert(longer.drop_last() =~= shorter);
            assert(longer.last() == chars@[i as int]);
            if chars@[i as int] == ',' {
                if commas == 0 {
                    assert(tokens(longer) =~~= seq![chars@.take(i as int), chars@.subrange(i + 1, i + 1)]);
                }
            } else {
                if commas == 0 {
                    assert(tokens(longer) =~~= seq![longer]);
                }
                if commas == 1 {
                    assert(tokens(longer) =~~= seq![
                        chars@.take(comma_at as int),
                        chars@.subrange(comma_at + 1, i + 1),
                    ]);
                }
            }
        }
        if chars[i] == ',' {
            if commas == 0 {
                comma_at = i;
            }
            commas += 1;
        }
        i += 1;
    }
    assert(chars@.take(i as int) =~= chars@);
    if commas != 1 {
        return Err(InputError::TokenCount);
    }
    assert(chars@.take(comma_at as int) =~= chars@.subrange(0, comma_at as int));
    let row = read_coordinate(&chars, 0, comma_at);
    let col = read_coordinate(&chars, comma_at + 1, chars.len());
    match (row, col) {
        (Ok(row), Ok(col)) => Ok((row, col)),
        (Err(InputError::NotANumber), _) => Err(InputError::NotANumber),
        (_, Err(InputError::NotANumber)) => Err(InputError::NotANumber),
        _ => Err(InputError::OutOfRange),
    }
}

} // verus!
