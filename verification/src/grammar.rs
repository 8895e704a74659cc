//! The JSON grammar as a function from text and position to what stands there.
//!
//! A position is an index into the sequence of characters. Each function says what the
//! construct at a position is and where it ends, or why none stands there.

use crate::chars::{is_digit, is_simple_escape, run_len, CharClass};
use crate::error::{ErrorKind, Failure};
use crate::value::{ExponentView, NumberView, ValueView};
use vstd::prelude::*;

verus! {

/// The outcome of reading a construct: what was read and the position after it, or the failure.
pub type Parsed<T> = Result<(T, int), Failure>;

/// The failure of the given kind at `offset`.
pub open spec fn fail<T>(kind: ErrorKind, offset: int) -> Result<T, Failure> {
    Err(Failure { kind, offset })
}

/// Whether the character `c` stands at `pos`.
pub open spec fn at(s: Seq<char>, pos: int, c: char) -> bool {
    0 <= pos < s.len() && s[pos] == c
}

/// Whether the keyword `null` stands at `pos`.
pub open spec fn has_null(s: Seq<char>, pos: int) -> bool {
    at(s, pos, 'n') && at(s, pos + 1, 'u') && at(s, pos + 2, 'l') && at(s, pos + 3, 'l')
}

/// Whether the keyword `true` stands at `pos`.
pub open spec fn has_true(s: Seq<char>, pos: int) -> bool {
    at(s, pos, 't') && at(s, pos + 1, 'r') && at(s, pos + 2, 'u') && at(s, pos + 3, 'e')
}

/// Whether the keyword `false` stands at `pos`.
pub open spec fn has_false(s: Seq<char>, pos: int) -> bool {
    at(s, pos, 'f') && at(s, pos + 1, 'a') && at(s, pos + 2, 'l') && at(s, pos + 3, 's') && at(
        s,
        pos + 4,
        'e',
    )
}

/// How much of the input is left at `pos`.
pub open spec fn remaining(s: Seq<char>, pos: int) -> nat {
    if pos <= s.len() {
        (s.len() - pos) as nat
    } else {
        0
    }
}

/// The position after the whitespace that starts at `pos`.
pub open spec fn whitespace(s: Seq<char>, pos: int) -> int {
    pos + run_len(s, pos, CharClass::Whitespace)
}

/// A fraction: a point and at least one digit. `None` where none stands at `pos`.
pub open spec fn fraction(s: Seq<char>, pos: int) -> Option<(Seq<char>, int)> {
    let digits = run_len(s, pos + 1, CharClass::Digit);
    if at(s, pos, '.') && digits >= 1 {
        Some((s.subrange(pos + 1, pos + 1 + digits), pos + 1 + digits))
    } else {
        None
    }
}

/// An exponent: `e` or `E`, an optional sign and at least one digit. `None` where none
/// stands at `pos`.
pub open spec fn exponent(s: Seq<char>, pos: int) -> Option<(ExponentView, int)> {
    let signed = at(s, pos + 1, '+') || at(s, pos + 1, '-');
    let first = if signed { pos + 2 } else { pos + 1 };
    let digits = run_len(s, first, CharClass::Digit);
    if (at(s, pos, 'e') || at(s, pos, 'E')) && digits >= 1 {
        Some(
            (
                ExponentView {
                    is_positive: !at(s, pos + 1, '-'),
                    digits: s.subrange(first, first + digits),
                },
                first + digits,
            ),
        )
    } else {
        None
    }
}

/// The position after the integer part that starts with the digit at `pos`: a lone zero, or
/// a nonzero digit and every digit that follows it.
pub open spec fn integer_end(s: Seq<char>, pos: int) -> int {
    if at(s, pos, '0') {
        pos + 1
    } else {
        pos + 1 + run_len(s, pos + 1, CharClass::Digit)
    }
}

/// A number: an optional minus sign, the integer part, then a fraction and an exponent where
/// they stand.
pub open spec fn number(s: Seq<char>, pos: int) -> Parsed<NumberView> {
    let is_negative = at(s, pos, '-');
    let start = if is_negative { pos + 1 } else { pos };
    if 0 <= start < s.len() && is_digit(s[start]) {
        let int_end = integer_end(s, start);
        let (fraction, frac_end) = match fraction(s, int_end) {
            Some((digits, end)) => (Some(digits), end),
            None => (None, int_end),
        };
        let (exponent, end) = match exponent(s, frac_end) {
            Some((e, end)) => (Some(e), end),
            None => (None, frac_end),
        };
        Ok(
            (
                NumberView { is_negative, integer: s.subrange(start, int_end), fraction, exponent },
                end,
            ),
        )
    } else {
        fail(ErrorKind::InvalidNumber, start)
    }
}

/// The position after the simple escape whose backslash stands just before `pos`.
pub open spec fn simple_escape(s: Seq<char>, pos: int) -> Option<int> {
    if 0 <= pos < s.len() && is_simple_escape(s[pos]) {
        Some(pos + 1)
    } else {
        None
    }
}

/// The position after the Unicode escape whose backslash stands just before `pos`: `u` and
/// exactly four hexadecimal digits.
pub open spec fn unicode_escape(s: Seq<char>, pos: int) -> Option<int> {
    if at(s, pos, 'u') && pos + 5 <= s.len() && run_len(s, pos + 1, CharClass::HexDigit) >= 4 {
        Some(pos + 5)
    } else {
        None
    }
}

/// The position after the escape whose backslash stands just before `pos`.
pub open spec fn escape(s: Seq<char>, pos: int) -> Option<int> {
    if simple_escape(s, pos) is Some {
        simple_escape(s, pos)
    } else {
        unicode_escape(s, pos)
    }
}

/// The position of the quote that closes the string whose content continues at `pos`.
pub open spec fn string_body(s: Seq<char>, pos: int) -> Result<int, Failure>
    decreases s.len() - pos,
{
    let stop = pos + run_len(s, pos, CharClass::StringChar);
    if stop < 0 || stop >= s.len() {
        fail(ErrorKind::UnterminatedString, stop)
    } else if s[stop] == '"' {
        Ok(stop)
    } else if s[stop] == '\\' {
        match escape(s, stop + 1) {
            Some(next) => string_body(s, next),
            None => fail(ErrorKind::InvalidEscape, stop),
        }
    } else {
        fail(ErrorKind::ForbiddenCharacter, stop)
    }
}

/// A string literal: what stands between its quotes, as written.
pub open spec fn string(s: Seq<char>, pos: int) -> Parsed<Seq<char>> {
    if at(s, pos, '"') {
        match string_body(s, pos + 1) {
            Ok(close) => Ok((s.subrange(pos + 1, close), close + 1)),
            Err(e) => Err(e),
        }
    } else {
        fail(ErrorKind::ExpectedString, pos)
    }
}

/// The alternative that stands at `pos`, tried in the order null, true, false, number,
/// string, array, object. `depth` is how many arrays and objects may still be open at once.
pub open spec fn alternative(s: Seq<char>, pos: int, depth: nat) -> Parsed<ValueView>
    decreases depth, 1nat,
{
    if has_null(s, pos) {
        Ok((ValueView::Null, pos + 4))
    } else if has_true(s, pos) {
        Ok((ValueView::True, pos + 4))
    } else if has_false(s, pos) {
        Ok((ValueView::False, pos + 5))
    } else if at(s, pos, '-') || (0 <= pos < s.len() && is_digit(s[pos])) {
        match number(s, pos) {
            Ok((n, end)) => Ok((ValueView::Number(n), end)),
            Err(e) => Err(e),
        }
    } else if at(s, pos, '"') {
        match string(s, pos) {
            Ok((text, end)) => Ok((ValueView::String(text), end)),
            Err(e) => Err(e),
        }
    } else if at(s, pos, '[') {
        array(s, pos, depth)
    } else if at(s, pos, '{') {
        object(s, pos, depth)
    } else {
        fail(ErrorKind::ExpectedValue, pos)
    }
}

/// A value: whitespace, the alternative that stands there, whitespace.
pub open spec fn value(s: Seq<char>, pos: int, depth: nat) -> Parsed<ValueView>
    decreases depth, 2nat,
{
    match alternative(s, whitespace(s, pos), depth) {
        Ok((v, end)) => Ok((v, whitespace(s, end))),
        Err(e) => Err(e),
    }
}

/// The elements of an array from `pos` to its closing bracket, where at least one stands.
/// A value is never empty, so `pos <= end` holds of every element; it stands in the
/// condition for the sake of termination.
pub open spec fn elements(s: Seq<char>, pos: int, depth: nat) -> Parsed<Seq<ValueView>>
    decreases depth, remaining(s, pos) + 4,
{
    match value(s, pos, depth) {
        Ok((v, end)) => {
            if at(s, end, ',') && pos <= end {
                match elements(s, end + 1, depth) {
                    Ok((rest, after)) => Ok((seq![v] + rest, after)),
                    Err(e) => Err(e),
                }
            } else if at(s, end, ']') {
                Ok((seq![v], end + 1))
            } else {
                fail(ErrorKind::ExpectedCommaOrBracket, end)
            }
        },
        Err(e) => Err(e),
    }
}

/// The array whose opening bracket stands at `pos`. It takes one of the `depth` levels of
/// nesting that are left, and fails where none is.
pub open spec fn array(s: Seq<char>, pos: int, depth: nat) -> Parsed<ValueView>
    decreases depth, 0nat,
{
    let first = whitespace(s, pos + 1);
    if !at(s, pos, '[') {
        fail(ErrorKind::ExpectedValue, pos)
    } else if depth == 0 {
        fail(ErrorKind::TooDeep, pos)
    } else if at(s, first, ']') {
        Ok((ValueView::Array(Seq::empty()), first + 1))
    } else {
        match elements(s, first, (depth - 1) as nat) {
            Ok((items, end)) => Ok((ValueView::Array(items), end)),
            Err(e) => Err(e),
        }
    }
}

/// A member of an object: whitespace, the key, whitespace, a colon, the value.
pub open spec fn member(s: Seq<char>, pos: int, depth: nat) -> Parsed<(Seq<char>, ValueView)>
    decreases depth, 3nat,
{
    match string(s, whitespace(s, pos)) {
        Ok((key, key_end)) => {
            let colon = whitespace(s, key_end);
            if at(s, colon, ':') {
                match value(s, colon + 1, depth) {
                    Ok((v, end)) => Ok(((key, v), end)),
                    Err(e) => Err(e),
                }
            } else {
                fail(ErrorKind::ExpectedColon, colon)
            }
        },
        Err(e) => Err(e),
    }
}

/// The members of an object from `pos` to its closing brace, where at least one stands.
/// As in [`elements`], `pos <= end` always holds.
pub open spec fn members(s: Seq<char>, pos: int, depth: nat) -> Parsed<
    Seq<(Seq<char>, ValueView)>,
>
    decreases depth, remaining(s, pos) + 4,
{
    match member(s, pos, depth) {
        Ok((m, end)) => {
            if at(s, end, ',') && pos <= end {
                match members(s, end + 1, depth) {
                    Ok((rest, after)) => Ok((seq![m] + rest, after)),
                    Err(e) => Err(e),
                }
            } else if at(s, end, '}') {
                Ok((seq![m], end + 1))
            } else {
                fail(ErrorKind::ExpectedCommaOrBrace, end)
            }
        },
        Err(e) => Err(e),
    }
}

/// The object whose opening brace stands at `pos`. It takes one of the `depth` levels of
/// nesting that are left, and fails where none is.
pub open spec fn object(s: Seq<char>, pos: int, depth: nat) -> Parsed<ValueView>
    decreases depth, 0nat,
{
    let first = whitespace(s, pos + 1);
    if !at(s, pos, '{') {
        fail(ErrorKind::ExpectedValue, pos)
    } else if depth == 0 {
        fail(ErrorKind::TooDeep, pos)
    } else if at(s, first, '}') {
        Ok((ValueView::Object(Seq::empty()), first + 1))
    } else {
        match members(s, first, (depth - 1) as nat) {
            Ok((pairs, end)) => Ok((ValueView::Object(pairs), end)),
            Err(e) => Err(e),
        }
    }
}

/// A document: one value that takes the whole text, with at most `max_depth` arrays and
/// objects open at once.
pub open spec fn document(s: Seq<char>, max_depth: nat) -> Result<ValueView, Failure> {
    match value(s, 0, max_depth) {
        Ok((v, end)) => {
            if end >= s.len() {
                Ok(v)
            } else {
                fail(ErrorKind::TrailingCharacters, end)
            }
        },
        Err(e) => Err(e),
    }
}

} // verus!
