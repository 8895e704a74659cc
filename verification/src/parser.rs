//! The recursive-descent parser. Each function reads one construct of the grammar at a
//! position of the input and returns exactly what [`crate::grammar`] says stands there.

use crate::chars::{
    lemma_run_len, slice_to_string, take_run, take_while_class, text_to_chars, CharClass,
};
use crate::error::{ErrorKind, ParseError};
use crate::grammar;
use crate::grammar::Parsed;
use crate::value::{Exponent, Fraction, JSONValue, Number, ValueView};
use vstd::prelude::*;

verus! {

/// The model of what a parser returned.
pub open spec fn parsed_view<T: View>(r: Result<(T, usize), ParseError>) -> Parsed<T::V> {
    match r {
        Ok((t, end)) => Ok((t@, end as int)),
        Err(e) => Err(e@),
    }
}

/// The model of what an optional part's parser returned.
pub open spec fn optional_view<T: View>(r: Option<(T, usize)>) -> Option<(T::V, int)> {
    match r {
        Some((t, end)) => Some((t@, end as int)),
        None => None,
    }
}

/// The model of an end position that may be missing.
pub open spec fn end_view(r: Option<usize>) -> Option<int> {
    match r {
        Some(end) => Some(end as int),
        None => None,
    }
}

/// Skips space, tab, line feed and carriage return.
pub fn whitespace_parser(input: &[char], pos: usize) -> (end: usize)
    requires
        pos <= input@.len(),
    ensures
        end == grammar::whitespace(input@, pos as int),
        pos <= end <= input@.len(),
{
    take_run(input, pos, CharClass::Whitespace)
}

/// Reads a fraction, if one stands at `pos`.
pub fn fraction_parser(input: &[char], pos: usize) -> (r: Option<(Fraction, usize)>)
    requires
        pos <= input@.len(),
    ensures
        optional_view(r) == grammar::fraction(input@, pos as int),
        r matches Some((_, end)) ==> pos < end <= input@.len(),
{
    if pos < input.len() && input[pos] == '.' {
        proof {
            lemma_run_len(input@, pos + 1, CharClass::Digit);
        }
        match take_while_class(input, pos + 1, 1, usize::MAX, CharClass::Digit) {
            Some(n) => {
                let end = pos + 1 + n;
                Some((Fraction { digits: slice_to_string(input, pos + 1, end) }, end))
            },
            None => None,
        }
    } else {
        None
    }
}

/// Reads an exponent, if one stands at `pos`.
pub fn exponent_parser(input: &[char], pos: usize) -> (r: Option<(Exponent, usize)>)
    requires
        pos <= input@.len(),
    ensures
        optional_view(r) == grammar::exponent(input@, pos as int),
        r matches Some((_, end)) ==> pos < end <= input@.len(),
{
    let len = input.len();
    if pos < len && (input[pos] == 'e' || input[pos] == 'E') {
        let is_negative = pos + 1 < len && input[pos + 1] == '-';
        let signed = is_negative || (pos + 1 < len && input[pos + 1] == '+');
        let first = if signed { pos + 2 } else { pos + 1 };
        proof {
            lemma_run_len(input@, first as int, CharClass::Digit);
        }
        match take_while_class(input, first, 1, usize::MAX, CharClass::Digit) {
            Some(n) => {
                let end = first + n;
                Some(
                    (
                        Exponent {
                            is_positive: !is_negative,
                            digits: slice_to_string(input, first, end),
                        },
                        end,
                    ),
                )
            },
            None => None,
        }
    } else {
        None
    }
}

/// Reads a number.
pub fn number_parser(input: &[char], pos: usize) -> (r: Result<(Number, usize), ParseError>)
    requires
        pos <= input@.len(),
    ensures
        parsed_view(r) == grammar::number(input@, pos as int),
        r matches Ok((_, end)) ==> pos < end <= input@.len(),
{
    let len = input.len();
    let is_negative = pos < len && input[pos] == '-';
    let start = if is_negative { pos + 1 } else { pos };
    if start < len && CharClass::Digit.contains(input[start]) {
        let int_end = if input[start] == '0' {
            start + 1
        } else {
            take_run(input, start + 1, CharClass::Digit)
        };
        let integer = slice_to_string(input, start, int_end);
        let (fraction, frac_end) = match fraction_parser(input, int_end) {
            Some((f, end)) => (Some(f), end),
            None => (None, int_end),
        };
        let (exponent, end) = match exponent_parser(input, frac_end) {
            Some((e, end)) => (Some(e), end),
            None => (None, frac_end),
        };
        Ok((Number { is_negative, integer, fraction, exponent }, end))
    } else {
        Err(ParseError { kind: ErrorKind::InvalidNumber, offset: start })
    }
}

/// Reads the character of a simple escape; `pos` is the position after the backslash.
pub fn escaped_characters_parser(input: &[char], pos: usize) -> (r: Option<usize>)
    requires
        pos <= input@.len(),
    ensures
        end_view(r) == grammar::simple_escape(input@, pos as int),
{
    if pos < input.len() {
        let c = input[pos];
        if c == '"' || c == '\\' || c == '/' || c == 'b' || c == 'f' || c == 'n' || c == 'r' || c
            == 't' {
            return Some(pos + 1);
        }
    }
    None
}

/// Reads `u` and four hexadecimal digits; `pos` is the position after the backslash.
pub fn unicode_parser(input: &[char], pos: usize) -> (r: Option<usize>)
    requires
        pos <= input@.len(),
    ensures
        end_view(r) == grammar::unicode_escape(input@, pos as int),
{
    if pos < input.len() && input[pos] == 'u' {
        proof {
            lemma_run_len(input@, pos + 1, CharClass::HexDigit);
        }
        match take_while_class(input, pos + 1, 4, 4, CharClass::HexDigit) {
            Some(n) => Some(pos + 1 + n),
            None => None,
        }
    } else {
        None
    }
}

/// Reads a string literal and returns what stands between its quotes, as written.
pub fn string_parser(input: &[char], pos: usize) -> (r: Result<(String, usize), ParseError>)
    requires
        pos <= input@.len(),
    ensures
        parsed_view(r) == grammar::string(input@, pos as int),
        r matches Ok((_, end)) ==> pos < end <= input@.len(),
{
    let len = input.len();
    if !(pos < len && input[pos] == '"') {
        return Err(ParseError { kind: ErrorKind::ExpectedString, offset: pos });
    }
    let mut cursor = pos + 1;
    loop
        invariant
            len == input@.len(),
            pos < cursor <= len,
            input@[pos as int] == '"',
            grammar::string_body(input@, pos + 1) == grammar::string_body(input@, cursor as int),
        decreases len - cursor,
    {
        let stop = take_run(input, cursor, CharClass::StringChar);
        if stop >= len {
            return Err(ParseError { kind: ErrorKind::UnterminatedString, offset: stop });
        }
        let c = input[stop];
        if c == '"' {
            return Ok((slice_to_string(input, pos + 1, stop), stop + 1));
        } else if c == '\\' {
            let next = match escaped_characters_parser(input, stop + 1) {
                Some(end) => Some(end),
                None => unicode_parser(input, stop + 1),
            };
            match next {
                Some(end) => {
                    cursor = end;
                },
                None => {
                    return Err(ParseError { kind: ErrorKind::InvalidEscape, offset: stop });
                },
            }
        } else {
            return Err(ParseError { kind: ErrorKind::ForbiddenCharacter, offset: stop });
        }
    }
}

/// The outcome of reading the rest of a list, with the items read before it put in front.
pub open spec fn prepend<T>(before: Seq<T>, rest: Parsed<Seq<T>>) -> Parsed<Seq<T>> {
    match rest {
        Ok((items, end)) => Ok((before + items, end)),
        Err(e) => Err(e),
    }
}

/// Reads the alternative that stands at `pos`.
pub fn alternative_parser(input: &[char], pos: usize, depth: usize) -> (r: Result<
    (JSONValue, usize),
    ParseError,
>)
    requires
        pos <= input@.len(),
    ensures
        parsed_view(r) == grammar::alternative(input@, pos as int, depth as nat),
        r matches Ok((_, end)) ==> pos < end <= input@.len(),
    decreases depth, 1nat,
{
    let len = input.len();
    let rest = len - pos;
    if rest >= 4 && input[pos] == 'n' && input[pos + 1] == 'u' && input[pos + 2] == 'l' && input[pos
        + 3] == 'l' {
        Ok((JSONValue::Null, pos + 4))
    } else if rest >= 4 && input[pos] == 't' && input[pos + 1] == 'r' && input[pos + 2] == 'u'
        && input[pos + 3] == 'e' {
        Ok((JSONValue::True, pos + 4))
    } else if rest >= 5 && input[pos] == 'f' && input[pos + 1] == 'a' && input[pos + 2] == 'l'
        && input[pos + 3] == 's' && input[pos + 4] == 'e' {
        Ok((JSONValue::False, pos + 5))
    } else if rest >= 1 && (input[pos] == '-' || CharClass::Digit.contains(input[pos])) {
        match number_parser(input, pos) {
            Ok((n, end)) => Ok((JSONValue::Number(n), end)),
            Err(e) => Err(e),
        }
    } else if rest >= 1 && input[pos] == '"' {
        match string_parser(input, pos) {
            Ok((text, end)) => Ok((JSONValue::String(text), end)),
            Err(e) => Err(e),
        }
    } else if rest >= 1 && input[pos] == '[' {
        array_parser(input, pos, depth)
    } else if rest >= 1 && input[pos] == '{' {
        object_parser(input, pos, depth)
    } else {
        Err(ParseError { kind: ErrorKind::ExpectedValue, offset: pos })
    }
}

/// Reads a value with the whitespace around it.
pub fn json_value_parser(input: &[char], pos: usize, depth: usize) -> (r: Result<
    (JSONValue, usize),
    ParseError,
>)
    requires
        pos <= input@.len(),
    ensures
        parsed_view(r) == grammar::value(input@, pos as int, depth as nat),
        r matches Ok((_, end)) ==> pos < end <= input@.len(),
    decreases depth, 2nat,
{
    let start = whitespace_parser(input, pos);
    match alternative_parser(input, start, depth) {
        Ok((v, end)) => Ok((v, whitespace_parser(input, end))),
        Err(e) => Err(e),
    }
}

/// Reads the array whose opening bracket stands at `pos`.
pub fn array_parser(input: &[char], pos: usize, depth: usize) -> (r: Result<
    (JSONValue, usize),
    ParseError,
>)
    requires
        pos <= input@.len(),
    ensures
        parsed_view(r) == grammar::array(input@, pos as int, depth as nat),
        r matches Ok((_, end)) ==> pos < end <= input@.len(),
    decreases depth, 0nat,
{
    let len = input.len();
    if !(pos < len && input[pos] == '[') {
        return Err(ParseError { kind: ErrorKind::ExpectedValue, offset: pos });
    }
    if depth == 0 {
        return Err(ParseError { kind: ErrorKind::TooDeep, offset: pos });
    }
    let first = whitespace_parser(input, pos + 1);
    let mut items: Vec<JSONValue> = Vec::new();
    if first < len && input[first] == ']' {
        proof {
            crate::value::lemma_array_view(items, Seq::empty());
        }
        return Ok((JSONValue::Array(items), first + 1));
    }
    let ghost mut model: Seq<ValueView> = Seq::empty();
    let mut cursor = first;
    loop
        invariant
            len == input@.len(),
            depth > 0,
            pos < first <= cursor <= len,
            model.len() == items.len(),
            forall|i: int| 0 <= i < items.len() ==> model[i] == items[i]@,
            input@[pos as int] == '[',
            first == grammar::whitespace(input@, pos + 1),
            !grammar::at(input@, first as int, ']'),
            grammar::elements(input@, first as int, (depth - 1) as nat) == prepend(
                model,
                grammar::elements(input@, cursor as int, (depth - 1) as nat),
            ),
        decreases len - cursor,
    {
        match json_value_parser(input, cursor, depth - 1) {
            Err(e) => {
                return Err(e);
            },
            Ok((v, end)) => {
                proof {
                    assert(model + (seq![v@] + Seq::empty()) =~= model.push(v@));
                    assert forall|rest: Seq<ValueView>|
                        model + (seq![v@] + rest) == #[trigger] (model.push(v@) + rest) by {
                        assert(model + (seq![v@] + rest) =~= model.push(v@) + rest);
                    }
                    assert(model + seq![v@] =~= model.push(v@));
                    model = model.push(v@);
                }
                items.push(v);
                if end < len && input[end] == ',' {
                    cursor = end + 1;
                } else if end < len && input[end] == ']' {
                    proof {
                        crate::value::lemma_array_view(items, model);
                    }
                    return Ok((JSONValue::Array(items), end + 1));
                } else {
                    return Err(ParseError { kind: ErrorKind::ExpectedCommaOrBracket, offset: end });
                }
            },
        }
    }
}

/// Reads a member of an object: the key, a colon and the value.
pub fn obj_key_value_parser(input: &[char], pos: usize, depth: usize) -> (r: Result<
    ((String, JSONValue), usize),
    ParseError,
>)
    requires
        pos <= input@.len(),
    ensures
        parsed_view(r) == grammar::member(input@, pos as int, depth as nat),
        r matches Ok((_, end)) ==> pos < end <= input@.len(),
    decreases depth, 3nat,
{
    let start = whitespace_parser(input, pos);
    let (key, key_end) = match string_parser(input, start) {
        Ok(found) => found,
        Err(e) => {
            return Err(e);
        },
    };
    let colon = whitespace_parser(input, key_end);
    if !(colon < input.len() && input[colon] == ':') {
        return Err(ParseError { kind: ErrorKind::ExpectedColon, offset: colon });
    }
    match json_value_parser(input, colon + 1, depth) {
        Ok((v, end)) => Ok(((key, v), end)),
        Err(e) => Err(e),
    }
}

/// Reads the object whose opening brace stands at `pos`.
pub fn object_parser(input: &[char], pos: usize, depth: usize) -> (r: Result<
    (JSONValue, usize),
    ParseError,
>)
    requires
        pos <= input@.len(),
    ensures
        parsed_view(r) == grammar::object(input@, pos as int, depth as nat),
        r matches Ok((_, end)) ==> pos < end <= input@.len(),
    decreases depth, 0nat,
{
    let len = input.len();
    if !(pos < len && input[pos] == '{') {
        return Err(ParseError { kind: ErrorKind::ExpectedValue, offset: pos });
    }
    if depth == 0 {
        return Err(ParseError { kind: ErrorKind::TooDeep, offset: pos });
    }
    let first = whitespace_parser(input, pos + 1);
    let mut members: Vec<(String, JSONValue)> = Vec::new();
    if first < len && input[first] == '}' {
        proof {
            crate::value::lemma_object_view(members, Seq::empty());
        }
        return Ok((JSONValue::Object(members), first + 1));
    }
    let ghost mut model: Seq<(Seq<char>, ValueView)> = Seq::empty();
    let mut cursor = first;
    loop
        invariant
            len == input@.len(),
            depth > 0,
            pos < first <= cursor <= len,
            model.len() == members.len(),
            forall|i: int|
                0 <= i < members.len() ==> model[i] == (members[i].0@, members[i].1@),
            input@[pos as int] == '{',
            first == grammar::whitespace(input@, pos + 1),
            !grammar::at(input@, first as int, '}'),
            grammar::members(input@, first as int, (depth - 1) as nat) == prepend(
                model,
                grammar::members(input@, cursor as int, (depth - 1) as nat),
            ),
        decreases len - cursor,
    {
        match obj_key_value_parser(input, cursor, depth - 1) {
            Err(e) => {
                return Err(e);
            },
            Ok((member, end)) => {
                let ghost m = (member.0@, member.1@);
                proof {
                    assert forall|rest: Seq<(Seq<char>, ValueView)>|
                        model + (seq![m] + rest) == #[trigger] (model.push(m) + rest) by {
                        assert(model + (seq![m] + rest) =~= model.push(m) + rest);
                    }
                    assert(model + seq![m] =~= model.push(m));
                    model = model.push(m);
                }
                members.push(member);
                if end < len && input[end] == ',' {
                    cursor = end + 1;
                } else if end < len && input[end] == '}' {
                    proof {
                        crate::value::lemma_object_view(members, model);
                    }
                    return Ok((JSONValue::Object(members), end + 1));
                } else {
                    return Err(ParseError { kind: ErrorKind::ExpectedCommaOrBrace, offset: end });
                }
            },
        }
    }
}

/// The nesting limit of [`JSONValue::from_str`].
pub const DEFAULT_MAX_DEPTH: usize = 128;

/// The model of what parsing a document returned.
pub open spec fn document_view(r: Result<JSONValue, ParseError>) -> Result<
    ValueView,
    crate::error::Failure,
> {
    match r {
        Ok(v) => Ok(v@),
        Err(e) => Err(e@),
    }
}

impl JSONValue {
    /// Parses `text` as one JSON document in which at most `max_depth` arrays and objects
    /// are open at once.
    pub fn parse_with_max_depth(text: &str, max_depth: usize) -> (r: Result<JSONValue, ParseError>)
        ensures
            document_view(r) == grammar::document(text@, max_depth as nat),
            r matches Ok(v) ==> v@.wf() && v@.nests_within(max_depth as nat),
    {
        proof {
            crate::laws::lemma_document_well_formed(text@, max_depth as nat);
        }
        let chars = text_to_chars(text);
        let input = chars.as_slice();
        match json_value_parser(input, 0, max_depth) {
            Ok((v, end)) => {
                if end >= input.len() {
                    Ok(v)
                } else {
                    Err(ParseError { kind: ErrorKind::TrailingCharacters, offset: end })
                }
            },
            Err(e) => Err(e),
        }
    }

    /// Parses `text` as one JSON document, with the default nesting limit.
    pub fn from_str(text: &str) -> (r: Result<JSONValue, ParseError>)
        ensures
            document_view(r) == grammar::document(text@, DEFAULT_MAX_DEPTH as nat),
            r matches Ok(v) ==> v@.wf() && v@.nests_within(DEFAULT_MAX_DEPTH as nat),
    {
        JSONValue::parse_with_max_depth(text, DEFAULT_MAX_DEPTH)
    }
}

} // verus!
