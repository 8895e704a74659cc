//! What holds of everything that the grammar reads: it ends inside the input, after where
//! it started, and it can be written down again.

use crate::chars::{is_digit, is_string_char, lemma_run_len, run_len, CharClass};
use crate::grammar::{
    alternative, array, at, elements, escape, fraction, integer_end, member, members, number,
    object, remaining, string, string_body, value, whitespace,
};
use crate::value::{is_digits, is_string_body};
use vstd::prelude::*;

verus! {

/// Whitespace ends inside the input.
pub proof fn lemma_whitespace_result(s: Seq<char>, pos: int)
    requires
        0 <= pos <= s.len(),
    ensures
        pos <= whitespace(s, pos) <= s.len(),
{
    lemma_run_len(s, pos, CharClass::Whitespace);
}

/// A run of digits is made of digits.
pub proof fn lemma_digit_run_result(s: Seq<char>, pos: int)
    requires
        0 <= pos <= s.len(),
    ensures
        pos + run_len(s, pos, CharClass::Digit) <= s.len(),
        is_digits(s.subrange(pos, pos + run_len(s, pos, CharClass::Digit))),
{
    lemma_run_len(s, pos, CharClass::Digit);
    let digits = s.subrange(pos, pos + run_len(s, pos, CharClass::Digit));
    assert forall|i: int| 0 <= i < digits.len() implies is_digit(#[trigger] digits[i]) by {
        assert(CharClass::Digit.has(s[pos + i]));
    }
}

/// A number that was read ends inside the input, is not empty and is well formed.
pub proof fn lemma_number_result(s: Seq<char>, pos: int)
    requires
        0 <= pos <= s.len(),
    ensures
        number(s, pos) matches Ok((n, end)) ==> pos < end <= s.len() && n.wf(),
{
    let start = if at(s, pos, '-') { pos + 1 } else { pos };
    if 0 <= start < s.len() && is_digit(s[start]) {
        let int_end = integer_end(s, start);
        lemma_digit_run_result(s, start + 1);
        let integer = s.subrange(start, int_end);
        assert(integer[0] == s[start]);
        assert(is_digits(integer)) by {
            let rest = s.subrange(start + 1, start + 1 + run_len(s, start + 1, CharClass::Digit));
            assert forall|i: int| 0 <= i < integer.len() implies is_digit(
                #[trigger] integer[i],
            ) by {
                if i > 0 {
                    assert(integer[i] == rest[i - 1]);
                }
            }
        }
        if int_end < s.len() {
            lemma_digit_run_result(s, int_end + 1);
        }
        let frac_end = match fraction(s, int_end) {
            Some((_, end)) => end,
            None => int_end,
        };
        assert(int_end <= frac_end <= s.len());
        if frac_end < s.len() {
            lemma_digit_run_result(s, frac_end + 1);
            if frac_end + 1 < s.len() {
                lemma_digit_run_result(s, frac_end + 2);
            }
        }
    }
}

/// Characters that may all stand unescaped, put before the body of a string literal, make
/// the body of a string literal.
pub proof fn lemma_body_after_plain(plain: Seq<char>, rest: Seq<char>)
    requires
        forall|i: int| 0 <= i < plain.len() ==> is_string_char(#[trigger] plain[i]),
        is_string_body(rest),
    ensures
        is_string_body(plain + rest),
    decreases plain.len(),
{
    if plain.len() == 0 {
        assert(plain + rest =~= rest);
    } else {
        let tail = plain.skip(1);
        assert forall|i: int| 0 <= i < tail.len() implies is_string_char(#[trigger] tail[i]) by {
            assert(tail[i] == plain[i + 1]);
        }
        lemma_body_after_plain(tail, rest);
        assert((plain + rest).skip(1) =~= tail + rest);
        assert((plain + rest)[0] == plain[0]);
    }
}

/// What is read up to the closing quote is the body of a string literal.
pub proof fn lemma_string_body_result(s: Seq<char>, pos: int)
    requires
        0 <= pos <= s.len(),
    ensures
        string_body(s, pos) matches Ok(close) ==> pos <= close < s.len() && s[close] == '"'
            && is_string_body(s.subrange(pos, close)),
    decreases s.len() - pos,
{
    let class = CharClass::StringChar;
    lemma_run_len(s, pos, class);
    let stop = pos + run_len(s, pos, class);
    let plain = s.subrange(pos, stop);
    assert forall|i: int| 0 <= i < plain.len() implies is_string_char(#[trigger] plain[i]) by {
        assert(class.has(s[pos + i]));
    }
    if stop < s.len() {
        if s[stop] == '"' {
            assert(is_string_body(Seq::<char>::empty()));
            lemma_body_after_plain(plain, Seq::empty());
            assert(plain + Seq::empty() =~= plain);
        } else if s[stop] == '\\' {
            match escape(s, stop + 1) {
                Some(next) => {
                    lemma_string_body_result(s, next);
                    match string_body(s, next) {
                        Ok(close) => {
                            let rest = s.subrange(next, close);
                            let escaped = s.subrange(stop, close);
                            assert(escaped.skip(next - stop) =~= rest);
                            assert(escaped[0] == s[stop]);
                            assert(escaped[1] == s[stop + 1]);
                            if next == stop + 6 {
                                lemma_run_len(s, stop + 2, CharClass::HexDigit);
                                assert(CharClass::HexDigit.has(s[stop + 2]));
                                assert(CharClass::HexDigit.has(s[stop + 3]));
                                assert(CharClass::HexDigit.has(s[stop + 4]));
                                assert(CharClass::HexDigit.has(s[stop + 5]));
                                assert(escaped[2] == s[stop + 2]);
                                assert(escaped[3] == s[stop + 3]);
                                assert(escaped[4] == s[stop + 4]);
                                assert(escaped[5] == s[stop + 5]);
                            }
                            assert(is_string_body(escaped));
                            lemma_body_after_plain(plain, escaped);
                            assert(plain + escaped =~= s.subrange(pos, close));
                        },
                        Err(_) => {},
                    }
                },
                None => {},
            }
        }
    }
}

/// A string literal that was read ends inside the input and holds the body of a string
/// literal.
pub proof fn lemma_string_result(s: Seq<char>, pos: int)
    requires
        0 <= pos <= s.len(),
    ensures
        string(s, pos) matches Ok((body, end)) ==> pos < end <= s.len() && is_string_body(body),
{
    if at(s, pos, '"') {
        lemma_string_body_result(s, pos + 1);
    }
}

/// The alternative that was read ends inside the input, is not empty, is well formed and
/// nests no deeper than allowed.
pub proof fn lemma_alternative_result(s: Seq<char>, pos: int, depth: nat)
    requires
        0 <= pos <= s.len(),
    ensures
        alternative(s, pos, depth) matches Ok((v, end)) ==> pos < end <= s.len() && v.wf()
            && v.nests_within(depth),
    decreases depth, 1nat,
{
    lemma_number_result(s, pos);
    lemma_string_result(s, pos);
    if at(s, pos, '[') {
        lemma_array_result(s, pos, depth);
    }
    if at(s, pos, '{') {
        lemma_object_result(s, pos, depth);
    }
}

/// A value that was read ends inside the input, is not empty, is well formed and nests no
/// deeper than allowed.
pub proof fn lemma_value_result(s: Seq<char>, pos: int, depth: nat)
    requires
        0 <= pos <= s.len(),
    ensures
        value(s, pos, depth) matches Ok((v, end)) ==> pos < end <= s.len() && v.wf()
            && v.nests_within(depth),
    decreases depth, 2nat,
{
    lemma_whitespace_result(s, pos);
    let start = whitespace(s, pos);
    lemma_alternative_result(s, start, depth);
    if let Ok((v, end)) = alternative(s, start, depth) {
        lemma_whitespace_result(s, end);
    }
}

/// The elements that were read end inside the input, and each is well formed and nests no
/// deeper than allowed.
pub proof fn lemma_elements_result(s: Seq<char>, pos: int, depth: nat)
    requires
        0 <= pos <= s.len(),
    ensures
        elements(s, pos, depth) matches Ok((items, end)) ==> pos < end <= s.len() && forall|
            i: int,
        |
            0 <= i < items.len() ==> (#[trigger] items[i]).wf() && items[i].nests_within(depth),
    decreases depth, remaining(s, pos) + 4,
{
    lemma_value_result(s, pos, depth);
    if let Ok((v, end)) = value(s, pos, depth) {
        if at(s, end, ',') && pos <= end {
            lemma_elements_result(s, end + 1, depth);
            if let Ok((rest, after)) = elements(s, end + 1, depth) {
                let items = seq![v] + rest;
                assert forall|i: int| 0 <= i < items.len() implies (#[trigger] items[i]).wf()
                    && items[i].nests_within(depth) by {
                    if i > 0 {
                        assert(items[i] == rest[i - 1]);
                    }
                }
            }
        }
    }
}

/// An array that was read ends inside the input, is well formed and nests no deeper than
/// allowed.
pub proof fn lemma_array_result(s: Seq<char>, pos: int, depth: nat)
    requires
        0 <= pos <= s.len(),
    ensures
        array(s, pos, depth) matches Ok((v, end)) ==> pos < end <= s.len() && v.wf()
            && v.nests_within(depth),
    decreases depth, 0nat,
{
    if at(s, pos, '[') && depth > 0 {
        lemma_whitespace_result(s, pos + 1);
        let first = whitespace(s, pos + 1);
        if !at(s, first, ']') {
            lemma_elements_result(s, first, (depth - 1) as nat);
        }
    }
}

/// A member that was read ends inside the input; its key is the body of a string literal
/// and its value is well formed and nests no deeper than allowed.
pub proof fn lemma_member_result(s: Seq<char>, pos: int, depth: nat)
    requires
        0 <= pos <= s.len(),
    ensures
        member(s, pos, depth) matches Ok((m, end)) ==> pos < end <= s.len() && is_string_body(m.0)
            && m.1.wf() && m.1.nests_within(depth),
    decreases depth, 3nat,
{
    lemma_whitespace_result(s, pos);
    let start = whitespace(s, pos);
    lemma_string_result(s, start);
    if let Ok((key, key_end)) = string(s, start) {
        lemma_whitespace_result(s, key_end);
        let colon = whitespace(s, key_end);
        if at(s, colon, ':') {
            lemma_value_result(s, colon + 1, depth);
        }
    }
}

/// The members that were read end inside the input; each key is the body of a string
/// literal and each value is well formed and nests no deeper than allowed.
pub proof fn lemma_members_result(s: Seq<char>, pos: int, depth: nat)
    requires
        0 <= pos <= s.len(),
    ensures
        members(s, pos, depth) matches Ok((pairs, end)) ==> pos < end <= s.len() && forall|
            i: int,
        |
            0 <= i < pairs.len() ==> is_string_body((#[trigger] pairs[i]).0) && pairs[i].1.wf()
                && pairs[i].1.nests_within(depth),
    decreases depth, remaining(s, pos) + 4,
{
    lemma_member_result(s, pos, depth);
    if let Ok((m, end)) = member(s, pos, depth) {
        if at(s, end, ',') && pos <= end {
            lemma_members_result(s, end + 1, depth);
            if let Ok((rest, after)) = members(s, end + 1, depth) {
                let pairs = seq![m] + rest;
                assert forall|i: int| 0 <= i < pairs.len() implies is_string_body(
                    (#[trigger] pairs[i]).0,
                ) && pairs[i].1.wf() && pairs[i].1.nests_within(depth) by {
                    if i > 0 {
                        assert(pairs[i] == rest[i - 1]);
                    }
                }
            }
        }
    }
}

/// An object that was read ends inside the input, is well formed and nests no deeper than
/// allowed.
pub proof fn lemma_object_result(s: Seq<char>, pos: int, depth: nat)
    requires
        0 <= pos <= s.len(),
    ensures
        object(s, pos, depth) matches Ok((v, end)) ==> pos < end <= s.len() && v.wf()
            && v.nests_within(depth),
    decreases depth, 0nat,
{
    if at(s, pos, '{') && depth > 0 {
        lemma_whitespace_result(s, pos + 1);
        let first = whitespace(s, pos + 1);
        if !at(s, first, '}') {
            lemma_members_result(s, first, (depth - 1) as nat);
        }
    }
}

} // verus!
