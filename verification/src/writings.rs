//! Everything that is read is a text of the grammar: a way of writing the value that was
//! read.

use crate::chars::{is_digit, lemma_run_len, run_len, CharClass};
use crate::grammar::{
    alternative, array, at, elements, exponent, fraction, has_false, has_null, has_true,
    integer_end, member, members, number, object, remaining, string, string_body, value,
    whitespace,
};
use crate::readings::{lemma_elements_after_whitespace, lemma_members_after_whitespace};
use crate::results::{
    lemma_alternative_result, lemma_member_result, lemma_number_result, lemma_string_body_result,
    lemma_value_result,
};
use crate::syntax::{
    is_blank, member_text_of, member_texts, member_values, padded_texts, padded_values, Padded,
    Written, WrittenMember,
};
use crate::value::{fraction_text, quoted};
use vstd::prelude::*;

verus! {

/// The whitespace that is skipped at a position is whitespace.
pub proof fn lemma_whitespace_written(s: Seq<char>, pos: int)
    requires
        0 <= pos <= s.len(),
    ensures
        pos <= whitespace(s, pos) <= s.len(),
        is_blank(s.subrange(pos, whitespace(s, pos))),
{
    lemma_run_len(s, pos, CharClass::Whitespace);
    let blank = s.subrange(pos, whitespace(s, pos));
    assert forall|i: int| 0 <= i < blank.len() implies crate::chars::is_whitespace(
        #[trigger] blank[i],
    ) by {
        assert(CharClass::Whitespace.has(s[pos + i]));
    }
}

/// The fraction that is read at a position is written there.
pub proof fn lemma_fraction_written(s: Seq<char>, pos: int)
    requires
        0 <= pos <= s.len(),
    ensures
        fraction(s, pos) matches Some((digits, end)) ==> pos < end <= s.len() && fraction_text(
            digits,
        ) == s.subrange(pos, end),
{
    if let Some((digits, end)) = fraction(s, pos) {
        lemma_run_len(s, pos + 1, CharClass::Digit);
        assert(fraction_text(digits) =~= s.subrange(pos, end));
    }
}

/// The exponent that is read at a position is written there in the spelling that is
/// returned: whether the marker is in upper case, and whether a plus sign is written.
pub proof fn lemma_exponent_written(s: Seq<char>, pos: int) -> (spelling: (bool, bool))
    requires
        0 <= pos <= s.len(),
    ensures
        exponent(s, pos) matches Some((e, end)) ==> pos < end <= s.len() && e.spelled(
            spelling.0,
            spelling.1,
        ) == s.subrange(pos, end),
{
    let upper = at(s, pos, 'E');
    let plus = at(s, pos + 1, '+');
    if let Some((e, end)) = exponent(s, pos) {
        let signed = at(s, pos + 1, '+') || at(s, pos + 1, '-');
        let first = if signed { pos + 2 } else { pos + 1 };
        lemma_run_len(s, first, CharClass::Digit);
        assert(e.spelled(upper, plus) =~= s.subrange(pos, end));
    }
    (upper, plus)
}

/// The number that is read at a position is written there, its exponent in the spelling
/// that is returned.
pub proof fn lemma_number_written(s: Seq<char>, pos: int) -> (spelling: (bool, bool))
    requires
        0 <= pos <= s.len(),
    ensures
        number(s, pos) matches Ok((n, end)) ==> n.spelled(spelling.0, spelling.1) == s.subrange(
            pos,
            end,
        ),
{
    let start = if at(s, pos, '-') { pos + 1 } else { pos };
    if 0 <= start < s.len() && is_digit(s[start]) {
        let int_end = integer_end(s, start);
        lemma_run_len(s, start + 1, CharClass::Digit);
        lemma_fraction_written(s, int_end);
        let frac_end = match fraction(s, int_end) {
            Some((_, end)) => end,
            None => int_end,
        };
        let spelling = lemma_exponent_written(s, frac_end);
        let end = match exponent(s, frac_end) {
            Some((_, end)) => end,
            None => frac_end,
        };
        let n = number(s, pos)->Ok_0.0;
        let sign: Seq<char> = if n.is_negative { seq!['-'] } else { Seq::empty() };
        let frac: Seq<char> = match n.fraction {
            Some(digits) => fraction_text(digits),
            None => Seq::empty(),
        };
        let exp: Seq<char> = match n.exponent {
            Some(e) => e.spelled(spelling.0, spelling.1),
            None => Seq::empty(),
        };
        assert(sign =~= s.subrange(pos, start));
        assert(frac =~= s.subrange(int_end, frac_end));
        assert(exp =~= s.subrange(frac_end, end));
        assert(n.spelled(spelling.0, spelling.1) == sign + (n.integer + frac + exp));
        assert(s.subrange(pos, start) + (s.subrange(start, int_end) + s.subrange(int_end, frac_end)
            + s.subrange(frac_end, end)) =~= s.subrange(pos, end));
        spelling
    } else {
        (false, false)
    }
}

/// The string literal that is read at a position is written there.
pub proof fn lemma_string_written(s: Seq<char>, pos: int)
    requires
        0 <= pos <= s.len(),
    ensures
        string(s, pos) matches Ok((body, end)) ==> pos < end <= s.len() && quoted(body)
            == s.subrange(pos, end),
{
    if at(s, pos, '"') {
        lemma_string_body_result(s, pos + 1);
        if let Ok(close) = string_body(s, pos + 1) {
            assert(quoted(s.subrange(pos + 1, close)) =~= s.subrange(pos, close + 1));
        }
    }
}

/// The alternative that is read at a position is written there as the text of the grammar
/// that is returned.
pub proof fn lemma_alternative_written(s: Seq<char>, pos: int, depth: nat) -> (w: Written)
    requires
        0 <= pos <= s.len(),
        alternative(s, pos, depth) is Ok,
    ensures
        w.wf(),
        alternative(s, pos, depth) matches Ok((v, end)) && v == w.value() && pos <= end <= s.len()
            && w.text() == s.subrange(pos, end),
    decreases depth, 1nat,
{
    lemma_alternative_result(s, pos, depth);
    if has_null(s, pos) {
        assert(Written::Null.text() =~= s.subrange(pos, pos + 4));
        Written::Null
    } else if has_true(s, pos) {
        assert(Written::True.text() =~= s.subrange(pos, pos + 4));
        Written::True
    } else if has_false(s, pos) {
        assert(Written::False.text() =~= s.subrange(pos, pos + 5));
        Written::False
    } else if at(s, pos, '-') || (0 <= pos < s.len() && is_digit(s[pos])) {
        lemma_number_result(s, pos);
        let spelling = lemma_number_written(s, pos);
        Written::Number { number: number(s, pos)->Ok_0.0, upper: spelling.0, plus: spelling.1 }
    } else if at(s, pos, '"') {
        lemma_string_written(s, pos);
        Written::String(string(s, pos)->Ok_0.0)
    } else if at(s, pos, '[') {
        lemma_array_written(s, pos, depth)
    } else {
        lemma_object_written(s, pos, depth)
    }
}

/// The value that is read at a position is written there, whitespace included, as the text
/// of the grammar that is returned.
pub proof fn lemma_value_written(s: Seq<char>, pos: int, depth: nat) -> (p: Padded)
    requires
        0 <= pos <= s.len(),
        value(s, pos, depth) is Ok,
    ensures
        p.wf(),
        value(s, pos, depth) matches Ok((v, end)) && v == p.value() && pos <= end <= s.len()
            && p.text() == s.subrange(pos, end),
    decreases depth, 2nat,
{
    lemma_whitespace_written(s, pos);
    let start = whitespace(s, pos);
    let w = lemma_alternative_written(s, start, depth);
    let (v, stop) = alternative(s, start, depth)->Ok_0;
    lemma_whitespace_written(s, stop);
    let end = whitespace(s, stop);
    let p = Padded { before: s.subrange(pos, start), written: w, after: s.subrange(stop, end) };
    assert(p.text() =~= s.subrange(pos, end));
    p
}

/// The elements that are read at a position are written there as the texts of the grammar
/// that are returned.
pub proof fn lemma_elements_written(s: Seq<char>, pos: int, depth: nat) -> (items: Seq<Padded>)
    requires
        0 <= pos <= s.len(),
        elements(s, pos, depth) is Ok,
    ensures
        items.len() >= 1,
        forall|i: int| 0 <= i < items.len() ==> (#[trigger] items[i]).wf(),
        elements(s, pos, depth) matches Ok((values, end)) && values == padded_values(items) && pos
            < end <= s.len() && padded_texts(items) + seq![']'] == s.subrange(pos, end),
    decreases depth, remaining(s, pos) + 4,
{
    lemma_value_result(s, pos, depth);
    let p = lemma_value_written(s, pos, depth);
    let (v, stop) = value(s, pos, depth)->Ok_0;
    if at(s, stop, ',') && pos <= stop {
        let rest = lemma_elements_written(s, stop + 1, depth);
        let (values, end) = elements(s, stop + 1, depth)->Ok_0;
        let items = seq![p] + rest;
        assert(items.drop_first() =~= rest);
        assert(items[0] == p);
        assert(padded_texts(items) == p.text() + seq![','] + padded_texts(rest));
        assert(p.text() + seq![','] + padded_texts(rest) + seq![']'] =~= p.text() + (seq![',']
            + (padded_texts(rest) + seq![']'])));
        assert(seq![','] =~= s.subrange(stop, stop + 1));
        assert(s.subrange(pos, stop) + (s.subrange(stop, stop + 1) + s.subrange(stop + 1, end))
            =~= s.subrange(pos, end));
        assert(seq![v] + values =~= padded_values(items));
        assert forall|i: int| 0 <= i < items.len() implies (#[trigger] items[i]).wf() by {
            if i > 0 {
                assert(items[i] == rest[i - 1]);
            }
        }
        items
    } else {
        let items = seq![p];
        assert(padded_texts(items) == p.text());
        assert(p.text() + seq![']'] =~= s.subrange(pos, stop + 1));
        assert(seq![v] =~= padded_values(items));
        items
    }
}

/// The array that is read at a position is written there as the text of the grammar that
/// is returned.
pub proof fn lemma_array_written(s: Seq<char>, pos: int, depth: nat) -> (w: Written)
    requires
        0 <= pos <= s.len(),
        array(s, pos, depth) is Ok,
    ensures
        w.wf(),
        array(s, pos, depth) matches Ok((v, end)) && v == w.value() && pos <= end <= s.len()
            && w.text() == s.subrange(pos, end),
    decreases depth, 0nat,
{
    lemma_whitespace_written(s, pos + 1);
    let first = whitespace(s, pos + 1);
    if at(s, first, ']') {
        let w = Written::EmptyArray(s.subrange(pos + 1, first));
        assert(w.text() =~= s.subrange(pos, first + 1));
        w
    } else {
        let inside = (depth - 1) as nat;
        lemma_elements_after_whitespace(s, pos + 1, inside);
        let items = lemma_elements_written(s, pos + 1, inside);
        let (values, end) = elements(s, pos + 1, inside)->Ok_0;
        let w = Written::Array(items);
        assert(w.text() =~= seq!['['] + (padded_texts(items) + seq![']']));
        assert(seq!['['] + s.subrange(pos + 1, end) =~= s.subrange(pos, end));
        assert(w.value()->Array_0 =~= padded_values(items));
        w
    }
}

/// The member that is read at a position is written there as the text of the grammar that
/// is returned.
pub proof fn lemma_member_written(s: Seq<char>, pos: int, depth: nat) -> (m: WrittenMember)
    requires
        0 <= pos <= s.len(),
        member(s, pos, depth) is Ok,
    ensures
        m.wf(),
        member(s, pos, depth) matches Ok((pair, end)) && pair == m.value() && pos <= end
            <= s.len() && member_text_of(m) == s.subrange(pos, end),
    decreases depth, 3nat,
{
    lemma_whitespace_written(s, pos);
    let start = whitespace(s, pos);
    lemma_string_written(s, start);
    crate::results::lemma_string_result(s, start);
    let (key, key_end) = string(s, start)->Ok_0;
    lemma_whitespace_written(s, key_end);
    let colon = whitespace(s, key_end);
    let p = lemma_value_written(s, colon + 1, depth);
    let (v, end) = value(s, colon + 1, depth)->Ok_0;
    let m = WrittenMember {
        before_key: s.subrange(pos, start),
        key,
        after_key: s.subrange(key_end, colon),
        value: p,
    };
    assert(seq![':'] =~= s.subrange(colon, colon + 1));
    assert(member_text_of(m) =~= s.subrange(pos, start) + (s.subrange(start, key_end) + (
    s.subrange(key_end, colon) + (s.subrange(colon, colon + 1) + s.subrange(colon + 1, end)))));
    assert(s.subrange(pos, start) + (s.subrange(start, key_end) + (s.subrange(key_end, colon) + (
    s.subrange(colon, colon + 1) + s.subrange(colon + 1, end)))) =~= s.subrange(pos, end));
    m
}

/// The members that are read at a position are written there as the texts of the grammar
/// that are returned.
pub proof fn lemma_members_written(s: Seq<char>, pos: int, depth: nat) -> (pairs: Seq<
    WrittenMember,
>)
    requires
        0 <= pos <= s.len(),
        members(s, pos, depth) is Ok,
    ensures
        pairs.len() >= 1,
        forall|i: int| 0 <= i < pairs.len() ==> (#[trigger] pairs[i]).wf(),
        members(s, pos, depth) matches Ok((values, end)) && values == member_values(pairs) && pos
            < end <= s.len() && member_texts(pairs) + seq!['}'] == s.subrange(pos, end),
    decreases depth, remaining(s, pos) + 4,
{
    lemma_member_result(s, pos, depth);
    let m = lemma_member_written(s, pos, depth);
    let (pair, stop) = member(s, pos, depth)->Ok_0;
    let t = member_text_of(m);
    if at(s, stop, ',') && pos <= stop {
        let rest = lemma_members_written(s, stop + 1, depth);
        let (values, end) = members(s, stop + 1, depth)->Ok_0;
        let pairs = seq![m] + rest;
        assert(pairs.drop_first() =~= rest);
        assert(pairs[0] == m);
        assert(member_texts(pairs) == t + seq![','] + member_texts(rest));
        assert(t + seq![','] + member_texts(rest) + seq!['}'] =~= t + (seq![','] + (member_texts(
            rest,
        ) + seq!['}'])));
        assert(seq![','] =~= s.subrange(stop, stop + 1));
        assert(s.subrange(pos, stop) + (s.subrange(stop, stop + 1) + s.subrange(stop + 1, end))
            =~= s.subrange(pos, end));
        assert(seq![pair] + values =~= member_values(pairs));
        assert forall|i: int| 0 <= i < pairs.len() implies (#[trigger] pairs[i]).wf() by {
            if i > 0 {
                assert(pairs[i] == rest[i - 1]);
            }
        }
        pairs
    } else {
        let pairs = seq![m];
        assert(member_texts(pairs) == t);
        assert(t + seq!['}'] =~= s.subrange(pos, stop + 1));
        assert(seq![pair] =~= member_values(pairs));
        pairs
    }
}

/// The object that is read at a position is written there as the text of the grammar that
/// is returned.
pub proof fn lemma_object_written(s: Seq<char>, pos: int, depth: nat) -> (w: Written)
    requires
        0 <= pos <= s.len(),
        object(s, pos, depth) is Ok,
    ensures
        w.wf(),
        object(s, pos, depth) matches Ok((v, end)) && v == w.value() && pos <= end <= s.len()
            && w.text() == s.subrange(pos, end),
    decreases depth, 0nat,
{
    lemma_whitespace_written(s, pos + 1);
    let first = whitespace(s, pos + 1);
    if at(s, first, '}') {
        let w = Written::EmptyObject(s.subrange(pos + 1, first));
        assert(w.text() =~= s.subrange(pos, first + 1));
        w
    } else {
        let inside = (depth - 1) as nat;
        lemma_members_after_whitespace(s, pos + 1, inside);
        let pairs = lemma_members_written(s, pos + 1, inside);
        let (values, end) = members(s, pos + 1, inside)->Ok_0;
        let w = Written::Object(pairs);
        assert(w.text() =~= seq!['{'] + (member_texts(pairs) + seq!['}']));
        assert(seq!['{'] + s.subrange(pos + 1, end) =~= s.subrange(pos, end));
        assert(w.value()->Object_0 =~= member_values(pairs));
        w
    }
}

} // verus!
