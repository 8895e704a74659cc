//! Every text of the grammar is read as the value that it writes.

use crate::chars::{is_whitespace, lemma_run_len, lemma_run_len_is, CharClass};
use crate::error::Failure;
use crate::grammar::{
    alternative, array, elements, member, members, object, value, whitespace,
};
use crate::results::{lemma_member_result, lemma_value_result};
use crate::syntax::{
    is_blank, member_text_of, member_texts, member_values, padded_texts, padded_values, Padded,
    Written, WrittenMember,
};
use crate::texts::{
    closes_value, is_value_start, lemma_number_reads, lemma_stands_at_parts, lemma_string_reads,
    stands_at,
};
use crate::value::{quoted, ValueView};
use vstd::prelude::*;

verus! {

/// Whitespace that stands in the input, with none after it, is what is skipped there.
pub proof fn lemma_blank_run(s: Seq<char>, pos: int, blank: Seq<char>)
    requires
        is_blank(blank),
        stands_at(s, pos, blank),
        pos + blank.len() >= s.len() || !is_whitespace(s[pos + blank.len()]),
    ensures
        whitespace(s, pos) == pos + blank.len(),
{
    assert forall|i: int| pos <= i < pos + blank.len() implies CharClass::Whitespace.has(
        #[trigger] s[i],
    ) by {
        assert(is_whitespace(blank[i - pos]));
    }
    lemma_run_len_is(s, pos, CharClass::Whitespace, blank.len());
}

/// Skipping whitespace twice skips no more than skipping it once.
pub proof fn lemma_whitespace_once(s: Seq<char>, pos: int)
    requires
        0 <= pos <= s.len(),
    ensures
        pos <= whitespace(s, pos) <= s.len(),
        whitespace(s, whitespace(s, pos)) == whitespace(s, pos),
{
    lemma_run_len(s, pos, CharClass::Whitespace);
}

/// The elements of an array are the same read from before the whitespace that precedes them.
pub proof fn lemma_elements_after_whitespace(s: Seq<char>, pos: int, depth: nat)
    requires
        0 <= pos <= s.len(),
    ensures
        elements(s, whitespace(s, pos), depth) == elements(s, pos, depth),
{
    lemma_whitespace_once(s, pos);
    lemma_value_result(s, pos, depth);
    lemma_value_result(s, whitespace(s, pos), depth);
}

/// The members of an object are the same read from before the whitespace that precedes them.
pub proof fn lemma_members_after_whitespace(s: Seq<char>, pos: int, depth: nat)
    requires
        0 <= pos <= s.len(),
    ensures
        members(s, whitespace(s, pos), depth) == members(s, pos, depth),
{
    lemma_whitespace_once(s, pos);
    lemma_member_result(s, pos, depth);
    lemma_member_result(s, whitespace(s, pos), depth);
}

/// A written value is not empty and starts as a value starts.
pub proof fn lemma_written_starts(w: Written)
    requires
        w.wf(),
    ensures
        w.text().len() >= 1,
        is_value_start(w.text()[0]),
{
    match w {
        Written::Number { number, upper, plus } => {
            assert(crate::chars::is_digit(number.integer[0]));
            if number.is_negative {
                assert(w.text()[0] == '-');
            } else {
                assert(w.text()[0] == number.integer[0]);
            }
        },
        Written::String(body) => {
            assert(quoted(body)[0] == '"');
        },
        Written::EmptyArray(_) => {
            assert(w.text()[0] == '[');
        },
        Written::Array(_) => {
            assert(w.text()[0] == '[');
        },
        Written::EmptyObject(_) => {
            assert(w.text()[0] == '{');
        },
        Written::Object(_) => {
            assert(w.text()[0] == '{');
        },
        _ => {},
    }
}

/// A written array is read as its value.
pub proof fn lemma_written_array_reads(s: Seq<char>, pos: int, w: Written, depth: nat)
    requires
        w is Array || w is EmptyArray,
        w.wf(),
        w.value().nests_within(depth),
        stands_at(s, pos, w.text()),
    ensures
        array(s, pos, depth) == Ok::<(ValueView, int), Failure>((w.value(), pos + w.text().len())),
    decreases w, 0nat,
{
    match w {
        Written::EmptyArray(blank) => {
            assert(w.text() == seq!['['] + (blank + seq![']']));
            lemma_stands_at_parts(s, pos, seq!['['], blank + seq![']']);
            lemma_stands_at_parts(s, pos + 1, blank, seq![']']);
            assert(s[pos] == seq!['['][0]);
            assert(s[pos + 1 + blank.len()] == seq![']'][0]);
            lemma_blank_run(s, pos + 1, blank);
        },
        Written::Array(items) => {
            let inner = padded_texts(items);
            let inside = (depth - 1) as nat;
            assert(w.text() == seq!['['] + (inner + seq![']']));
            lemma_stands_at_parts(s, pos, seq!['['], inner + seq![']']);
            assert(s[pos] == seq!['['][0]);
            let values = w.value()->Array_0;
            assert forall|i: int| 0 <= i < items.len() implies (#[trigger] items[i]).wf()
                && items[i].value().nests_within(inside) by {
                assert(values[i] == items[i].value());
            }
            lemma_padded_elements_read(s, pos + 1, items, inside);
            lemma_elements_after_whitespace(s, pos + 1, inside);
            // the first element does not start with the closing bracket
            let first = items[0];
            let rest: Seq<char> = if items.len() == 1 {
                seq![']']
            } else {
                seq![','] + padded_texts(items.drop_first()) + seq![']']
            };
            assert(inner + seq![']'] =~= first.before + (first.written.text() + (first.after
                + rest)));
            lemma_stands_at_parts(s, pos + 1, first.before, first.written.text() + (first.after
                + rest));
            lemma_written_starts(first.written);
            assert(s[pos + 1 + first.before.len()] == (first.written.text() + (first.after
                + rest))[0]);
            lemma_blank_run(s, pos + 1, first.before);
            assert(padded_values(items) =~= values);
        },
        _ => {},
    }
}

/// A written object is read as its value.
pub proof fn lemma_written_object_reads(s: Seq<char>, pos: int, w: Written, depth: nat)
    requires
        w is Object || w is EmptyObject,
        w.wf(),
        w.value().nests_within(depth),
        stands_at(s, pos, w.text()),
    ensures
        object(s, pos, depth) == Ok::<(ValueView, int), Failure>((w.value(), pos + w.text().len())),
    decreases w, 0nat,
{
    match w {
        Written::EmptyObject(blank) => {
            assert(w.text() == seq!['{'] + (blank + seq!['}']));
            lemma_stands_at_parts(s, pos, seq!['{'], blank + seq!['}']);
            lemma_stands_at_parts(s, pos + 1, blank, seq!['}']);
            assert(s[pos] == seq!['{'][0]);
            assert(s[pos + 1 + blank.len()] == seq!['}'][0]);
            lemma_blank_run(s, pos + 1, blank);
        },
        Written::Object(pairs) => {
            let inner = member_texts(pairs);
            let inside = (depth - 1) as nat;
            assert(w.text() == seq!['{'] + (inner + seq!['}']));
            lemma_stands_at_parts(s, pos, seq!['{'], inner + seq!['}']);
            assert(s[pos] == seq!['{'][0]);
            let values = w.value()->Object_0;
            assert forall|i: int| 0 <= i < pairs.len() implies (#[trigger] pairs[i]).wf()
                && pairs[i].value.value().nests_within(inside) by {
                assert(values[i] == pairs[i].value());
            }
            lemma_written_members_read(s, pos + 1, pairs, inside);
            lemma_members_after_whitespace(s, pos + 1, inside);
            // the first member does not start with the closing brace
            let first = pairs[0];
            let rest: Seq<char> = if pairs.len() == 1 {
                seq!['}']
            } else {
                seq![','] + member_texts(pairs.drop_first()) + seq!['}']
            };
            let after_blank = quoted(first.key) + (first.after_key + (seq![':'] + (
            first.value.text() + rest)));
            let first_text = member_text_of(first);
            let key_on = quoted(first.key) + (first.after_key + (seq![':'] + first.value.text()));
            assert(first_text =~= first.before_key + key_on);
            assert(inner + seq!['}'] =~= first_text + rest);
            assert(key_on + rest =~= after_blank);
            assert(first_text + rest =~= first.before_key + (key_on + rest));
            assert(inner + seq!['}'] == first.before_key + after_blank);
            lemma_stands_at_parts(s, pos + 1, first.before_key, after_blank);
            assert(after_blank[0] == '"');
            assert(s[pos + 1 + first.before_key.len()] == after_blank[0]);
            lemma_blank_run(s, pos + 1, first.before_key);
            assert(member_values(pairs) =~= values);
        },
        _ => {},
    }
}

/// A written value that is followed by whitespace or by what closes a value is read as its
/// value.
pub proof fn lemma_written_reads(s: Seq<char>, pos: int, w: Written, depth: nat)
    requires
        w.wf(),
        w.value().nests_within(depth),
        stands_at(s, pos, w.text()),
        closes_value(s, pos + w.text().len()) || is_whitespace(s[pos + w.text().len()]),
    ensures
        alternative(s, pos, depth) == Ok::<(ValueView, int), Failure>(
            (w.value(), pos + w.text().len()),
        ),
    decreases w, 1nat,
{
    let t = w.text();
    lemma_written_starts(w);
    assert(s[pos] == t[0]);
    match w {
        Written::Null => {
            assert(s[pos + 1] == t[1] && s[pos + 2] == t[2] && s[pos + 3] == t[3]);
        },
        Written::True => {
            assert(s[pos + 1] == t[1] && s[pos + 2] == t[2] && s[pos + 3] == t[3]);
        },
        Written::False => {
            assert(s[pos + 1] == t[1] && s[pos + 2] == t[2] && s[pos + 3] == t[3] && s[pos + 4]
                == t[4]);
        },
        Written::Number { number, upper, plus } => {
            lemma_number_reads(s, pos, number, upper, plus);
        },
        Written::String(body) => {
            lemma_string_reads(s, pos, body);
        },
        Written::EmptyArray(_) => {
            assert(t[0] == '[');
            lemma_written_array_reads(s, pos, w, depth);
        },
        Written::Array(_) => {
            assert(t[0] == '[');
            lemma_written_array_reads(s, pos, w, depth);
        },
        Written::EmptyObject(_) => {
            assert(t[0] == '{');
            lemma_written_object_reads(s, pos, w, depth);
        },
        Written::Object(_) => {
            assert(t[0] == '{');
            lemma_written_object_reads(s, pos, w, depth);
        },
    }
}

/// A written value with its whitespace, followed by what closes a value, is read as its
/// value.
pub proof fn lemma_padded_reads(s: Seq<char>, pos: int, p: Padded, depth: nat)
    requires
        p.wf(),
        p.value().nests_within(depth),
        stands_at(s, pos, p.text()),
        closes_value(s, pos + p.text().len()),
    ensures
        value(s, pos, depth) == Ok::<(ValueView, int), Failure>((p.value(), pos + p.text().len())),
    decreases p.written, 2nat,
{
    let t = p.written.text();
    let start = pos + p.before.len();
    let end = start + t.len();
    lemma_stands_at_parts(s, pos, p.before + t, p.after);
    lemma_stands_at_parts(s, pos, p.before, t);
    lemma_written_starts(p.written);
    assert(s[start] == t[0]);
    lemma_blank_run(s, pos, p.before);
    if p.after.len() > 0 {
        assert(s[end] == p.after[0]);
    }
    lemma_written_reads(s, start, p.written, depth);
    lemma_blank_run(s, end, p.after);
}

/// The written elements of an array, followed by the closing bracket, are read as their
/// values.
pub proof fn lemma_padded_elements_read(s: Seq<char>, pos: int, items: Seq<Padded>, depth: nat)
    requires
        items.len() >= 1,
        forall|i: int|
            0 <= i < items.len() ==> (#[trigger] items[i]).wf() && items[i].value().nests_within(
                depth,
            ),
        stands_at(s, pos, padded_texts(items) + seq![']']),
    ensures
        elements(s, pos, depth) == Ok::<(Seq<ValueView>, int), Failure>(
            (padded_values(items), pos + padded_texts(items).len() + 1),
        ),
    decreases items, 0nat,
{
    let p = items[0];
    let t = p.text();
    assert(p.wf() && p.value().nests_within(depth));
    if items.len() == 1 {
        lemma_stands_at_parts(s, pos, t, seq![']']);
        assert(s[pos + t.len()] == seq![']'][0]);
        lemma_padded_reads(s, pos, p, depth);
        assert(seq![p.value()] =~= padded_values(items));
    } else {
        let rest = items.drop_first();
        let tail = padded_texts(rest) + seq![']'];
        assert(padded_texts(items) + seq![']'] =~= t + (seq![','] + tail));
        lemma_stands_at_parts(s, pos, t, seq![','] + tail);
        lemma_stands_at_parts(s, pos + t.len(), seq![','], tail);
        assert(s[pos + t.len()] == seq![','][0]);
        lemma_padded_reads(s, pos, p, depth);
        assert forall|i: int| 0 <= i < rest.len() implies (#[trigger] rest[i]).wf()
            && rest[i].value().nests_within(depth) by {
            assert(rest[i] == items[i + 1]);
        }
        vstd::seq::axiom_seq_subrange_decreases(items, 1, items.len() as int);
        lemma_padded_elements_read(s, pos + t.len() + 1, rest, depth);
        assert(seq![p.value()] + padded_values(rest) =~= padded_values(items));
    }
}

/// A written member that is followed by what closes a value is read as its key and value.
pub proof fn lemma_written_member_reads(s: Seq<char>, pos: int, m: WrittenMember, depth: nat)
    requires
        m.wf(),
        m.value.value().nests_within(depth),
        stands_at(s, pos, member_text_of(m)),
        closes_value(s, pos + member_text_of(m).len()),
    ensures
        member(s, pos, depth) == Ok::<((Seq<char>, ValueView), int), Failure>(
            (m.value(), pos + member_text_of(m).len()),
        ),
    decreases m.value.written, 3nat,
{
    let key = quoted(m.key);
    let t = m.value.text();
    let after_key = m.after_key + (seq![':'] + t);
    assert(member_text_of(m) =~= m.before_key + (key + after_key));
    lemma_stands_at_parts(s, pos, m.before_key, key + after_key);
    let key_start = pos + m.before_key.len();
    lemma_stands_at_parts(s, key_start, key, after_key);
    let key_end = key_start + key.len();
    lemma_stands_at_parts(s, key_end, m.after_key, seq![':'] + t);
    let colon = key_end + m.after_key.len();
    lemma_stands_at_parts(s, colon, seq![':'], t);
    assert(s[key_start] == key[0]);
    lemma_blank_run(s, pos, m.before_key);
    lemma_string_reads(s, key_start, m.key);
    assert(s[colon] == seq![':'][0]);
    lemma_blank_run(s, key_end, m.after_key);
    lemma_padded_reads(s, colon + 1, m.value, depth);
}

/// The written members of an object, followed by the closing brace, are read as their
/// keys and values.
pub proof fn lemma_written_members_read(
    s: Seq<char>,
    pos: int,
    pairs: Seq<WrittenMember>,
    depth: nat,
)
    requires
        pairs.len() >= 1,
        forall|i: int|
            0 <= i < pairs.len() ==> (#[trigger] pairs[i]).wf()
                && pairs[i].value.value().nests_within(depth),
        stands_at(s, pos, member_texts(pairs) + seq!['}']),
    ensures
        members(s, pos, depth) == Ok::<(Seq<(Seq<char>, ValueView)>, int), Failure>(
            (member_values(pairs), pos + member_texts(pairs).len() + 1),
        ),
    decreases pairs, 0nat,
{
    let m = pairs[0];
    let t = member_text_of(m);
    assert(m.wf() && m.value.value().nests_within(depth));
    if pairs.len() == 1 {
        lemma_stands_at_parts(s, pos, t, seq!['}']);
        assert(s[pos + t.len()] == seq!['}'][0]);
        lemma_written_member_reads(s, pos, m, depth);
        assert(seq![m.value()] =~= member_values(pairs));
    } else {
        let rest = pairs.drop_first();
        let tail = member_texts(rest) + seq!['}'];
        assert(member_texts(pairs) + seq!['}'] =~= t + (seq![','] + tail));
        lemma_stands_at_parts(s, pos, t, seq![','] + tail);
        lemma_stands_at_parts(s, pos + t.len(), seq![','], tail);
        assert(s[pos + t.len()] == seq![','][0]);
        lemma_written_member_reads(s, pos, m, depth);
        assert forall|i: int| 0 <= i < rest.len() implies (#[trigger] rest[i]).wf()
            && rest[i].value.value().nests_within(depth) by {
            assert(rest[i] == pairs[i + 1]);
        }
        vstd::seq::axiom_seq_subrange_decreases(pairs, 1, pairs.len() as int);
        lemma_written_members_read(s, pos + t.len() + 1, rest, depth);
        assert(seq![m.value()] + member_values(rest) =~= member_values(pairs));
    }
}

} // verus!
