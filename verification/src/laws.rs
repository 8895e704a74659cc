//! What the grammar promises of every document, proved from its definition.

use crate::chars::{is_digit, is_whitespace, lemma_run_len, CharClass};
use crate::error::Failure;
use crate::grammar::{document, string_body, value, whitespace};
use crate::readings::lemma_padded_reads;
use crate::results::{lemma_string_body_result, lemma_value_result};
use crate::syntax::{canonical, is_blank, lemma_canonical, Padded, Written};
use crate::texts::{lemma_no_whitespace, lemma_number_reads, stands_at};
use crate::value::{is_string_body, quoted, NumberView, ValueView};
use crate::writings::lemma_value_written;
use vstd::prelude::*;

verus! {

/// Every text of the grammar parses, as a whole, to the value that it writes, as long as
/// the nesting limit admits that value.
pub proof fn lemma_written_document(p: Padded, max_depth: nat)
    requires
        p.wf(),
        p.value().nests_within(max_depth),
    ensures
        document(p.text(), max_depth) == Ok::<ValueView, Failure>(p.value()),
{
    let s = p.text();
    assert(stands_at(s, 0, s));
    lemma_padded_reads(s, 0, p, max_depth);
}

/// Every text that parses is a text of the grammar: the way of writing that is returned
/// has the input as its text and what was parsed as its value. With
/// [`lemma_written_document`], the texts that parse are those of the grammar whose values
/// the nesting limit admits.
pub proof fn lemma_document_is_written(s: Seq<char>, max_depth: nat) -> (p: Padded)
    requires
        document(s, max_depth) is Ok,
    ensures
        p.wf(),
        p.text() == s,
        p.value().nests_within(max_depth),
        document(s, max_depth) == Ok::<ValueView, Failure>(p.value()),
{
    lemma_value_result(s, 0, max_depth);
    let p = lemma_value_written(s, 0, max_depth);
    assert(s.subrange(0, s.len() as int) =~= s);
    p
}

/// A value that can be written down is what its canonical text parses to, whatever
/// whitespace stands before and after the text, as long as the nesting limit admits it.
pub proof fn lemma_round_trip_in_whitespace(
    v: ValueView,
    before: Seq<char>,
    after: Seq<char>,
    max_depth: nat,
)
    requires
        v.wf(),
        v.nests_within(max_depth),
        is_blank(before),
        is_blank(after),
    ensures
        document(before + v.text() + after, max_depth) == Ok::<ValueView, Failure>(v),
{
    lemma_canonical(v);
    lemma_written_document(Padded { before, written: canonical(v), after }, max_depth);
}

/// Parsing the canonical text of a value that can be written down gives the value back, as
/// long as the nesting limit admits it.
pub proof fn lemma_round_trip(v: ValueView, max_depth: nat)
    requires
        v.wf(),
        v.nests_within(max_depth),
    ensures
        document(v.text(), max_depth) == Ok::<ValueView, Failure>(v),
{
    lemma_round_trip_in_whitespace(v, Seq::empty(), Seq::empty(), max_depth);
    assert(Seq::<char>::empty() + v.text() + Seq::<char>::empty() =~= v.text());
}

/// The keywords parse to their values, whatever whitespace stands before and after them.
pub proof fn lemma_keywords_in_whitespace(before: Seq<char>, after: Seq<char>, max_depth: nat)
    requires
        is_blank(before),
        is_blank(after),
    ensures
        document(before + seq!['n', 'u', 'l', 'l'] + after, max_depth) == Ok::<
            ValueView,
            Failure,
        >(ValueView::Null),
        document(before + seq!['t', 'r', 'u', 'e'] + after, max_depth) == Ok::<
            ValueView,
            Failure,
        >(ValueView::True),
        document(before + seq!['f', 'a', 'l', 's', 'e'] + after, max_depth) == Ok::<
            ValueView,
            Failure,
        >(ValueView::False),
{
    lemma_round_trip_in_whitespace(ValueView::Null, before, after, max_depth);
    lemma_round_trip_in_whitespace(ValueView::True, before, after, max_depth);
    lemma_round_trip_in_whitespace(ValueView::False, before, after, max_depth);
}

/// Every numeric literal of the grammar parses to the number that it spells: an optional
/// minus sign, an integer part without a leading zero, an optional fraction, and an
/// optional exponent with its marker in either case and its plus sign written or not.
pub proof fn lemma_number_literal(n: NumberView, upper: bool, plus: bool, max_depth: nat)
    requires
        n.wf(),
    ensures
        document(n.spelled(upper, plus), max_depth) == Ok::<ValueView, Failure>(
            ValueView::Number(n),
        ),
{
    let written = Written::Number { number: n, upper, plus };
    let p = Padded { before: Seq::empty(), written, after: Seq::empty() };
    lemma_written_document(p, max_depth);
    assert(p.text() =~= n.spelled(upper, plus));
}

/// A string literal parses if and only if what stands between its quotes is made of
/// characters other than the quote, the backslash and whitespace, and of permitted
/// escapes; it then parses to that text.
pub proof fn lemma_string_literal(body: Seq<char>, max_depth: nat)
    ensures
        is_string_body(body) <==> document(quoted(body), max_depth) is Ok,
        is_string_body(body) ==> document(quoted(body), max_depth) == Ok::<ValueView, Failure>(
            ValueView::String(body),
        ),
{
    let s = quoted(body);
    if is_string_body(body) {
        lemma_round_trip(ValueView::String(body), max_depth);
    }
    if document(s, max_depth) is Ok {
        assert(s[0] == '"');
        lemma_no_whitespace(s, 0);
        lemma_string_body_result(s, 1);
        let close = string_body(s, 1)->Ok_0;
        let last = s.len() - 1;
        assert(s[last] == '"');
        if close < last {
            // the whitespace after the closing quote would have to reach the last quote
            lemma_run_len(s, close + 1, CharClass::Whitespace);
            let stop = whitespace(s, close + 1);
            if stop > last {
                assert(CharClass::Whitespace.has(s[last]));
            }
            assert(!is_whitespace(s[last]));
            assert(false);
        }
        assert(s.subrange(1, close) =~= body);
    }
}

/// A document is parsed only as a whole: where parsing succeeds, the value with its
/// surrounding whitespace takes the input to its end, and where a value is followed by
/// anything else, parsing fails.
pub proof fn lemma_document_takes_all(s: Seq<char>, max_depth: nat)
    ensures
        document(s, max_depth) matches Ok(v) ==> value(s, 0, max_depth) == Ok::<
            (ValueView, int),
            Failure,
        >((v, s.len() as int)),
        value(s, 0, max_depth) matches Ok((_, end)) ==> (end < s.len() ==> document(s, max_depth)
            is Err),
{
    lemma_value_result(s, 0, max_depth);
}

/// Whatever a document parses to can be written down and nests no deeper than the limit.
pub proof fn lemma_document_well_formed(s: Seq<char>, max_depth: nat)
    ensures
        document(s, max_depth) matches Ok(v) ==> v.wf() && v.nests_within(max_depth),
{
    lemma_value_result(s, 0, max_depth);
}

} // verus!
