//! Text that stands in the input: how the numbers and strings that are written there are
//! read.

use crate::chars::{
    is_digit, is_simple_escape, is_string_char, is_whitespace, lemma_run_len_is, run_len,
    CharClass,
};
use crate::error::Failure;
use crate::grammar::{
    at, escape, exponent, fraction, integer_end, number, simple_escape, string, string_body,
    unicode_escape, whitespace,
};
use crate::value::{fraction_text, is_digits, is_string_body, quoted, ExponentView, NumberView};
use vstd::prelude::*;

verus! {

/// Whether the text `t` stands in `s` at `pos`.
pub open spec fn stands_at(s: Seq<char>, pos: int, t: Seq<char>) -> bool {
    0 <= pos && pos + t.len() <= s.len() && forall|i: int|
        0 <= i < t.len() ==> s[pos + i] == #[trigger] t[i]
}

/// Whether no number that ends at `end` could go on: the input ends there, or what stands
/// there is no digit, point or exponent marker.
pub open spec fn ends_number(s: Seq<char>, end: int) -> bool {
    end >= s.len() || !(is_digit(s[end]) || s[end] == '.' || s[end] == 'e' || s[end] == 'E')
}

/// Where two texts stand one after the other, each stands at its place.
pub proof fn lemma_stands_at_parts(s: Seq<char>, pos: int, a: Seq<char>, b: Seq<char>)
    requires
        stands_at(s, pos, a + b),
    ensures
        stands_at(s, pos, a),
        stands_at(s, pos + a.len(), b),
{
    assert forall|i: int| 0 <= i < a.len() implies s[pos + i] == #[trigger] a[i] by {
        assert((a + b)[i] == a[i]);
    }
    assert forall|i: int| 0 <= i < b.len() implies s[pos + a.len() + i] == #[trigger] b[i] by {
        assert((a + b)[a.len() + i] == b[i]);
    }
}

/// Where a text stands, what is left of it after `k` characters stands `k` further on.
pub proof fn lemma_stands_at_skip(s: Seq<char>, pos: int, t: Seq<char>, k: int)
    requires
        stands_at(s, pos, t),
        0 <= k <= t.len(),
    ensures
        stands_at(s, pos + k, t.skip(k)),
{
    assert forall|i: int| 0 <= i < t.skip(k).len() implies s[pos + k + i] == #[trigger] t.skip(
        k,
    )[i] by {
        assert(t[k + i] == t.skip(k)[i]);
    }
}

/// A text that stands in the input is the stretch of the input at its place.
pub proof fn lemma_stands_at_subrange(s: Seq<char>, pos: int, t: Seq<char>)
    requires
        stands_at(s, pos, t),
    ensures
        s.subrange(pos, pos + t.len()) == t,
{
    assert forall|i: int| 0 <= i < t.len() implies s.subrange(pos, pos + t.len())[i] == t[i] by {
        assert(s[pos + i] == t[i]);
    }
    assert(s.subrange(pos, pos + t.len()) =~= t);
}

/// A stretch of `k` members of the class is no longer than the run.
pub proof fn lemma_run_len_at_least(s: Seq<char>, start: int, class: CharClass, k: nat)
    requires
        0 <= start,
        start + k <= s.len(),
        forall|i: int| start <= i < start + k ==> class.has(#[trigger] s[i]),
    ensures
        run_len(s, start, class) >= k,
    decreases k,
{
    if k > 0 {
        lemma_run_len_at_least(s, start + 1, class, (k - 1) as nat);
    }
}

/// No whitespace is skipped where none stands.
pub proof fn lemma_no_whitespace(s: Seq<char>, pos: int)
    requires
        pos < 0 || pos >= s.len() || !is_whitespace(s[pos]),
    ensures
        whitespace(s, pos) == pos,
{
}

/// Digits that stand in the input, with no digit after them, are the run of digits there.
pub proof fn lemma_digits_run(s: Seq<char>, pos: int, digits: Seq<char>)
    requires
        is_digits(digits),
        stands_at(s, pos, digits),
        pos + digits.len() >= s.len() || !is_digit(s[pos + digits.len()]),
    ensures
        run_len(s, pos, CharClass::Digit) == digits.len(),
        s.subrange(pos, pos + digits.len()) == digits,
{
    assert forall|i: int| pos <= i < pos + digits.len() implies CharClass::Digit.has(
        #[trigger] s[i],
    ) by {
        assert(is_digit(digits[i - pos]));
    }
    lemma_run_len_is(s, pos, CharClass::Digit, digits.len());
    lemma_stands_at_subrange(s, pos, digits);
}

/// A written fraction with no digit after it is read as its digits.
pub proof fn lemma_fraction_reads(s: Seq<char>, pos: int, digits: Seq<char>)
    requires
        digits.len() >= 1,
        is_digits(digits),
        stands_at(s, pos, fraction_text(digits)),
        pos + 1 + digits.len() >= s.len() || !is_digit(s[pos + 1 + digits.len()]),
    ensures
        fraction(s, pos) == Some((digits, pos + 1 + digits.len())),
{
    lemma_stands_at_parts(s, pos, seq!['.'], digits);
    assert(seq!['.'][0] == '.');
    lemma_digits_run(s, pos + 1, digits);
}

/// A written exponent with no digit after it is read as its sign and digits, in each of
/// its spellings.
pub proof fn lemma_exponent_reads(s: Seq<char>, pos: int, e: ExponentView, upper: bool, plus: bool)
    requires
        e.wf(),
        stands_at(s, pos, e.spelled(upper, plus)),
        pos + e.spelled(upper, plus).len() >= s.len() || !is_digit(
            s[pos + e.spelled(upper, plus).len()],
        ),
    ensures
        exponent(s, pos) == Some((e, pos + e.spelled(upper, plus).len())),
{
    let marker = seq![if upper { 'E' } else { 'e' }];
    let sign: Seq<char> = if !e.is_positive {
        seq!['-']
    } else if plus {
        seq!['+']
    } else {
        Seq::empty()
    };
    assert(e.spelled(upper, plus) == (marker + sign) + e.digits);
    lemma_stands_at_parts(s, pos, marker + sign, e.digits);
    lemma_stands_at_parts(s, pos, marker, sign);
    assert(s[pos] == marker[0]);
    if sign.len() == 1 {
        assert(s[pos + 1] == sign[0]);
    } else {
        assert(s[pos + 1] == e.digits[0]);
        assert(is_digit(e.digits[0]));
    }
    lemma_digits_run(s, pos + 1 + sign.len(), e.digits);
}

/// A written number that cannot go on is read as itself, in each spelling of its exponent.
pub proof fn lemma_number_reads(s: Seq<char>, pos: int, n: NumberView, upper: bool, plus: bool)
    requires
        n.wf(),
        stands_at(s, pos, n.spelled(upper, plus)),
        ends_number(s, pos + n.spelled(upper, plus).len()),
    ensures
        number(s, pos) == Ok::<(NumberView, int), Failure>(
            (n, pos + n.spelled(upper, plus).len()),
        ),
{
    let sign: Seq<char> = if n.is_negative {
        seq!['-']
    } else {
        Seq::empty()
    };
    let frac: Seq<char> = match n.fraction {
        Some(digits) => fraction_text(digits),
        None => Seq::empty(),
    };
    let exp: Seq<char> = match n.exponent {
        Some(e) => e.spelled(upper, plus),
        None => Seq::empty(),
    };
    let start = pos + sign.len();
    let int_end = start + n.integer.len();
    let frac_end = int_end + frac.len();
    let end = frac_end + exp.len();
    assert(n.spelled(upper, plus) == sign + ((n.integer + frac) + exp));
    lemma_stands_at_parts(s, pos, sign, (n.integer + frac) + exp);
    lemma_stands_at_parts(s, start, n.integer + frac, exp);
    lemma_stands_at_parts(s, start, n.integer, frac);
    assert(is_digit(n.integer[0]));
    assert(s[start] == n.integer[0]);
    if n.is_negative {
        assert(s[pos] == sign[0]);
    }
    // what follows each part is no digit
    if n.fraction is Some {
        assert(s[int_end] == frac[0]);
        assert(frac[0] == '.');
    } else if n.exponent is Some {
        assert(s[int_end] == exp[0]);
    }
    if n.exponent is Some {
        assert(s[frac_end] == exp[0]);
        assert(exp[0] == 'e' || exp[0] == 'E');
    }
    // the integer part
    if n.integer[0] == '0' {
        assert(integer_end(s, start) == int_end);
    } else {
        lemma_stands_at_skip(s, start, n.integer, 1);
        assert(is_digits(n.integer.skip(1))) by {
            assert forall|i: int| 0 <= i < n.integer.skip(1).len() implies is_digit(
                #[trigger] n.integer.skip(1)[i],
            ) by {
                assert(is_digit(n.integer[i + 1]));
            }
        }
        lemma_digits_run(s, start + 1, n.integer.skip(1));
        assert(integer_end(s, start) == int_end);
    }
    lemma_stands_at_subrange(s, start, n.integer);
    // the fraction
    match n.fraction {
        Some(digits) => {
            lemma_fraction_reads(s, int_end, digits);
        },
        None => {
            assert(fraction(s, int_end) is None);
        },
    }
    // the exponent
    match n.exponent {
        Some(e) => {
            lemma_exponent_reads(s, frac_end, e, upper, plus);
        },
        None => {
            assert(exponent(s, frac_end) is None);
        },
    }
}

/// The body of a string literal that stands before a quote is read up to that quote.
pub proof fn lemma_string_body_reads(s: Seq<char>, pos: int, body: Seq<char>)
    requires
        is_string_body(body),
        stands_at(s, pos, body),
        at(s, pos + body.len(), '"'),
    ensures
        string_body(s, pos) == Ok::<int, Failure>(pos + body.len()),
    decreases body.len(),
{
    let class = CharClass::StringChar;
    if body.len() == 0 {
        assert(run_len(s, pos, class) == 0);
    } else if is_string_char(body[0]) && is_string_body(body.skip(1)) {
        assert(s[pos] == body[0]);
        lemma_stands_at_skip(s, pos, body, 1);
        lemma_string_body_reads(s, pos + 1, body.skip(1));
        assert(run_len(s, pos, class) == 1 + run_len(s, pos + 1, class));
    } else if body.len() >= 2 && body[0] == '\\' && is_simple_escape(body[1]) && is_string_body(
        body.skip(2),
    ) {
        assert(s[pos] == body[0]);
        assert(s[pos + 1] == body[1]);
        assert(run_len(s, pos, class) == 0);
        lemma_stands_at_skip(s, pos, body, 2);
        lemma_string_body_reads(s, pos + 2, body.skip(2));
        assert(escape(s, pos + 1) == Some(pos + 2));
    } else {
        assert(s[pos] == body[0]);
        assert(s[pos + 1] == body[1]);
        assert(s[pos + 2] == body[2]);
        assert(s[pos + 3] == body[3]);
        assert(s[pos + 4] == body[4]);
        assert(s[pos + 5] == body[5]);
        assert(run_len(s, pos, class) == 0);
        lemma_run_len_at_least(s, pos + 2, CharClass::HexDigit, 4);
        lemma_stands_at_skip(s, pos, body, 6);
        lemma_string_body_reads(s, pos + 6, body.skip(6));
        assert(simple_escape(s, pos + 1) is None);
        assert(unicode_escape(s, pos + 1) == Some(pos + 6));
        assert(escape(s, pos + 1) == Some(pos + 6));
    }
}

/// A written string literal is read as its body.
pub proof fn lemma_string_reads(s: Seq<char>, pos: int, body: Seq<char>)
    requires
        is_string_body(body),
        stands_at(s, pos, quoted(body)),
    ensures
        string(s, pos) == Ok::<(Seq<char>, int), Failure>((body, pos + body.len() + 2)),
{
    assert(quoted(body) == seq!['"'] + (body + seq!['"']));
    lemma_stands_at_parts(s, pos, seq!['"'], body + seq!['"']);
    lemma_stands_at_parts(s, pos + 1, body, seq!['"']);
    assert(s[pos] == seq!['"'][0]);
    assert(s[pos + 1 + body.len()] == seq!['"'][0]);
    lemma_string_body_reads(s, pos + 1, body);
    lemma_stands_at_subrange(s, pos + 1, body);
}

/// The characters with which a value can start.
pub open spec fn is_value_start(c: char) -> bool {
    c == 'n' || c == 't' || c == 'f' || c == '-' || is_digit(c) || c == '"' || c == '[' || c
        == '{'
}

/// Whether a value that ends at `end` is closed there: the input ends, or a comma or a
/// closing bracket or brace stands there.
pub open spec fn closes_value(s: Seq<char>, end: int) -> bool {
    end >= s.len() || s[end] == ',' || s[end] == ']' || s[end] == '}'
}

} // verus!
