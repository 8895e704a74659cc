//! Character classes of the JSON grammar and runs of characters in the input.

use vstd::prelude::*;
use winnow::token::take_while;
use winnow::{PResult, Parser};

verus! {

/// The sets of characters that the grammar scans in runs.
#[derive(Clone, Copy, Debug, PartialEq, Eq)]
pub enum CharClass {
    /// Space, tab, line feed and carriage return.
    Whitespace,
    /// The ASCII decimal digits.
    Digit,
    /// The ASCII hexadecimal digits, in either case.
    HexDigit,
    /// What may stand unescaped inside a string literal.
    StringChar,
}

/// The whitespace of the grammar: space, tab, line feed, carriage return.
pub open spec fn is_whitespace(c: char) -> bool {
    c == ' ' || c == '\t' || c == '\n' || c == '\r'
}

/// The ASCII decimal digits.
pub open spec fn is_digit(c: char) -> bool {
    '0' <= c <= '9'
}

/// The ASCII hexadecimal digits, in either case.
pub open spec fn is_hex_digit(c: char) -> bool {
    is_digit(c) || 'a' <= c <= 'f' || 'A' <= c <= 'F'
}

/// What may stand unescaped inside a string literal: anything but the quote, the
/// backslash and whitespace.
pub open spec fn is_string_char(c: char) -> bool {
    c != '"' && c != '\\' && !is_whitespace(c)
}

/// The characters that may follow a backslash on their own.
pub open spec fn is_simple_escape(c: char) -> bool {
    c == '"' || c == '\\' || c == '/' || c == 'b' || c == 'f' || c == 'n' || c == 'r' || c == 't'
}

impl CharClass {
    /// Membership of `c` in the class.
    pub open spec fn has(self, c: char) -> bool {
        match self {
            CharClass::Whitespace => is_whitespace(c),
            CharClass::Digit => is_digit(c),
            CharClass::HexDigit => is_hex_digit(c),
            CharClass::StringChar => is_string_char(c),
        }
    }

    /// Tests whether `c` belongs to the class.
    pub fn contains(&self, c: char) -> (member: bool)
        ensures
            member == self.has(c),
    {
        match self {
            CharClass::Whitespace => c == ' ' || c == '\t' || c == '\n' || c == '\r',
            CharClass::Digit => '0' <= c && c <= '9',
            CharClass::HexDigit => ('0' <= c && c <= '9') || ('a' <= c && c <= 'f') || ('A' <= c
                && c <= 'F'),
            CharClass::StringChar => !(c == '"' || c == '\\' || c == ' ' || c == '\t' || c == '\n'
                || c == '\r'),
        }
    }
}

/// The number of consecutive members of `class` in `s` from index `start` on.
pub open spec fn run_len(s: Seq<char>, start: int, class: CharClass) -> nat
    decreases s.len() - start,
{
    if 0 <= start < s.len() && class.has(s[start]) {
        1 + run_len(s, start + 1, class)
    } else {
        0
    }
}

/// A run ends inside the input, holds members of the class only, and cannot be extended.
pub proof fn lemma_run_len(s: Seq<char>, start: int, class: CharClass)
    requires
        0 <= start <= s.len(),
    ensures
        start + run_len(s, start, class) <= s.len(),
        forall|i: int| start <= i < start + run_len(s, start, class) ==> class.has(#[trigger] s[i]),
        start + run_len(s, start, class) < s.len() ==> !class.has(
            s[start + run_len(s, start, class)],
        ),
    decreases s.len() - start,
{
    if start < s.len() && class.has(s[start]) {
        lemma_run_len(s, start + 1, class);
    }
}

/// A stretch of members of the class that cannot be extended is the run.
pub proof fn lemma_run_len_is(s: Seq<char>, start: int, class: CharClass, n: nat)
    requires
        0 <= start,
        start + n <= s.len(),
        forall|i: int| start <= i < start + n ==> class.has(#[trigger] s[i]),
        start + n < s.len() ==> !class.has(s[start + n]),
    ensures
        run_len(s, start, class) == n,
    decreases n,
{
    if n > 0 {
        lemma_run_len_is(s, start + 1, class, (n - 1) as nat);
    }
}

/// What a bounded scan takes: the run from `start`, cut at `max`, if it has at least `min`
/// characters.
pub open spec fn bounded_run(s: Seq<char>, start: int, class: CharClass, min: int, max: int)
    -> Option<int> {
    let n = if run_len(s, start, class) <= max { run_len(s, start, class) as int } else { max };
    if min <= n {
        Some(n)
    } else {
        None
    }
}

/// Calls `winnow::token::take_while` with the occurrence range `min..=max` on the input from
/// `start` on. The parser takes the longest run of tokens accepted by the predicate, up to
/// `max` of them, and fails when the run is shorter than `min`; the length of what it took is
/// returned. It rejects a range with `min > max` as a misuse, so such a range is not
/// admitted. This contract is taken on trust from the outside crate.
#[verifier::external_body]
pub(crate) fn take_while_class(
    input: &[char],
    start: usize,
    min: usize,
    max: usize,
    class: CharClass,
) -> (taken: Option<usize>)
    requires
        start <= input@.len(),
        min <= max,
    ensures
        match taken {
            Some(n) => bounded_run(input@, start as int, class, min as int, max as int) == Some(
                n as int,
            ),
            None => bounded_run(input@, start as int, class, min as int, max as int) is None,
        },
{
    let mut rest: &[char] = &input[start..];
    let run: PResult<&[char]> = take_while(min..=max, |c: char| class.contains(c)).parse_next(
        &mut rest,
    );
    run.ok().map(|slice| slice.len())
}

/// The position after the run of members of `class` that starts at `pos`.
pub fn take_run(input: &[char], pos: usize, class: CharClass) -> (end: usize)
    requires
        pos <= input@.len(),
    ensures
        end == pos + run_len(input@, pos as int, class),
        pos <= end <= input@.len(),
{
    proof {
        lemma_run_len(input@, pos as int, class);
    }
    let left = input.len() - pos;
    match take_while_class(input, pos, 0, left, class) {
        Some(n) => pos + n,
        None => pos,
    }
}

/// `String::push` appends the character to the end of the string.
pub assume_specification[ std::string::String::push ](s: &mut std::string::String, c: char)
    ensures
        final(s)@ == old(s)@.push(c),
;

/// The characters of `text`, in order.
pub fn text_to_chars(text: &str) -> (chars: Vec<char>)
    ensures
        chars@ == text@,
{
    let mut chars: Vec<char> = Vec::new();
    for c in it: text.chars()
        invariant
            chars@ == it.seq().take(it.index() as int),
    {
        chars.push(c);
    }
    chars
}

/// The characters of `input` from `from` up to `to`, as a string.
pub fn slice_to_string(input: &[char], from: usize, to: usize) -> (text: String)
    requires
        from <= to <= input@.len(),
    ensures
        text@ == input@.subrange(from as int, to as int),
{
    let mut text = String::new();
    let mut i: usize = from;
    while i < to
        invariant
            from <= i <= to <= input@.len(),
            text@ == input@.subrange(from as int, i as int),
        decreases to - i,
    {
        text.push(input[i]);
        i += 1;
    }
    text
}

} // verus!
