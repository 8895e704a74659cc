//! The value tree of a JSON document and its mathematical model.

use crate::chars::{is_digit, is_hex_digit, is_simple_escape, is_string_char};
use vstd::prelude::*;
use vstd::string::StringExecFns;

verus! {

/// The fraction of a number: the digits after the point.
#[derive(Debug, PartialEq, Eq)]
pub struct Fraction {
    pub digits: String,
}

/// The exponent of a number: its sign and its digits.
#[derive(Debug, PartialEq, Eq)]
pub struct Exponent {
    pub is_positive: bool,
    pub digits: String,
}

/// A number as the decimal literal that denotes it.
#[derive(Debug, PartialEq, Eq)]
pub struct Number {
    pub is_negative: bool,
    pub integer: String,
    pub fraction: Option<Fraction>,
    pub exponent: Option<Exponent>,
}

/// A parsed JSON entity.
#[derive(Debug, PartialEq)]
pub enum JSONValue {
    Null,
    True,
    False,
    Number(Number),
    /// The text between the quotes, escape sequences kept as they were written.
    String(String),
    Array(Vec<JSONValue>),
    /// The members in the order of the input; a key may occur more than once.
    Object(Vec<(String, JSONValue)>),
}

/// The model of an [`Exponent`].
pub struct ExponentView {
    pub is_positive: bool,
    pub digits: Seq<char>,
}

/// The model of a [`Number`].
pub struct NumberView {
    pub is_negative: bool,
    pub integer: Seq<char>,
    pub fraction: Option<Seq<char>>,
    pub exponent: Option<ExponentView>,
}

/// The model of a [`JSONValue`].
pub enum ValueView {
    Null,
    True,
    False,
    Number(NumberView),
    String(Seq<char>),
    Array(Seq<ValueView>),
    Object(Seq<(Seq<char>, ValueView)>),
}

impl View for Fraction {
    type V = Seq<char>;

    open spec fn view(&self) -> Seq<char> {
        self.digits@
    }
}

impl View for Exponent {
    type V = ExponentView;

    open spec fn view(&self) -> ExponentView {
        ExponentView { is_positive: self.is_positive, digits: self.digits@ }
    }
}

impl View for Number {
    type V = NumberView;

    open spec fn view(&self) -> NumberView {
        NumberView {
            is_negative: self.is_negative,
            integer: self.integer@,
            fraction: match self.fraction {
                Some(f) => Some(f@),
                None => None,
            },
            exponent: match self.exponent {
                Some(e) => Some(e@),
                None => None,
            },
        }
    }
}

/// Whether `t` holds decimal digits only.
pub open spec fn is_digits(t: Seq<char>) -> bool {
    forall|i: int| 0 <= i < t.len() ==> is_digit(#[trigger] t[i])
}

/// Whether `body` may stand between the quotes of a string literal: a sequence of
/// characters other than the quote, the backslash and whitespace, and of escapes.
pub open spec fn is_string_body(body: Seq<char>) -> bool
    decreases body.len(),
{
    body.len() == 0 || (is_string_char(body[0]) && is_string_body(body.skip(1))) || (body.len()
        >= 2 && body[0] == '\\' && is_simple_escape(body[1]) && is_string_body(body.skip(2)))
        || (body.len() >= 6 && body[0] == '\\' && body[1] == 'u' && is_hex_digit(body[2])
        && is_hex_digit(body[3]) && is_hex_digit(body[4]) && is_hex_digit(body[5])
        && is_string_body(body.skip(6)))
}

/// A string literal as it is written: the body between quotes.
pub open spec fn quoted(body: Seq<char>) -> Seq<char> {
    seq!['"'] + body + seq!['"']
}

/// A fraction as it is written: a point and its digits.
pub open spec fn fraction_text(digits: Seq<char>) -> Seq<char> {
    seq!['.'] + digits
}

impl ExponentView {
    /// The digits are decimal digits, at least one.
    pub open spec fn wf(self) -> bool {
        self.digits.len() >= 1 && is_digits(self.digits)
    }

    /// One way of writing the exponent: the marker in upper or lower case, and the sign of
    /// a positive exponent written out or left out.
    pub open spec fn spelled(self, upper: bool, plus: bool) -> Seq<char> {
        seq![if upper { 'E' } else { 'e' }] + (if !self.is_positive {
            seq!['-']
        } else if plus {
            seq!['+']
        } else {
            Seq::empty()
        }) + self.digits
    }

    /// The exponent as it is written: `e`, the sign and the digits.
    pub open spec fn text(self) -> Seq<char> {
        self.spelled(false, true)
    }
}

impl NumberView {
    /// The parts are digits; the integer part has no leading zero, the others are not empty.
    pub open spec fn wf(self) -> bool {
        &&& self.integer.len() >= 1
        &&& is_digits(self.integer)
        &&& self.integer[0] == '0' ==> self.integer.len() == 1
        &&& self.fraction matches Some(digits) ==> digits.len() >= 1 && is_digits(digits)
        &&& self.exponent matches Some(e) ==> e.wf()
    }

    /// The number without its sign, with the exponent written as
    /// [`ExponentView::spelled`] says.
    pub open spec fn magnitude_spelled(self, upper: bool, plus: bool) -> Seq<char> {
        self.integer + (match self.fraction {
            Some(digits) => fraction_text(digits),
            None => Seq::empty(),
        }) + (match self.exponent {
            Some(e) => e.spelled(upper, plus),
            None => Seq::empty(),
        })
    }

    /// The number with its sign, with the exponent written as [`ExponentView::spelled`]
    /// says.
    pub open spec fn spelled(self, upper: bool, plus: bool) -> Seq<char> {
        (if self.is_negative { seq!['-'] } else { Seq::empty() }) + self.magnitude_spelled(
            upper,
            plus,
        )
    }

    /// The number without its sign, as it is written.
    pub open spec fn magnitude(self) -> Seq<char> {
        self.magnitude_spelled(false, true)
    }

    /// The number as it is written.
    pub open spec fn text(self) -> Seq<char> {
        self.spelled(false, true)
    }
}

impl ValueView {
    /// Every number and every string and key of the tree can be written down.
    pub open spec fn wf(self) -> bool
        decreases self,
    {
        match self {
            ValueView::Number(n) => n.wf(),
            ValueView::String(body) => is_string_body(body),
            ValueView::Array(items) => forall|i: int|
                0 <= i < items.len() ==> (#[trigger] items[i]).wf(),
            ValueView::Object(members) => forall|i: int|
                0 <= i < members.len() ==> is_string_body((#[trigger] members[i]).0)
                    && members[i].1.wf(),
            _ => true,
        }
    }

    /// At no point of the tree are more than `depth` arrays and objects open.
    pub open spec fn nests_within(self, depth: nat) -> bool
        decreases self,
    {
        match self {
            ValueView::Array(items) => depth > 0 && forall|i: int|
                0 <= i < items.len() ==> (#[trigger] items[i]).nests_within((depth - 1) as nat),
            ValueView::Object(members) => depth > 0 && forall|i: int|
                0 <= i < members.len() ==> (#[trigger] members[i]).1.nests_within(
                    (depth - 1) as nat,
                ),
            _ => true,
        }
    }

    /// The canonical text of the value: no whitespace, members and elements in order.
    pub open spec fn text(self) -> Seq<char>
        decreases self,
    {
        match self {
            ValueView::Null => seq!['n', 'u', 'l', 'l'],
            ValueView::True => seq!['t', 'r', 'u', 'e'],
            ValueView::False => seq!['f', 'a', 'l', 's', 'e'],
            ValueView::Number(n) => n.text(),
            ValueView::String(body) => quoted(body),
            ValueView::Array(items) => seq!['['] + elements_text(items) + seq![']'],
            ValueView::Object(members) => seq!['{'] + members_text(members) + seq!['}'],
        }
    }
}

/// The canonical texts of the elements, with a comma between each two.
pub open spec fn elements_text(items: Seq<ValueView>) -> Seq<char>
    decreases items,
{
    if items.len() == 0 {
        Seq::empty()
    } else if items.len() == 1 {
        items[0].text()
    } else {
        proof {
            vstd::seq::axiom_seq_subrange_decreases(items, 1, items.len() as int);
        }
        items[0].text() + seq![','] + elements_text(items.drop_first())
    }
}

/// The canonical text of a member: the key, a colon, the value.
pub open spec fn member_text(member: (Seq<char>, ValueView)) -> Seq<char>
    decreases member,
{
    quoted(member.0) + seq![':'] + member.1.text()
}

/// The canonical texts of the members, with a comma between each two.
pub open spec fn members_text(members: Seq<(Seq<char>, ValueView)>) -> Seq<char>
    decreases members,
{
    if members.len() == 0 {
        Seq::empty()
    } else if members.len() == 1 {
        member_text(members[0])
    } else {
        proof {
            vstd::seq::axiom_seq_subrange_decreases(members, 1, members.len() as int);
        }
        member_text(members[0]) + seq![','] + members_text(members.drop_first())
    }
}

impl Fraction {
    /// The fraction as it is written.
    pub fn to_text(&self) -> (text: String)
        ensures
            text@ == fraction_text(self@),
    {
        let mut text = String::new();
        text.push('.');
        text.append(self.digits.as_str());
        text
    }
}

impl Exponent {
    /// The exponent as it is written, the sign always present.
    pub fn to_text(&self) -> (text: String)
        ensures
            text@ == self@.text(),
    {
        let mut text = String::new();
        text.push('e');
        text.push(if self.is_positive { '+' } else { '-' });
        text.append(self.digits.as_str());
        text
    }
}

impl Number {
    /// The number without its sign, as it is written: the text that denotes its magnitude.
    pub fn magnitude_text(&self) -> (text: String)
        ensures
            text@ == self@.magnitude(),
    {
        let mut text = String::new();
        text.append(self.integer.as_str());
        if let Some(f) = &self.fraction {
            let part = f.to_text();
            text.append(part.as_str());
        }
        if let Some(e) = &self.exponent {
            let part = e.to_text();
            text.append(part.as_str());
        }
        text
    }

    /// The number as it is written.
    pub fn to_text(&self) -> (text: String)
        ensures
            text@ == self@.text(),
    {
        let mut text = String::new();
        if self.is_negative {
            text.push('-');
        }
        let magnitude = self.magnitude_text();
        text.append(magnitude.as_str());
        text
    }
}

impl JSONValue {
    /// The model of the value: the same tree over sequences.
    pub open spec fn model(self) -> ValueView
        decreases self,
    {
        match self {
            JSONValue::Null => ValueView::Null,
            JSONValue::True => ValueView::True,
            JSONValue::False => ValueView::False,
            JSONValue::Number(n) => ValueView::Number(n@),
            JSONValue::String(s) => ValueView::String(s@),
            JSONValue::Array(items) => ValueView::Array(
                Seq::new(
                    items.len() as nat,
                    |i: int|
                        if 0 <= i < items.len() {
                            items[i].model()
                        } else {
                            ValueView::Null
                        },
                ),
            ),
            JSONValue::Object(members) => ValueView::Object(
                Seq::new(
                    members.len() as nat,
                    |i: int|
                        if 0 <= i < members.len() {
                            (members[i].0@, members[i].1.model())
                        } else {
                            (Seq::empty(), ValueView::Null)
                        },
                ),
            ),
        }
    }
}

impl View for JSONValue {
    type V = ValueView;

    open spec fn view(&self) -> ValueView {
        self.model()
    }
}

/// The text of the elements from the first on is the text of the first, then a comma and
/// the text of the others where there are any.
pub proof fn lemma_elements_text_step(items: Seq<ValueView>, i: int)
    requires
        0 <= i < items.len(),
    ensures
        elements_text(items.skip(i)) == items[i].text() + (if i + 1 < items.len() {
            seq![','] + elements_text(items.skip(i + 1))
        } else {
            Seq::empty()
        }),
{
    let rest = items.skip(i);
    assert(rest[0] == items[i]);
    if i + 1 < items.len() {
        assert(rest.drop_first() =~= items.skip(i + 1));
        assert(items[i].text() + seq![','] + elements_text(items.skip(i + 1)) =~= items[i].text()
            + (seq![','] + elements_text(items.skip(i + 1))));
    } else {
        assert(items[i].text() + Seq::<char>::empty() =~= items[i].text());
    }
}

/// The text of the members from the first on is the text of the first, then a comma and
/// the text of the others where there are any.
pub proof fn lemma_members_text_step(members: Seq<(Seq<char>, ValueView)>, i: int)
    requires
        0 <= i < members.len(),
    ensures
        members_text(members.skip(i)) == member_text(members[i]) + (if i + 1 < members.len() {
            seq![','] + members_text(members.skip(i + 1))
        } else {
            Seq::empty()
        }),
{
    let rest = members.skip(i);
    assert(rest[0] == members[i]);
    if i + 1 < members.len() {
        assert(rest.drop_first() =~= members.skip(i + 1));
        assert(member_text(members[i]) + seq![','] + members_text(members.skip(i + 1))
            =~= member_text(members[i]) + (seq![','] + members_text(members.skip(i + 1))));
    } else {
        assert(member_text(members[i]) + Seq::<char>::empty() =~= member_text(members[i]));
    }
}

impl JSONValue {
    /// The canonical text of the value: no whitespace, elements and members in order,
    /// strings and keys as they are held.
    pub fn to_text(&self) -> (text: String)
        ensures
            text@ == self@.text(),
        decreases self,
    {
        let mut text = String::new();
        match self {
            JSONValue::Null => {
                text.push('n');
                text.push('u');
                text.push('l');
                text.push('l');
                assert(text@ =~= seq!['n', 'u', 'l', 'l']);
            },
            JSONValue::True => {
                text.push('t');
                text.push('r');
                text.push('u');
                text.push('e');
                assert(text@ =~= seq!['t', 'r', 'u', 'e']);
            },
            JSONValue::False => {
                text.push('f');
                text.push('a');
                text.push('l');
                text.push('s');
                text.push('e');
                assert(text@ =~= seq!['f', 'a', 'l', 's', 'e']);
            },
            JSONValue::Number(n) => {
                let part = n.to_text();
                text.append(part.as_str());
                assert(text@ =~= n@.text());
            },
            JSONValue::String(body) => {
                text.push('"');
                text.append(body.as_str());
                text.push('"');
                assert(text@ =~= quoted(body@));
            },
            JSONValue::Array(items) => {
                text.push('[');
                let ghost model = self@->Array_0;
                let mut i: usize = 0;
                assert(model.skip(0) =~= model);
                while i < items.len()
                    invariant
                        i <= items.len(),
                        model.len() == items.len(),
                        forall|k: int| 0 <= k < items.len() ==> model[k] == items[k]@,
                        forall|k: int|
                            0 <= k < items.len() ==> decreases_to!(self => #[trigger] items[k]),
                        seq!['['] + elements_text(model) == text@ + (if 0 < i < items.len() {
                            seq![',']
                        } else {
                            Seq::empty()
                        }) + (if i < items.len() {
                            elements_text(model.skip(i as int))
                        } else {
                            Seq::empty()
                        }),
                    decreases items.len() - i,
                {
                    let ghost before = text@;
                    if i > 0 {
                        text.push(',');
                    }
                    let part = items[i].to_text();
                    text.append(part.as_str());
                    proof {
                        lemma_elements_text_step(model, i as int);
                        let comma: Seq<char> = if 0 < i { seq![','] } else { Seq::empty() };
                        let next: Seq<char> = if i + 1 < items.len() {
                            seq![','] + elements_text(model.skip(i + 1))
                        } else {
                            Seq::empty()
                        };
                        assert(text@ == before + comma + model[i as int].text());
                        assert(before + comma + (model[i as int].text() + next) =~= text@ + next);
                        if i + 1 < items.len() {
                            assert(text@ + next =~= text@ + seq![','] + elements_text(
                                model.skip(i + 1),
                            ));
                        } else {
                            assert(text@ + next =~= text@ + Seq::<char>::empty() + Seq::<
                                char,
                            >::empty());
                        }
                    }
                    i += 1;
                }
                text.push(']');
                assert(text@ =~= seq!['['] + elements_text(model) + seq![']']);
            },
            JSONValue::Object(members) => {
                text.push('{');
                let ghost model = self@->Object_0;
                let mut i: usize = 0;
                assert(model.skip(0) =~= model);
                while i < members.len()
                    invariant
                        i <= members.len(),
                        model.len() == members.len(),
                        forall|k: int|
                            0 <= k < members.len() ==> model[k] == (members[k].0@, members[k].1@),
                        forall|k: int|
                            0 <= k < members.len() ==> decreases_to!(self => #[trigger] members[k]),
                        seq!['{'] + members_text(model) == text@ + (if 0 < i < members.len() {
                            seq![',']
                        } else {
                            Seq::empty()
                        }) + (if i < members.len() {
                            members_text(model.skip(i as int))
                        } else {
                            Seq::empty()
                        }),
                    decreases members.len() - i,
                {
                    let ghost before = text@;
                    if i > 0 {
                        text.push(',');
                    }
                    text.push('"');
                    text.append(members[i].0.as_str());
                    text.push('"');
                    text.push(':');
                    let part = members[i].1.to_text();
                    text.append(part.as_str());
                    proof {
                        lemma_members_text_step(model, i as int);
                        let comma: Seq<char> = if 0 < i { seq![','] } else { Seq::empty() };
                        let next: Seq<char> = if i + 1 < members.len() {
                            seq![','] + members_text(model.skip(i + 1))
                        } else {
                            Seq::empty()
                        };
                        assert(text@ =~= before + comma + member_text(model[i as int]));
                        assert(before + comma + (member_text(model[i as int]) + next) =~= text@
                            + next);
                        if i + 1 < members.len() {
                            assert(text@ + next =~= text@ + seq![','] + members_text(
                                model.skip(i + 1),
                            ));
                        } else {
                            assert(text@ + next =~= text@ + Seq::<char>::empty() + Seq::<
                                char,
                            >::empty());
                        }
                    }
                    i += 1;
                }
                text.push('}');
                assert(text@ =~= seq!['{'] + members_text(model) + seq!['}']);
            },
        }
        text
    }
}

/// The model of an array is the sequence of the models of its elements.
pub proof fn lemma_array_view(items: Vec<JSONValue>, model: Seq<ValueView>)
    requires
        model.len() == items.len(),
        forall|i: int| 0 <= i < items.len() ==> model[i] == items[i]@,
    ensures
        JSONValue::Array(items)@ == ValueView::Array(model),
{
    assert(JSONValue::Array(items)@->Array_0 =~= model);
}

/// The model of an object is the sequence of its keys with the models of their values.
pub proof fn lemma_object_view(members: Vec<(String, JSONValue)>, model: Seq<(Seq<char>, ValueView)>)
    requires
        model.len() == members.len(),
        forall|i: int| 0 <= i < members.len() ==> model[i] == (members[i].0@, members[i].1@),
    ensures
        JSONValue::Object(members)@ == ValueView::Object(model),
{
    assert(JSONValue::Object(members)@->Object_0 =~= model);
}

} // verus!
