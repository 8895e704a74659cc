//! The ways of writing a value: the grammar as a set of texts.
//!
//! A [`Written`] value is a value together with every choice that the grammar leaves to the
//! writer: the whitespace between the tokens and the spelling of each exponent. Its text is
//! what the writer wrote, its value is what was meant.

use crate::chars::is_whitespace;
use crate::value::{
    elements_text, is_string_body, member_text, members_text, quoted, NumberView, ValueView,
};
use vstd::prelude::*;

verus! {

/// Whether `t` holds whitespace only.
pub open spec fn is_blank(t: Seq<char>) -> bool {
    forall|i: int| 0 <= i < t.len() ==> is_whitespace(#[trigger] t[i])
}

/// A value as it is written, without the whitespace around it.
pub enum Written {
    Null,
    True,
    False,
    /// A number and the spelling of its exponent: the marker in upper case or not, the sign
    /// of a positive exponent written out or not.
    Number { number: NumberView, upper: bool, plus: bool },
    /// A string literal with this text between its quotes.
    String(Seq<char>),
    /// Brackets with nothing but this whitespace between them.
    EmptyArray(Seq<char>),
    /// Brackets around at least one element, with commas between the elements.
    Array(Seq<Padded>),
    /// Braces with nothing but this whitespace between them.
    EmptyObject(Seq<char>),
    /// Braces around at least one member, with commas between the members.
    Object(Seq<WrittenMember>),
}

/// A written value with the whitespace before and after it.
pub struct Padded {
    pub before: Seq<char>,
    pub written: Written,
    pub after: Seq<char>,
}

/// A written member: the key with the whitespace around it, a colon, the value.
pub struct WrittenMember {
    pub before_key: Seq<char>,
    pub key: Seq<char>,
    pub after_key: Seq<char>,
    pub value: Padded,
}

impl Written {
    /// What was written.
    pub open spec fn text(self) -> Seq<char>
        decreases self,
    {
        match self {
            Written::Null => seq!['n', 'u', 'l', 'l'],
            Written::True => seq!['t', 'r', 'u', 'e'],
            Written::False => seq!['f', 'a', 'l', 's', 'e'],
            Written::Number { number, upper, plus } => number.spelled(upper, plus),
            Written::String(body) => quoted(body),
            Written::EmptyArray(blank) => seq!['['] + blank + seq![']'],
            Written::Array(items) => seq!['['] + padded_texts(items) + seq![']'],
            Written::EmptyObject(blank) => seq!['{'] + blank + seq!['}'],
            Written::Object(members) => seq!['{'] + member_texts(members) + seq!['}'],
        }
    }

    /// What was meant.
    pub open spec fn value(self) -> ValueView
        decreases self,
    {
        match self {
            Written::Null => ValueView::Null,
            Written::True => ValueView::True,
            Written::False => ValueView::False,
            Written::Number { number, upper, plus } => ValueView::Number(number),
            Written::String(body) => ValueView::String(body),
            Written::EmptyArray(blank) => ValueView::Array(Seq::empty()),
            Written::Array(items) => ValueView::Array(
                Seq::new(
                    items.len(),
                    |i: int|
                        if 0 <= i < items.len() {
                            items[i].written.value()
                        } else {
                            ValueView::Null
                        },
                ),
            ),
            Written::EmptyObject(blank) => ValueView::Object(Seq::empty()),
            Written::Object(members) => ValueView::Object(
                Seq::new(
                    members.len(),
                    |i: int|
                        if 0 <= i < members.len() {
                            (members[i].key, members[i].value.written.value())
                        } else {
                            (Seq::empty(), ValueView::Null)
                        },
                ),
            ),
        }
    }

    /// Whether this is a text of the grammar: the numbers, strings and keys are well
    /// formed, only whitespace stands where whitespace may stand, and an array or object
    /// that is written with elements or members has at least one.
    pub open spec fn wf(self) -> bool
        decreases self,
    {
        match self {
            Written::Number { number, upper, plus } => number.wf(),
            Written::String(body) => is_string_body(body),
            Written::EmptyArray(blank) => is_blank(blank),
            Written::Array(items) => items.len() >= 1 && forall|i: int|
                0 <= i < items.len() ==> is_blank((#[trigger] items[i]).before) && is_blank(
                    items[i].after,
                ) && items[i].written.wf(),
            Written::EmptyObject(blank) => is_blank(blank),
            Written::Object(members) => members.len() >= 1 && forall|i: int|
                0 <= i < members.len() ==> is_blank((#[trigger] members[i]).before_key)
                    && is_string_body(members[i].key) && is_blank(members[i].after_key)
                    && is_blank(members[i].value.before) && is_blank(members[i].value.after)
                    && members[i].value.written.wf(),
            _ => true,
        }
    }
}

impl Padded {
    /// What was written, whitespace included.
    pub open spec fn text(self) -> Seq<char> {
        self.before + self.written.text() + self.after
    }

    /// What was meant.
    pub open spec fn value(self) -> ValueView {
        self.written.value()
    }

    /// Whether this is a text of the grammar.
    pub open spec fn wf(self) -> bool {
        is_blank(self.before) && is_blank(self.after) && self.written.wf()
    }
}

impl WrittenMember {
    /// What was written.
    pub open spec fn text(self) -> Seq<char> {
        member_text_of(self)
    }

    /// What was meant.
    pub open spec fn value(self) -> (Seq<char>, ValueView) {
        (self.key, self.value.value())
    }

    /// Whether this is a text of the grammar.
    pub open spec fn wf(self) -> bool {
        is_blank(self.before_key) && is_string_body(self.key) && is_blank(self.after_key)
            && self.value.wf()
    }
}

/// The texts of the elements, with a comma between each two.
pub open spec fn padded_texts(items: Seq<Padded>) -> Seq<char>
    decreases items,
{
    if items.len() == 0 {
        Seq::empty()
    } else if items.len() == 1 {
        items[0].before + items[0].written.text() + items[0].after
    } else {
        proof {
            vstd::seq::axiom_seq_subrange_decreases(items, 1, items.len() as int);
        }
        items[0].before + items[0].written.text() + items[0].after + seq![','] + padded_texts(
            items.drop_first(),
        )
    }
}

/// The texts of the members, with a comma between each two.
pub open spec fn member_texts(members: Seq<WrittenMember>) -> Seq<char>
    decreases members,
{
    if members.len() == 0 {
        Seq::empty()
    } else if members.len() == 1 {
        member_text_of(members[0])
    } else {
        proof {
            vstd::seq::axiom_seq_subrange_decreases(members, 1, members.len() as int);
        }
        member_text_of(members[0]) + seq![','] + member_texts(members.drop_first())
    }
}

/// The text of a member.
pub open spec fn member_text_of(m: WrittenMember) -> Seq<char>
    decreases m,
{
    m.before_key + quoted(m.key) + m.after_key + seq![':'] + m.value.before
        + m.value.written.text() + m.value.after
}

/// The values of the elements.
pub open spec fn padded_values(items: Seq<Padded>) -> Seq<ValueView> {
    Seq::new(items.len(), |i: int| items[i].value())
}

/// The keys and values of the members.
pub open spec fn member_values(members: Seq<WrittenMember>) -> Seq<(Seq<char>, ValueView)> {
    Seq::new(members.len(), |i: int| members[i].value())
}

/// The canonical way of writing a value: no whitespace, each exponent with a lower-case
/// marker and its sign.
pub open spec fn canonical(v: ValueView) -> Written
    decreases v,
{
    match v {
        ValueView::Null => Written::Null,
        ValueView::True => Written::True,
        ValueView::False => Written::False,
        ValueView::Number(number) => Written::Number { number, upper: false, plus: true },
        ValueView::String(body) => Written::String(body),
        ValueView::Array(items) => if items.len() == 0 {
            Written::EmptyArray(Seq::empty())
        } else {
            Written::Array(
                Seq::new(
                    items.len(),
                    |i: int|
                        Padded {
                            before: Seq::empty(),
                            written: if 0 <= i < items.len() {
                                canonical(items[i])
                            } else {
                                Written::Null
                            },
                            after: Seq::empty(),
                        },
                ),
            )
        },
        ValueView::Object(members) => if members.len() == 0 {
            Written::EmptyObject(Seq::empty())
        } else {
            Written::Object(
                Seq::new(
                    members.len(),
                    |i: int|
                        WrittenMember {
                            before_key: Seq::empty(),
                            key: members[i].0,
                            after_key: Seq::empty(),
                            value: Padded {
                                before: Seq::empty(),
                                written: if 0 <= i < members.len() {
                                    canonical(members[i].1)
                                } else {
                                    Written::Null
                                },
                                after: Seq::empty(),
                            },
                        },
                ),
            )
        },
    }
}

/// The canonical way of writing a well-formed value is a text of the grammar: it writes
/// that value, and its text is the canonical text of the value.
pub proof fn lemma_canonical(v: ValueView)
    requires
        v.wf(),
    ensures
        canonical(v).wf(),
        canonical(v).value() == v,
        canonical(v).text() == v.text(),
    decreases v, 1nat,
{
    match v {
        ValueView::Array(items) => {
            if items.len() == 0 {
                assert(items =~= Seq::empty());
                assert(seq!['['] + Seq::<char>::empty() + seq![']'] =~= seq!['['] + elements_text(
                    items,
                ) + seq![']']);
            } else {
                let written = canonical(v)->Array_0;
                assert forall|i: int| 0 <= i < items.len() implies canonical(items[i]).wf()
                    && canonical(items[i]).value() == items[i] by {
                    lemma_canonical(items[i]);
                }
                assert(canonical(v).value()->Array_0 =~= items);
                lemma_canonical_elements(items, written);
            }
        },
        ValueView::Object(members) => {
            if members.len() == 0 {
                assert(members =~= Seq::empty());
                assert(seq!['{'] + Seq::<char>::empty() + seq!['}'] =~= seq!['{'] + members_text(
                    members,
                ) + seq!['}']);
            } else {
                let written = canonical(v)->Object_0;
                assert forall|i: int| 0 <= i < members.len() implies canonical(members[i].1).wf()
                    && canonical(members[i].1).value() == members[i].1 by {
                    lemma_canonical(members[i].1);
                }
                assert(canonical(v).value()->Object_0 =~= members);
                lemma_canonical_members(members, written);
            }
        },
        _ => {},
    }
}

/// The canonical texts of elements are the texts of their canonical writings.
pub proof fn lemma_canonical_elements(items: Seq<ValueView>, written: Seq<Padded>)
    requires
        written.len() == items.len(),
        forall|i: int|
            0 <= i < items.len() ==> (#[trigger] items[i]).wf() && written[i] == (Padded {
                before: Seq::empty(),
                written: canonical(items[i]),
                after: Seq::empty(),
            }),
    ensures
        padded_texts(written) == elements_text(items),
    decreases items, 0nat,
{
    if items.len() > 0 {
        lemma_canonical(items[0]);
        let t = items[0].text();
        assert(Seq::<char>::empty() + t + Seq::<char>::empty() =~= t);
        if items.len() > 1 {
            vstd::seq::axiom_seq_subrange_decreases(items, 1, items.len() as int);
            let rest = items.drop_first();
            let rest_written = written.drop_first();
            assert forall|i: int| 0 <= i < rest.len() implies (#[trigger] rest[i]).wf()
                && rest_written[i] == (Padded {
                before: Seq::empty(),
                written: canonical(rest[i]),
                after: Seq::empty(),
            }) by {
                assert(rest[i] == items[i + 1]);
                assert(rest_written[i] == written[i + 1]);
            }
            lemma_canonical_elements(rest, rest_written);
        }
    }
}

/// The canonical texts of members are the texts of their canonical writings.
pub proof fn lemma_canonical_members(
    members: Seq<(Seq<char>, ValueView)>,
    written: Seq<WrittenMember>,
)
    requires
        written.len() == members.len(),
        forall|i: int|
            0 <= i < members.len() ==> (#[trigger] members[i]).1.wf() && written[i] == (
            WrittenMember {
                before_key: Seq::empty(),
                key: members[i].0,
                after_key: Seq::empty(),
                value: Padded {
                    before: Seq::empty(),
                    written: canonical(members[i].1),
                    after: Seq::empty(),
                },
            }),
    ensures
        member_texts(written) == members_text(members),
    decreases members, 0nat,
{
    if members.len() > 0 {
        lemma_canonical(members[0].1);
        let t = members[0].1.text();
        let key = quoted(members[0].0);
        assert(Seq::<char>::empty() + key + Seq::<char>::empty() + seq![':'] + Seq::<char>::empty()
            + t + Seq::<char>::empty() =~= key + seq![':'] + t);
        assert(member_text_of(written[0]) == member_text(members[0]));
        if members.len() > 1 {
            vstd::seq::axiom_seq_subrange_decreases(members, 1, members.len() as int);
            let rest = members.drop_first();
            let rest_written = written.drop_first();
            assert forall|i: int| 0 <= i < rest.len() implies (#[trigger] rest[i]).1.wf()
                && rest_written[i] == (WrittenMember {
                before_key: Seq::empty(),
                key: rest[i].0,
                after_key: Seq::empty(),
                value: Padded {
                    before: Seq::empty(),
                    written: canonical(rest[i].1),
                    after: Seq::empty(),
                },
            }) by {
                assert(rest[i] == members[i + 1]);
                assert(rest_written[i] == written[i + 1]);
            }
            lemma_canonical_members(rest, rest_written);
        }
    }
}

} // verus!
