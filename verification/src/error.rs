//! What a failed parse reports.

use vstd::prelude::*;

verus! {

/// Why the input is not a JSON document.
#[derive(Clone, Copy, Debug, PartialEq, Eq)]
pub enum ErrorKind {
    /// No value starts at the offset.
    ExpectedValue,
    /// A minus sign is not followed by a digit.
    InvalidNumber,
    /// A string literal was required and no quote stands at the offset.
    ExpectedString,
    /// The input ends inside a string literal.
    UnterminatedString,
    /// A raw space, tab, line feed or carriage return stands inside a string literal.
    ForbiddenCharacter,
    /// The backslash at the offset does not start a permitted escape.
    InvalidEscape,
    /// An object key is not followed by a colon.
    ExpectedColon,
    /// An array element is followed by neither a comma nor the closing bracket.
    ExpectedCommaOrBracket,
    /// An object member is followed by neither a comma nor the closing brace.
    ExpectedCommaOrBrace,
    /// Input remains after the document's value.
    TrailingCharacters,
    /// The array or object that opens at the offset exceeds the nesting limit.
    TooDeep,
}

/// A failure as the grammar states it: the reason and the character offset.
pub struct Failure {
    pub kind: ErrorKind,
    pub offset: int,
}

/// A failed parse: the reason and the offset, counted in characters, at which it arose.
#[derive(Clone, Copy, Debug, PartialEq, Eq)]
pub struct ParseError {
    pub kind: ErrorKind,
    pub offset: usize,
}

impl View for ParseError {
    type V = Failure;

    open spec fn view(&self) -> Failure {
        Failure { kind: self.kind, offset: self.offset as int }
    }
}

impl ErrorKind {
    /// The wording of each reason.
    pub open spec fn wording(self) -> Seq<char> {
        match self {
            ErrorKind::ExpectedValue => "expected a value"@,
            ErrorKind::InvalidNumber => "expected a digit after the minus sign"@,
            ErrorKind::ExpectedString => "expected a string"@,
            ErrorKind::UnterminatedString => "unterminated string"@,
            ErrorKind::ForbiddenCharacter => "unescaped whitespace in a string"@,
            ErrorKind::InvalidEscape => "invalid escape sequence"@,
            ErrorKind::ExpectedColon => "expected a colon"@,
            ErrorKind::ExpectedCommaOrBracket => "expected a comma or a closing bracket"@,
            ErrorKind::ExpectedCommaOrBrace => "expected a comma or a closing brace"@,
            ErrorKind::TrailingCharacters => "trailing characters"@,
            ErrorKind::TooDeep => "nesting too deep"@,
        }
    }

    /// A human-readable description of the reason.
    pub fn description(&self) -> (text: String)
        ensures
            text@ == self.wording(),
    {
        let words: &str = match self {
            ErrorKind::ExpectedValue => "expected a value",
            ErrorKind::InvalidNumber => "expected a digit after the minus sign",
            ErrorKind::ExpectedString => "expected a string",
            ErrorKind::UnterminatedString => "unterminated string",
            ErrorKind::ForbiddenCharacter => "unescaped whitespace in a string",
            ErrorKind::InvalidEscape => "invalid escape sequence",
            ErrorKind::ExpectedColon => "expected a colon",
            ErrorKind::ExpectedCommaOrBracket => "expected a comma or a closing bracket",
            ErrorKind::ExpectedCommaOrBrace => "expected a comma or a closing brace",
            ErrorKind::TrailingCharacters => "trailing characters",
            ErrorKind::TooDeep => "nesting too deep",
        };
        words.to_owned()
    }
}

} // verus!
