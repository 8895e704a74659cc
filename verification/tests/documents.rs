use json_parser::parser::{
    array_parser, escaped_characters_parser, exponent_parser, fraction_parser, json_value_parser,
    number_parser, obj_key_value_parser, object_parser, string_parser, unicode_parser,
    whitespace_parser,
};
use json_parser::{ErrorKind, Exponent, Fraction, JSONValue, Number, ParseError, DEFAULT_MAX_DEPTH};

fn chars(text: &str) -> Vec<char> {
    text.chars().collect()
}

fn integer(digits: &str) -> Number {
    Number { is_negative: false, integer: digits.to_string(), fraction: None, exponent: None }
}

fn number_value(digits: &str) -> JSONValue {
    JSONValue::Number(integer(digits))
}

fn float_of(text: &str) -> f64 {
    match JSONValue::from_str(text) {
        Ok(JSONValue::Number(n)) => {
            let magnitude: f64 = n.magnitude_text().parse().unwrap();
            if n.is_negative {
                -magnitude
            } else {
                magnitude
            }
        },
        other => panic!("{:?} is no number: {:?}", text, other),
    }
}

fn failure(text: &str) -> (ErrorKind, usize) {
    match JSONValue::from_str(text) {
        Ok(v) => panic!("{:?} parsed to {:?}", text, v),
        Err(e) => (e.kind, e.offset),
    }
}

#[test]
fn keywords_in_any_whitespace() {
    for pad in [" ", "\t", "\n", "\r", " \t\r\n \n"] {
        assert_eq!(JSONValue::from_str(&format!("{}null{}", pad, pad)), Ok(JSONValue::Null));
        assert_eq!(JSONValue::from_str(&format!("{}true", pad)), Ok(JSONValue::True));
        assert_eq!(JSONValue::from_str(&format!("false{}", pad)), Ok(JSONValue::False));
    }
}

#[test]
fn misspelled_keywords_fail() {
    assert_eq!(failure("nul"), (ErrorKind::ExpectedValue, 0));
    assert_eq!(failure("True"), (ErrorKind::ExpectedValue, 0));
    assert_eq!(failure("falsy"), (ErrorKind::ExpectedValue, 0));
    assert_eq!(failure("nulll"), (ErrorKind::TrailingCharacters, 4));
}

#[test]
fn numeric_literals_have_their_value() {
    assert_eq!(float_of("0"), 0.0);
    assert_eq!(float_of("123"), 123.0);
    assert_eq!(float_of("-17"), -17.0);
    assert_eq!(float_of("1.5"), 1.5);
    assert_eq!(float_of("2e10"), 2e10);
    assert_eq!(float_of("-3.14E-2"), -3.14e-2);
    assert_eq!(float_of("1.05"), 1.05);
    assert_eq!(float_of("0e5"), 0.0);
    assert_eq!(float_of("1e007"), 1e7);
    assert_eq!(float_of("-0"), 0.0);
    assert!(float_of("-0").is_sign_negative());
}

#[test]
fn numeric_literals_keep_their_parts() {
    assert_eq!(JSONValue::from_str("123"), Ok(number_value("123")));
    assert_eq!(
        JSONValue::from_str("-3.14E-2"),
        Ok(JSONValue::Number(Number {
            is_negative: true,
            integer: "3".to_string(),
            fraction: Some(Fraction { digits: "14".to_string() }),
            exponent: Some(Exponent { is_positive: false, digits: "2".to_string() }),
        }))
    );
    assert_eq!(
        JSONValue::from_str("2e10"),
        Ok(JSONValue::Number(Number {
            is_negative: false,
            integer: "2".to_string(),
            fraction: None,
            exponent: Some(Exponent { is_positive: true, digits: "10".to_string() }),
        }))
    );
    assert_eq!(
        JSONValue::from_str("10.050E+07"),
        Ok(JSONValue::Number(Number {
            is_negative: false,
            integer: "10".to_string(),
            fraction: Some(Fraction { digits: "050".to_string() }),
            exponent: Some(Exponent { is_positive: true, digits: "07".to_string() }),
        }))
    );
}

#[test]
fn huge_exponents_and_digit_runs_are_numbers() {
    assert_eq!(float_of("1e99999999999999999999999"), f64::INFINITY);
    assert_eq!(float_of("0.000000000000000000000000000000000000000001"), 1e-42);
    let long = "9".repeat(400);
    assert_eq!(JSONValue::from_str(&long), Ok(number_value(&long)));
    assert_eq!(float_of(&long), f64::INFINITY);
}

#[test]
fn malformed_numbers_fail() {
    assert_eq!(failure("01"), (ErrorKind::TrailingCharacters, 1));
    assert_eq!(failure("1."), (ErrorKind::TrailingCharacters, 1));
    assert_eq!(failure(".5"), (ErrorKind::ExpectedValue, 0));
    assert_eq!(failure("--1"), (ErrorKind::InvalidNumber, 1));
    assert_eq!(failure("1e"), (ErrorKind::TrailingCharacters, 1));
    assert_eq!(failure("-"), (ErrorKind::InvalidNumber, 1));
    assert_eq!(failure("+1"), (ErrorKind::ExpectedValue, 0));
    assert_eq!(failure("1.5e+"), (ErrorKind::TrailingCharacters, 3));
    assert_eq!(failure("1.e5"), (ErrorKind::TrailingCharacters, 1));
}

#[test]
fn strings_keep_their_escapes_as_written() {
    assert_eq!(
        JSONValue::from_str("\"a\\tb\""),
        Ok(JSONValue::String("a\\tb".to_string()))
    );
    assert_eq!(
        JSONValue::from_str("\"\\\"\\\\\\/\\b\\f\\n\\r\\t\""),
        Ok(JSONValue::String("\\\"\\\\\\/\\b\\f\\n\\r\\t".to_string()))
    );
    assert_eq!(
        JSONValue::from_str("\"\\u12aF!\""),
        Ok(JSONValue::String("\\u12aF!".to_string()))
    );
    assert_eq!(
        JSONValue::from_str("\"\\u12345\""),
        Ok(JSONValue::String("\\u12345".to_string()))
    );
    assert_eq!(JSONValue::from_str("\"\""), Ok(JSONValue::String(String::new())));
}

#[test]
fn malformed_strings_fail() {
    assert_eq!(failure("\"\\x\""), (ErrorKind::InvalidEscape, 1));
    assert_eq!(failure("\"\\u12\""), (ErrorKind::InvalidEscape, 1));
    assert_eq!(failure("\"ab\\u12G4\""), (ErrorKind::InvalidEscape, 3));
    assert_eq!(failure("\"a b\""), (ErrorKind::ForbiddenCharacter, 2));
    assert_eq!(failure("\"a\tb\""), (ErrorKind::ForbiddenCharacter, 2));
    assert_eq!(failure("\"a\nb\""), (ErrorKind::ForbiddenCharacter, 2));
    assert_eq!(failure("\"a\rb\""), (ErrorKind::ForbiddenCharacter, 2));
    assert_eq!(failure("\"abc"), (ErrorKind::UnterminatedString, 4));
    assert_eq!(failure("\"abc\\"), (ErrorKind::InvalidEscape, 4));
    assert_eq!(failure("\"abc\\\""), (ErrorKind::UnterminatedString, 6));
}

#[test]
fn non_ascii_text_is_kept_and_counted_by_character() {
    assert_eq!(
        JSONValue::from_str(" \"caf\u{e9}\u{1d11e}\" "),
        Ok(JSONValue::String("caf\u{e9}\u{1d11e}".to_string()))
    );
    assert_eq!(failure("\"\u{20ac}\" x"), (ErrorKind::TrailingCharacters, 4));
    assert_eq!(failure("\u{20ac}"), (ErrorKind::ExpectedValue, 0));
}

#[test]
fn empty_array_and_object() {
    assert_eq!(JSONValue::from_str("[]"), Ok(JSONValue::Array(vec![])));
    assert_eq!(JSONValue::from_str("{}"), Ok(JSONValue::Object(vec![])));
    assert_eq!(JSONValue::from_str("[ ]"), Ok(JSONValue::Array(vec![])));
    assert_eq!(JSONValue::from_str(" { \n } "), Ok(JSONValue::Object(vec![])));
}

#[test]
fn trailing_commas_and_missing_delimiters_fail() {
    assert_eq!(failure("[1,]"), (ErrorKind::ExpectedValue, 3));
    assert_eq!(failure("[,1]"), (ErrorKind::ExpectedValue, 1));
    assert_eq!(failure("[1 2]"), (ErrorKind::ExpectedCommaOrBracket, 3));
    assert_eq!(failure("[1"), (ErrorKind::ExpectedCommaOrBracket, 2));
    assert_eq!(failure("["), (ErrorKind::ExpectedValue, 1));
    assert_eq!(failure("{\"a\" 1}"), (ErrorKind::ExpectedColon, 5));
    assert_eq!(failure("{\"a\":1 \"b\":2}"), (ErrorKind::ExpectedCommaOrBrace, 7));
    assert_eq!(failure("{\"a\":1,}"), (ErrorKind::ExpectedString, 7));
    assert_eq!(failure("{1:2}"), (ErrorKind::ExpectedString, 1));
    assert_eq!(failure("{\"a\":}"), (ErrorKind::ExpectedValue, 5));
    assert_eq!(failure("{\"a\":1"), (ErrorKind::ExpectedCommaOrBrace, 6));
    assert_eq!(failure("]"), (ErrorKind::ExpectedValue, 0));
}

#[test]
fn nested_composite() {
    let parsed = JSONValue::from_str("{\"a\": [1, 2, {\"b\": true}], \"c\": null}");
    let expected = JSONValue::Object(vec![
        (
            "a".to_string(),
            JSONValue::Array(vec![
                number_value("1"),
                number_value("2"),
                JSONValue::Object(vec![("b".to_string(), JSONValue::True)]),
            ]),
        ),
        ("c".to_string(), JSONValue::Null),
    ]);
    assert_eq!(parsed, Ok(expected));
}

#[test]
fn duplicate_keys_are_kept_in_order() {
    assert_eq!(
        JSONValue::from_str("{\"k\":1,\"k\":2}"),
        Ok(JSONValue::Object(vec![
            ("k".to_string(), number_value("1")),
            ("k".to_string(), number_value("2")),
        ]))
    );
}

#[test]
fn all_input_must_be_taken() {
    assert_eq!(failure("null garbage"), (ErrorKind::TrailingCharacters, 5));
    assert_eq!(failure("[] []"), (ErrorKind::TrailingCharacters, 3));
    assert_eq!(failure("1 2"), (ErrorKind::TrailingCharacters, 2));
}

#[test]
fn empty_input_fails() {
    assert_eq!(failure(""), (ErrorKind::ExpectedValue, 0));
    assert_eq!(failure("  \n"), (ErrorKind::ExpectedValue, 3));
}

#[test]
fn nesting_is_limited() {
    assert_eq!(
        JSONValue::parse_with_max_depth("[[1]]", 2),
        Ok(JSONValue::Array(vec![JSONValue::Array(vec![number_value("1")])]))
    );
    assert_eq!(
        JSONValue::parse_with_max_depth("[[1]]", 1),
        Err(ParseError { kind: ErrorKind::TooDeep, offset: 1 })
    );
    assert_eq!(
        JSONValue::parse_with_max_depth("{\"a\":{}}", 1),
        Err(ParseError { kind: ErrorKind::TooDeep, offset: 5 })
    );
    assert_eq!(
        JSONValue::parse_with_max_depth("[]", 0),
        Err(ParseError { kind: ErrorKind::TooDeep, offset: 0 })
    );
    assert_eq!(JSONValue::parse_with_max_depth(" 7 ", 0), Ok(number_value("7")));
}

#[test]
fn default_nesting_limit() {
    assert_eq!(DEFAULT_MAX_DEPTH, 128);
    let deepest = format!("{}{}", "[".repeat(128), "]".repeat(128));
    assert!(JSONValue::from_str(&deepest).is_ok());
    let too_deep = format!("{}{}", "[".repeat(129), "]".repeat(129));
    assert_eq!(failure(&too_deep), (ErrorKind::TooDeep, 128));
    let pathological = "[".repeat(100_000);
    assert_eq!(failure(&pathological), (ErrorKind::TooDeep, 128));
}

#[test]
fn canonical_text_parses_back() {
    let tree = JSONValue::Object(vec![
        (
            "list".to_string(),
            JSONValue::Array(vec![
                JSONValue::Null,
                JSONValue::True,
                JSONValue::False,
                JSONValue::Number(Number {
                    is_negative: true,
                    integer: "12".to_string(),
                    fraction: Some(Fraction { digits: "050".to_string() }),
                    exponent: Some(Exponent { is_positive: false, digits: "3".to_string() }),
                }),
                JSONValue::String("a\\n\\u00e9\u{20ac}".to_string()),
                JSONValue::Array(vec![]),
                JSONValue::Object(vec![]),
            ]),
        ),
        ("".to_string(), number_value("0")),
    ]);
    let text = tree.to_text();
    assert_eq!(
        text,
        "{\"list\":[null,true,false,-12.050e-3,\"a\\n\\u00e9\u{20ac}\",[],{}],\"\":0}"
    );
    assert_eq!(JSONValue::from_str(&text), Ok(tree));
}

#[test]
fn canonical_text_drops_whitespace_and_settles_the_exponent() {
    let parsed = JSONValue::from_str(" [ 1E5 , { \"a\" :\t2.5e+1 } ] \n").unwrap();
    assert_eq!(parsed.to_text(), "[1e+5,{\"a\":2.5e+1}]");
    assert_eq!(JSONValue::from_str(&parsed.to_text()), Ok(parsed));
}

#[test]
fn number_texts() {
    let n = Number {
        is_negative: true,
        integer: "3".to_string(),
        fraction: Some(Fraction { digits: "14".to_string() }),
        exponent: Some(Exponent { is_positive: true, digits: "2".to_string() }),
    };
    assert_eq!(n.magnitude_text(), "3.14e+2");
    assert_eq!(n.to_text(), "-3.14e+2");
    assert_eq!(Fraction { digits: "007".to_string() }.to_text(), ".007");
    assert_eq!(Exponent { is_positive: false, digits: "10".to_string() }.to_text(), "e-10");
    assert_eq!(integer("42").to_text(), "42");
}

#[test]
fn descriptions() {
    assert_eq!(ErrorKind::ExpectedValue.description(), "expected a value");
    assert_eq!(ErrorKind::InvalidNumber.description(), "expected a digit after the minus sign");
    assert_eq!(ErrorKind::ExpectedString.description(), "expected a string");
    assert_eq!(ErrorKind::UnterminatedString.description(), "unterminated string");
    assert_eq!(ErrorKind::ForbiddenCharacter.description(), "unescaped whitespace in a string");
    assert_eq!(ErrorKind::InvalidEscape.description(), "invalid escape sequence");
    assert_eq!(ErrorKind::ExpectedColon.description(), "expected a colon");
    assert_eq!(
        ErrorKind::ExpectedCommaOrBracket.description(),
        "expected a comma or a closing bracket"
    );
    assert_eq!(
        ErrorKind::ExpectedCommaOrBrace.description(),
        "expected a comma or a closing brace"
    );
    assert_eq!(ErrorKind::TrailingCharacters.description(), "trailing characters");
    assert_eq!(ErrorKind::TooDeep.description(), "nesting too deep");
}

#[test]
fn whitespace_is_skipped_from_a_position() {
    let input = chars("ab \t\r\n cd");
    assert_eq!(whitespace_parser(&input, 0), 0);
    assert_eq!(whitespace_parser(&input, 2), 7);
    assert_eq!(whitespace_parser(&input, 4), 7);
    assert_eq!(whitespace_parser(&input, 9), 9);
    assert_eq!(whitespace_parser(&chars("   "), 1), 3);
}

#[test]
fn fractions_and_exponents_are_optional_parts() {
    let input = chars("1.25e-3,.x,e+,E12");
    assert_eq!(
        fraction_parser(&input, 1),
        Some((Fraction { digits: "25".to_string() }, 4))
    );
    assert_eq!(fraction_parser(&input, 0), None);
    assert_eq!(fraction_parser(&input, 8), None);
    assert_eq!(
        exponent_parser(&input, 4),
        Some((Exponent { is_positive: false, digits: "3".to_string() }, 7))
    );
    assert_eq!(exponent_parser(&input, 11), None);
    assert_eq!(
        exponent_parser(&input, 14),
        Some((Exponent { is_positive: true, digits: "12".to_string() }, 17))
    );
    assert_eq!(exponent_parser(&input, 17), None);
}

#[test]
fn numbers_are_read_from_a_position() {
    let input = chars("x-10.5,007");
    assert_eq!(
        number_parser(&input, 1),
        Ok((
            Number {
                is_negative: true,
                integer: "10".to_string(),
                fraction: Some(Fraction { digits: "5".to_string() }),
                exponent: None,
            },
            6
        ))
    );
    assert_eq!(number_parser(&input, 7), Ok((integer("0"), 8)));
    assert_eq!(
        number_parser(&input, 0),
        Err(ParseError { kind: ErrorKind::InvalidNumber, offset: 0 })
    );
    assert_eq!(
        number_parser(&input, 10),
        Err(ParseError { kind: ErrorKind::InvalidNumber, offset: 10 })
    );
}

#[test]
fn escapes_are_read_after_the_backslash() {
    let input = chars("n\"u00Afu00G0x");
    assert_eq!(escaped_characters_parser(&input, 0), Some(1));
    assert_eq!(escaped_characters_parser(&input, 1), Some(2));
    assert_eq!(escaped_characters_parser(&input, 2), None);
    assert_eq!(escaped_characters_parser(&input, 13), None);
    assert_eq!(unicode_parser(&input, 2), Some(7));
    assert_eq!(unicode_parser(&input, 7), None);
    assert_eq!(unicode_parser(&input, 0), None);
    assert_eq!(unicode_parser(&chars("u123"), 0), None);
}

#[test]
fn strings_are_read_from_a_position() {
    let input = chars("[\"k\\\"\", x");
    assert_eq!(string_parser(&input, 1), Ok(("k\\\"".to_string(), 6)));
    assert_eq!(
        string_parser(&input, 0),
        Err(ParseError { kind: ErrorKind::ExpectedString, offset: 0 })
    );
    assert_eq!(
        string_parser(&input, 5),
        Err(ParseError { kind: ErrorKind::ForbiddenCharacter, offset: 7 })
    );
}

#[test]
fn values_take_the_whitespace_around_them() {
    let input = chars("  true  ,");
    assert_eq!(json_value_parser(&input, 0, 0), Ok((JSONValue::True, 8)));
    assert_eq!(
        json_value_parser(&input, 8, 0),
        Err(ParseError { kind: ErrorKind::ExpectedValue, offset: 8 })
    );
}

#[test]
fn containers_are_read_from_their_opening() {
    let input = chars("[1, [2]] {\"a\" : [ ]}");
    assert_eq!(
        array_parser(&input, 0, 2),
        Ok((
            JSONValue::Array(vec![number_value("1"), JSONValue::Array(vec![number_value("2")])]),
            8
        ))
    );
    assert_eq!(
        array_parser(&input, 0, 1),
        Err(ParseError { kind: ErrorKind::TooDeep, offset: 4 })
    );
    assert_eq!(
        array_parser(&input, 1, 2),
        Err(ParseError { kind: ErrorKind::ExpectedValue, offset: 1 })
    );
    assert_eq!(
        object_parser(&input, 9, 2),
        Ok((JSONValue::Object(vec![("a".to_string(), JSONValue::Array(vec![]))]), 20))
    );
    assert_eq!(
        object_parser(&input, 0, 2),
        Err(ParseError { kind: ErrorKind::ExpectedValue, offset: 0 })
    );
    assert_eq!(
        obj_key_value_parser(&input, 10, 1),
        Ok((("a".to_string(), JSONValue::Array(vec![])), 19))
    );
    assert_eq!(
        obj_key_value_parser(&input, 10, 0),
        Err(ParseError { kind: ErrorKind::TooDeep, offset: 16 })
    );
}

#[test]
fn whitespace_may_stand_between_all_tokens() {
    let parsed = JSONValue::from_str("\n{ \"a\"\t:\r[ -1.0E+2 ,\n\"x\" , { } , [\t] ] , \"b\" : null }\n");
    let expected = JSONValue::Object(vec![
        (
            "a".to_string(),
            JSONValue::Array(vec![
                JSONValue::Number(Number {
                    is_negative: true,
                    integer: "1".to_string(),
                    fraction: Some(Fraction { digits: "0".to_string() }),
                    exponent: Some(Exponent { is_positive: true, digits: "2".to_string() }),
                }),
                JSONValue::String("x".to_string()),
                JSONValue::Object(vec![]),
                JSONValue::Array(vec![]),
            ]),
        ),
        ("b".to_string(), JSONValue::Null),
    ]);
    assert_eq!(parsed, Ok(expected));
}

#[test]
fn whitespace_may_not_stand_inside_tokens() {
    assert_eq!(failure("nu ll"), (ErrorKind::ExpectedValue, 0));
    assert_eq!(failure("- 1"), (ErrorKind::InvalidNumber, 1));
    assert_eq!(failure("1 .5"), (ErrorKind::TrailingCharacters, 2));
    assert_eq!(failure("1e 5"), (ErrorKind::TrailingCharacters, 1));
    assert_eq!(failure("\"\\u 0041\""), (ErrorKind::InvalidEscape, 1));
}
