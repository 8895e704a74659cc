use json_parser::chars::{slice_to_string, take_run, text_to_chars, CharClass};

#[test]
fn classes_hold_their_characters() {
    for c in [' ', '\t', '\n', '\r'] {
        assert!(CharClass::Whitespace.contains(c));
        assert!(!CharClass::StringChar.contains(c));
    }
    for c in ['\u{b}', '\u{c}', '\u{a0}', 'a', '0'] {
        assert!(!CharClass::Whitespace.contains(c));
    }
    for c in '0'..='9' {
        assert!(CharClass::Digit.contains(c));
        assert!(CharClass::HexDigit.contains(c));
    }
    for c in ['/', ':', 'a', '\u{661}'] {
        assert!(!CharClass::Digit.contains(c));
    }
    for c in ['a', 'f', 'A', 'F'] {
        assert!(CharClass::HexDigit.contains(c));
    }
    for c in ['g', 'G', '@', '`', '/', ':'] {
        assert!(!CharClass::HexDigit.contains(c));
    }
    for c in ['"', '\\'] {
        assert!(!CharClass::StringChar.contains(c));
    }
    for c in ['a', '\u{0}', '\u{7f}', '\u{20ac}', '\u{1d11e}', '/'] {
        assert!(CharClass::StringChar.contains(c));
    }
}

#[test]
fn runs_end_at_the_first_stranger() {
    let input: Vec<char> = "12ab  \u{20ac}".chars().collect();
    assert_eq!(take_run(&input, 0, CharClass::Digit), 2);
    assert_eq!(take_run(&input, 1, CharClass::Digit), 2);
    assert_eq!(take_run(&input, 2, CharClass::Digit), 2);
    assert_eq!(take_run(&input, 0, CharClass::HexDigit), 4);
    assert_eq!(take_run(&input, 4, CharClass::Whitespace), 6);
    assert_eq!(take_run(&input, 0, CharClass::StringChar), 4);
    assert_eq!(take_run(&input, 6, CharClass::StringChar), 7);
    assert_eq!(take_run(&input, 7, CharClass::StringChar), 7);
}

#[test]
fn text_and_characters_convert() {
    assert_eq!(text_to_chars("a\u{20ac}\u{1d11e}"), vec!['a', '\u{20ac}', '\u{1d11e}']);
    assert_eq!(text_to_chars(""), Vec::<char>::new());
    let input: Vec<char> = "h\u{e9}llo".chars().collect();
    assert_eq!(slice_to_string(&input, 1, 4), "\u{e9}ll");
    assert_eq!(slice_to_string(&input, 2, 2), "");
    assert_eq!(slice_to_string(&input, 0, 5), "h\u{e9}llo");
}
