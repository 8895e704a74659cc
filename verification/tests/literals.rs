use json_parser::{JSONValue, Number};

fn as_f64(value: &JSONValue) -> f64 {
    match value {
        JSONValue::Number(n) => number_as_f64(n),
        other => panic!("not a number: {:?}", other),
    }
}

fn number_as_f64(n: &Number) -> f64 {
    let magnitude: f64 = n.magnitude_text().parse().unwrap();
    if n.is_negative {
        -magnitude
    } else {
        magnitude
    }
}

#[test]
fn works_with_whitespace_around() {
    assert_eq!(JSONValue::from_str("           null"), Ok(JSONValue::Null));
    assert_eq!(JSONValue::from_str(" true         "), Ok(JSONValue::True));
    assert_eq!(JSONValue::from_str("     false   "), Ok(JSONValue::False));
}

#[test]
fn parse_lonely_literals() {
    assert_eq!(JSONValue::from_str("null"), Ok(JSONValue::Null));
    assert_eq!(JSONValue::from_str("true"), Ok(JSONValue::True));
    assert_eq!(JSONValue::from_str("false"), Ok(JSONValue::False));
    assert_eq!(as_f64(&JSONValue::from_str("1").unwrap()), 1.0);
    assert_eq!(as_f64(&JSONValue::from_str("1.0").unwrap()), 1.0);
    assert_eq!(
        JSONValue::from_str("\"hello\""),
        Ok(JSONValue::String(String::from("hello")))
    );
}

#[test]
fn with_non_utf8() {
    assert_eq!(
        JSONValue::from_str("\"€𝄞\""),
        Ok(JSONValue::String(String::from("€𝄞")))
    )
}

#[test]
fn ts() {
    let c = "€𝄞";

    println!("{:?}", c);
}

#[test]
fn number() {
    assert_eq!(as_f64(&JSONValue::from_str("123").unwrap()), 123.0);
    assert_eq!(as_f64(&JSONValue::from_str("0").unwrap()), 0.0);
}
