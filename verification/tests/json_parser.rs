use cedar_agents::json::LocatedValue;
use cedar_agents::parser::{JsonParser, ParseError};
use cedar_agents::tokenizer::TokenizerError;

fn at_eof(parser: &mut JsonParser) -> bool {
    matches!(
        parser.get_value(),
        Err(ParseError::TokenizerError(TokenizerError::UnexpectedEof(..)))
    )
}

#[test]
fn parse_true() {
    let mut parser = JsonParser::new("true");
    let value = parser.get_value().ok().expect("Failed to parse `true`");
    assert_eq!(value.get_bool(), Some(true));
    assert!(at_eof(&mut parser));
}

#[test]
fn parse_false() {
    let mut parser = JsonParser::new("false");
    let value = parser.get_value().ok().expect("Failed to parse `false`");
    assert_eq!(value.get_bool(), Some(false));
    assert!(at_eof(&mut parser));
}

#[test]
fn parse_null() {
    let mut parser = JsonParser::new("null");
    let value = parser.get_value().ok().expect("Failed to parse `null`");
    assert!(value.is_null());
    assert!(at_eof(&mut parser));
}

#[test]
fn parse_number_int() {
    let mut parser = JsonParser::new("102");
    let value = parser.get_value().ok().expect("Failed to parse `102`");
    assert_eq!(value.get_numeric_str(), Some("102"));
    assert!(at_eof(&mut parser));
}

#[test]
fn parse_number_neg_int() {
    let mut parser = JsonParser::new("-420");
    let value = parser.get_value().ok().expect("Failed to parse `-420`");
    assert_eq!(value.get_numeric_str(), Some("-420"));
    assert!(at_eof(&mut parser));
}

#[test]
fn parse_number_int_with_exponent() {
    let mut parser = JsonParser::new("90e+10");
    let value = parser.get_value().ok().expect("Failed to parse `90e+10`");
    assert_eq!(value.get_numeric_str(), Some("90e+10"));
    assert!(at_eof(&mut parser));
}

#[test]
fn parse_number_float() {
    let mut parser = JsonParser::new("0.000912");
    let value = parser.get_value().ok().expect("Failed to parse `0.000912`");
    assert_eq!(value.get_numeric_str(), Some("0.000912"));
    assert!(at_eof(&mut parser));
}

#[test]
fn parse_number_neg_float() {
    let mut parser = JsonParser::new("-1092.0912");
    let value = parser.get_value().ok().expect("Failed to parse `-1092.0912`");
    assert_eq!(value.get_numeric_str(), Some("-1092.0912"));
    assert!(at_eof(&mut parser));
}

#[test]
fn parse_number_float_with_exponent() {
    let mut parser = JsonParser::new("648.917529e-982");
    let value = parser
        .get_value()
        .ok()
        .expect("Failed to parse `648.917529e-982`");
    assert_eq!(value.get_numeric_str(), Some("648.917529e-982"));
    assert!(at_eof(&mut parser));
}

#[test]
fn parse_empty_string_literal() {
    let mut parser = JsonParser::new("\"\"");
    let value = parser.get_value().ok().expect("Failed to parse `\"\"`");
    assert_eq!(value.get_str(), Some(""));
    assert!(at_eof(&mut parser));
}

#[test]
fn parse_whitespace_string_literal() {
    let mut parser = JsonParser::new("    \"   \\t\\n\\r\\t  \"        ");
    let value = parser
        .get_value()
        .ok()
        .expect("Failed to parse `    \"   \\t\\n\\r\\t  \"        `");
    assert_eq!(value.get_str(), Some("   \\t\\n\\r\\t  "));
    assert!(at_eof(&mut parser));
}

#[test]
fn parse_unicode_escape_seq_string_literal() {
    let mut parser = JsonParser::new("\"\\u0912\"");
    let value = parser.get_value().ok().expect("Failed to parse `\"\\u0912\"`");
    assert_eq!(value.get_str(), Some("\\u0912"));
    assert!(at_eof(&mut parser));
}

#[test]
fn parse_empty_array() {
    let mut parser = JsonParser::new("[]");
    let value = parser.get_value().ok().expect("Failed to parse `[]`");
    let arr = value.get_array().expect("Expected array");
    assert!(arr.is_empty());
    assert!(at_eof(&mut parser));
}

#[test]
fn parse_array_of_bools() {
    let mut parser = JsonParser::new("[true, false, true]");
    let value = parser
        .get_value()
        .ok()
        .expect("Failed to parse `[true, false, true]`");
    let arr = value.get_array().expect("Expected array");
    assert!(arr.len() == 3);
    assert_eq!(arr.get(0).and_then(LocatedValue::get_bool), Some(true));
    assert_eq!(arr.get(1).and_then(LocatedValue::get_bool), Some(false));
    assert_eq!(arr.get(2).and_then(LocatedValue::get_bool), Some(true));
    assert!(at_eof(&mut parser));
}

#[test]
fn parse_array_of_strs() {
    let mut parser = JsonParser::new("[\"\", \"bleh\"]");
    let value = parser
        .get_value()
        .ok()
        .expect("Failed to parse `[\"\", \"bleh\"]`");
    let arr = value.get_array().expect("Expected array");
    assert!(arr.len() == 2);
    assert_eq!(arr.get(0).and_then(LocatedValue::get_str), Some(""));
    assert_eq!(arr.get(1).and_then(LocatedValue::get_str), Some("bleh"));
    assert!(at_eof(&mut parser));
}

#[test]
fn parse_nested_mixed_array() {
    let mut parser = JsonParser::new("[[], null, [[]], {}, 0.1]");
    let value = parser
        .get_value()
        .ok()
        .expect("Failed to parse `[[], null, [[]], {}, 0.1]`");
    let arr = value.get_array().expect("Expected array");
    assert!(arr.len() == 5);
    assert_eq!(
        arr.get(0).and_then(LocatedValue::get_array).map(|a| a.is_empty()),
        Some(true)
    );
    assert_eq!(arr.get(1).map(LocatedValue::is_null), Some(true));
    assert!(arr.get(2).and_then(LocatedValue::get_array).is_some());
    assert_eq!(
        arr.get(3).and_then(LocatedValue::get_object).map(|o| o.is_empty()),
        Some(true)
    );
    assert_eq!(arr.get(4).and_then(LocatedValue::get_numeric_str), Some("0.1"));
    assert!(at_eof(&mut parser));
}

#[test]
fn parse_empty_object() {
    let mut parser = JsonParser::new("{}");
    let value = parser.get_value().ok().expect("Failed to parse `{}`");
    let obj = value.get_object().expect("Expected object");
    assert!(obj.is_empty());
    assert!(at_eof(&mut parser));
}

#[test]
fn parse_nested_object() {
    let mut parser = JsonParser::new("{\"hi\": {}, \"bye\": false, \"\": {}}");
    let value = parser
        .get_value()
        .ok()
        .expect("Failed to parse `{\"hi\": {}, \"bye\": false, \"\": {}}`");
    let obj = value.get_object().expect("Expected object");
    assert!(obj.iter().count() == 3);
    assert_eq!(
        value.get("hi").and_then(LocatedValue::get_object).map(|o| o.is_empty()),
        Some(true)
    );
    assert_eq!(
        value.get("").and_then(LocatedValue::get_object).map(|o| o.is_empty()),
        Some(true)
    );
    assert_eq!(value.get("bye").and_then(LocatedValue::get_bool), Some(false));
    assert!(at_eof(&mut parser));
}

#[test]
fn parse_fail_trailing_comma_array() {
    let mut parser = JsonParser::new("{\"hey\", true,}");
    assert!(matches!(parser.get_value(), Err(ParseError::UnexpectedToken(..))));
}

#[test]
fn parse_fail_trailing_comma_object() {
    let mut parser = JsonParser::new("[false, true,]");
    assert!(matches!(parser.get_value(), Err(ParseError::UnexpectedToken(..))));
}

#[test]
fn parse_fail_colon_in_array() {
    let mut parser = JsonParser::new("[false : true]");
    assert!(matches!(parser.get_value(), Err(ParseError::UnexpectedToken(..))));
}

#[test]
fn parse_fail_object_forgot_colon() {
    let mut parser = JsonParser::new("{\"true\" true}");
    assert!(matches!(parser.get_value(), Err(ParseError::UnexpectedToken(..))));
}

#[test]
fn parse_fail_object_non_string_key() {
    let mut parser = JsonParser::new("{true: true}");
    assert!(matches!(parser.get_value(), Err(ParseError::UnexpectedToken(..))));
}

#[test]
fn parse_fail_object_duplicate_keys() {
    let mut parser = JsonParser::new("{\"hi\": true, \"hi\": false}");
    assert!(matches!(parser.get_value(), Err(ParseError::DuplicateKey(..))));
}

#[test]
fn parse_fail_eof_in_object() {
    let mut parser = JsonParser::new("{\"hi\": true,");
    assert!(matches!(parser.get_value(), Err(ParseError::TokenizerError(..))));
}
