use cedar_agents::tokenizer::{TokenKind, Tokenizer};

#[test]
fn number_token_spans_the_whole_literal() {
    let mut t = Tokenizer::new("  -12.5e+3, 7");
    let tok = t.get_token().expect("a number");
    assert!(matches!(tok.kind, TokenKind::Number));
    assert_eq!(tok.loc.start, 2);
    assert_eq!(tok.loc.len, 8);
}

#[test]
fn number_with_leading_zero_is_refused() {
    let mut t = Tokenizer::new("012");
    assert!(t.get_token().is_err());
}

#[test]
fn number_without_fraction_digits_is_refused() {
    let mut t = Tokenizer::new("1.e5");
    assert!(t.get_token().is_err());
}

