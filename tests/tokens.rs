use lox_front::token::{Token, TokenKind};

#[test]
fn token_from_symbol_keeps_canonical_spelling() {
    let t = Token::get_token_from_symbol("==", 3);
    assert_eq!(t.kind(), TokenKind::EqualEqual);
    assert_eq!(t.lexeme(), "==");
    assert_eq!(t.literal(), "==");
    assert_eq!(t.line(), 3);
    assert_eq!(Token::get_token_from_symbol("/", 1).kind(), TokenKind::Slash);
}

#[test]
fn token_from_identifier_finds_keywords() {
    assert_eq!(Token::get_token_from_identifier("while", 1).kind(), TokenKind::While);
    let t = Token::get_token_from_identifier("whilst", 2);
    assert_eq!(t.kind(), TokenKind::Identifier);
    assert_eq!(t.literal(), "whilst");
}

#[test]
fn token_from_number_and_string() {
    let n = Token::get_token_from_number("3.25", 4);
    assert_eq!(n.kind(), TokenKind::Number);
    assert_eq!(n.literal().parse::<f64>().unwrap(), 3.25);
    let s = Token::get_token_from_string("\"ab\"", 5);
    assert_eq!(s.kind(), TokenKind::String);
    assert_eq!(s.lexeme(), "\"ab\"");
    assert_eq!(s.literal(), "ab");
}

#[test]
fn token_info_and_clone() {
    let t = Token::get_token_from_string("\"x\"", 7);
    assert_eq!(t.get_info(), ("\"x\"".to_string(), "x".to_string(), 7));
    let c = t.clone();
    assert_eq!(c.get_info(), t.get_info());
    assert_eq!(c.kind(), t.kind());
}
