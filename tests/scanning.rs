use lox_front::scanner::{ScanError, Scanner};
use lox_front::token::{Token, TokenKind};

fn scan(source: &str) -> Result<Vec<Token>, ScanError> {
    Scanner::from(source.to_string()).scan_tokens()
}

fn scan_error(source: &str) -> ScanError {
    scan(source).err().unwrap()
}

fn summary(tokens: &[Token]) -> Vec<(TokenKind, String, String, usize)> {
    tokens
        .iter()
        .map(|t| (t.kind(), t.lexeme().to_string(), t.literal().to_string(), t.line()))
        .collect()
}

fn kinds(source: &str) -> Vec<TokenKind> {
    scan(source).unwrap().iter().map(|t| t.kind()).collect()
}

#[test]
fn scan_one_plus_two() {
    let tokens = scan("1 + 2").unwrap();
    assert_eq!(
        summary(&tokens),
        vec![
            (TokenKind::Number, "1".to_string(), "1".to_string(), 1),
            (TokenKind::Plus, "+".to_string(), "+".to_string(), 1),
            (TokenKind::Number, "2".to_string(), "2".to_string(), 1),
        ]
    );
    assert_eq!(tokens[0].literal().parse::<f64>().unwrap(), 1.0);
    assert_eq!(tokens[2].literal().parse::<f64>().unwrap(), 2.0);
}

#[test]
fn line_comment_is_elided_and_line_advances() {
    let tokens = scan("// comment\n1").unwrap();
    assert_eq!(
        summary(&tokens),
        vec![(TokenKind::Number, "1".to_string(), "1".to_string(), 2)]
    );
}

#[test]
fn nested_block_comment_closes_before_tokens_resume() {
    let tokens = scan("/* a /* b */ c */ 1").unwrap();
    assert_eq!(
        summary(&tokens),
        vec![(TokenKind::Number, "1".to_string(), "1".to_string(), 1)]
    );
}

#[test]
fn block_comment_counts_lines() {
    let tokens = scan("/*\n/*\n*/\n*/ x").unwrap();
    assert_eq!(tokens.len(), 1);
    assert_eq!(tokens[0].line(), 4);
}

#[test]
fn newlines_advance_lines() {
    let tokens = scan("1\n\n2").unwrap();
    assert_eq!(tokens[0].line(), 1);
    assert_eq!(tokens[1].line(), 3);
}

#[test]
fn empty_source_has_no_tokens() {
    assert!(scan("").unwrap().is_empty());
    assert!(scan(" \t\r\n").unwrap().is_empty());
}

#[test]
fn single_character_symbols() {
    assert_eq!(
        kinds("(){}[],.-+;*/"),
        vec![
            TokenKind::LeftParen,
            TokenKind::RightParen,
            TokenKind::LeftBrace,
            TokenKind::RightBrace,
            TokenKind::LeftBracket,
            TokenKind::RightBracket,
            TokenKind::Comma,
            TokenKind::Dot,
            TokenKind::Minus,
            TokenKind::Plus,
            TokenKind::Semicolon,
            TokenKind::Star,
            TokenKind::Slash,
        ]
    );
}

#[test]
fn two_character_operators_take_one_lookahead() {
    assert_eq!(
        kinds("!= == <= >= ! = < >"),
        vec![
            TokenKind::BangEqual,
            TokenKind::EqualEqual,
            TokenKind::LessEqual,
            TokenKind::GreaterEqual,
            TokenKind::Bang,
            TokenKind::Equal,
            TokenKind::Less,
            TokenKind::Greater,
        ]
    );
    assert_eq!(kinds("!"), vec![TokenKind::Bang]);
    let tokens = scan("<=").unwrap();
    assert_eq!(tokens[0].lexeme(), "<=");
}

#[test]
fn keywords_and_identifiers() {
    assert_eq!(
        kinds("and class else false for fun if nil or print return super this true var while"),
        vec![
            TokenKind::And,
            TokenKind::Class,
            TokenKind::Else,
            TokenKind::False,
            TokenKind::For,
            TokenKind::Fun,
            TokenKind::If,
            TokenKind::Nil,
            TokenKind::Or,
            TokenKind::Print,
            TokenKind::Return,
            TokenKind::Super,
            TokenKind::This,
            TokenKind::True,
            TokenKind::Var,
            TokenKind::While,
        ]
    );
    let tokens = scan("android _x1 x_y").unwrap();
    assert_eq!(
        summary(&tokens),
        vec![
            (TokenKind::Identifier, "android".to_string(), "android".to_string(), 1),
            (TokenKind::Identifier, "_x1".to_string(), "_x1".to_string(), 1),
            (TokenKind::Identifier, "x_y".to_string(), "x_y".to_string(), 1),
        ]
    );
}

#[test]
fn unicode_letters_form_identifiers() {
    let tokens = scan("été").unwrap();
    assert_eq!(tokens.len(), 1);
    assert_eq!(tokens[0].kind(), TokenKind::Identifier);
    assert_eq!(tokens[0].lexeme(), "été");
}

#[test]
fn string_literal_payload_is_between_quotes() {
    let tokens = scan("\"hi there\"").unwrap();
    assert_eq!(
        summary(&tokens),
        vec![(TokenKind::String, "\"hi there\"".to_string(), "hi there".to_string(), 1)]
    );
}

#[test]
fn decimal_numbers() {
    let tokens = scan("12.50").unwrap();
    assert_eq!(tokens.len(), 1);
    assert_eq!(tokens[0].lexeme(), "12.50");
    assert_eq!(tokens[0].literal().parse::<f64>().unwrap(), 12.5);
}

#[test]
fn second_point_ends_the_number() {
    let tokens = scan("1.2.3").unwrap();
    assert_eq!(
        summary(&tokens),
        vec![
            (TokenKind::Number, "1.2".to_string(), "1.2".to_string(), 1),
            (TokenKind::Dot, ".".to_string(), ".".to_string(), 1),
            (TokenKind::Number, "3".to_string(), "3".to_string(), 1),
        ]
    );
    assert_eq!(kinds("1."), vec![TokenKind::Number, TokenKind::Dot]);
}

#[test]
fn number_fused_with_letters_is_malformed() {
    assert_eq!(scan_error("12abc"), ScanError::MalformedNumber { line: 1 });
    assert_eq!(scan_error("\n1.5e"), ScanError::MalformedNumber { line: 2 });
}

#[test]
fn unterminated_string() {
    assert_eq!(scan_error("\"abc"), ScanError::UnterminatedString { line: 1 });
}

#[test]
fn multiline_string_is_forbidden() {
    assert_eq!(scan_error("1\n\"a\nb\""), ScanError::MultilineString { line: 2 });
}

#[test]
fn unexpected_character() {
    assert_eq!(scan_error("1 +\n@"), ScanError::UnexpectedCharacter { character: '@', line: 2 }
    );
}

#[test]
fn unterminated_block_comment_reports_opening_line() {
    assert_eq!(scan_error("1\n/* open\n/* inner */\nstill open"), ScanError::UnterminatedComment { line: 2 }
    );
    assert_eq!(scan_error("/*/"), ScanError::UnterminatedComment { line: 1 });
}

#[test]
fn lexemes_and_elided_text_cover_the_source() {
    let source = "a /* x\n */ + // c\n\tb_1 \"s t\"";
    let tokens = scan(source).unwrap();
    let joined: String = tokens.iter().map(|t| t.lexeme()).collect();
    assert_eq!(joined, "a+b_1\"s t\"");
    let mut rest = source;
    for t in &tokens {
        let at = rest.find(t.lexeme()).unwrap();
        let gap = &rest[..at];
        assert!(gap.chars().all(|c| " \t\r\n".contains(c)) || gap.contains("/*") || gap.contains("//"));
        rest = &rest[at + t.lexeme().len()..];
    }
    assert_eq!(rest, "");
}

#[test]
fn scanning_is_deterministic() {
    let source = "(1 + 2) * x // tail";
    assert_eq!(summary(&scan(source).unwrap()), summary(&scan(source).unwrap()));
}

#[test]
fn classes_given_by_the_caller_decide_words() {
    let source = vec!['#', '1', ' ', '2'];
    let alphabetic = vec![true, false, false, false];
    let alphanumeric = vec![true, true, false, true];
    let tokens = Scanner::from_classified(source, alphabetic, alphanumeric)
        .scan_tokens()
        .unwrap();
    assert_eq!(
        summary(&tokens),
        vec![
            (TokenKind::Identifier, "#1".to_string(), "#1".to_string(), 1),
            (TokenKind::Number, "2".to_string(), "2".to_string(), 1),
        ]
    );
}
