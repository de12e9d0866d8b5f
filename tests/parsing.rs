use lox_front::ast::Ast;
use lox_front::expr::{Acceptor, Expr, Literal, Visitor};
use lox_front::parser::{ParseError, ParseErrorKind, Parser};
use lox_front::scanner::Scanner;
use lox_front::token::TokenKind;

fn parse(source: &str) -> Result<Expr, ParseError> {
    let tokens = Scanner::from(source.to_string()).scan_tokens().unwrap();
    Parser::new(tokens, source.to_string()).parse()
}

fn printed(source: &str) -> String {
    Ast::new(parse(source).ok().unwrap()).print()
}

fn error(source: &str) -> (ParseErrorKind, String, usize) {
    let e = parse(source).err().unwrap();
    (e.kind, e.message, e.line)
}

#[test]
fn multiplication_binds_tighter_than_addition() {
    assert_eq!(printed("1 + 2 * 3"), "(+ 1 (* 2 3))");
}

#[test]
fn subtraction_is_left_associative() {
    assert_eq!(printed("1 - 2 - 3"), "(- (- 1 2) 3)");
}

#[test]
fn grouping_is_kept_as_a_node() {
    let e = parse("(1 + 2) * 3").ok().unwrap();
    match &e {
        Expr::Binary(b) => {
            assert_eq!(b.operator.kind(), TokenKind::Star);
            match &b.left {
                Expr::Grouping(g) => match &g.expression {
                    Expr::Binary(inner) => assert_eq!(inner.operator.kind(), TokenKind::Plus),
                    _ => panic!("the group should hold the sum"),
                },
                _ => panic!("the left operand should be a grouping"),
            }
        }
        _ => panic!("the root should be the product"),
    }
    assert_eq!(Ast::new(e).print(), "(* ((+ 1 2)) 3)");
}

#[test]
fn unmatched_paren_reports_opening_line() {
    assert_eq!(
        error("(1 + 2"),
        (ParseErrorKind::MissingClosingParen, "Expected ')' after expression".to_string(), 1)
    );
    assert_eq!(error("1 *\n(2\n+ 3").0, ParseErrorKind::MissingClosingParen);
    assert_eq!(error("1 *\n(2\n+ 3").2, 2);
}

#[test]
fn printing_twice_gives_the_same_string() {
    let ast = Ast::new(parse("!(1 >= 2) != false").ok().unwrap());
    assert_eq!(ast.print(), ast.print());
    assert_eq!(ast.print(), "(!= !((>= 1 2)) false)");
}

#[test]
fn negative_literal_prints_without_parentheses() {
    assert_eq!(printed("-1"), "-1");
    match parse("-1").ok().unwrap() {
        Expr::Unary(u) => {
            assert_eq!(u.operator.kind(), TokenKind::Minus);
            match &u.right {
                Expr::Literal(l) => match l.as_ref() {
                    Literal::Number(d) => assert_eq!(d, "1"),
                    _ => panic!("the operand should be a number"),
                },
                _ => panic!("the operand should be a literal"),
            }
        }
        _ => panic!("the root should be unary"),
    }
}

#[test]
fn unary_is_right_recursive() {
    assert_eq!(printed("--1"), "--1");
    assert_eq!(printed("!!true"), "!!true");
    assert_eq!(printed("-2 * -3"), "(* -2 -3)");
}

#[test]
fn precedence_tiers() {
    assert_eq!(printed("1 < 2 == 3 > 4"), "(== (< 1 2) (> 3 4))");
    assert_eq!(printed("1 + 2 <= 3 / 4"), "(<= (+ 1 2) (/ 3 4))");
    assert_eq!(printed("1 == 2 != 3"), "(!= (== 1 2) 3)");
    assert_eq!(printed("8 / 4 / 2"), "(/ (/ 8 4) 2)");
}

#[test]
fn literals_print_in_natural_form() {
    assert_eq!(printed("true"), "true");
    assert_eq!(printed("false"), "false");
    assert_eq!(printed("nil"), "nil");
    assert_eq!(printed("\"a b\""), "a b");
}

#[test]
fn numbers_print_in_shortest_form() {
    assert_eq!(printed("1.5"), "1.5");
    assert_eq!(printed("1.50"), "1.5");
    assert_eq!(printed("1.0"), "1");
    assert_eq!(printed("007"), "7");
    assert_eq!(printed("0.0"), "0");
    assert_eq!(printed("00.25"), "0.25");
    assert_eq!(printed("10"), "10");
}

#[test]
fn unexpected_token_names_lexeme_and_line() {
    assert_eq!(
        error("\n+ 1"),
        (ParseErrorKind::UnexpectedToken, "Unexpected token: \"+\"".to_string(), 2)
    );
    assert_eq!(error("foo").1, "Unexpected token: \"foo\"");
}

#[test]
fn running_out_of_tokens() {
    assert_eq!(
        error("1 +\n"),
        (ParseErrorKind::UnexpectedEnd, "Unexpected end of input".to_string(), 1)
    );
    assert_eq!(error("").0, ParseErrorKind::UnexpectedEnd);
    assert_eq!(error("").2, 1);
}

#[test]
fn parse_stops_after_one_expression() {
    let tokens = Scanner::from("1 2".to_string()).scan_tokens().unwrap();
    let mut parser = Parser::new(tokens, "1 2".to_string());
    let first = parser.parse().ok().unwrap();
    assert_eq!(Ast::new(first).print(), "1");
    let second = parser.parse().ok().unwrap();
    assert_eq!(Ast::new(second).print(), "2");
}

#[test]
fn fixed_tree_rendering() {
    assert_eq!(Ast::new_test_ast_to_str(), "(- (+ 1 2) (+ 1 2))");
}

#[test]
fn nodes_accept_the_printer_as_visitor() {
    let printer = Ast::new(parse("nil").ok().unwrap());
    let e = parse("(1 + 2) * -3").ok().unwrap();
    assert_eq!(e.accept(&printer), "(* ((+ 1 2)) -3)");
    assert_eq!(printer.visit_expr(&e), "(* ((+ 1 2)) -3)");
    match &e {
        Expr::Binary(b) => {
            assert_eq!(b.accept(&printer), "(* ((+ 1 2)) -3)");
            match (&b.left, &b.right) {
                (Expr::Grouping(g), Expr::Unary(u)) => {
                    assert_eq!(g.accept(&printer), "((+ 1 2))");
                    assert_eq!(u.accept(&printer), "-3");
                }
                _ => panic!("unexpected operands"),
            }
        }
        _ => panic!("the root should be the product"),
    }
    assert_eq!(Literal::Boolean(true).accept(&printer), "true");
}
