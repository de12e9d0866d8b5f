//! The parser: recursive descent with one level per precedence tier, from a
//! token sequence to one expression tree.
use vstd::prelude::*;

use crate::expr::{Binary, Expr, ExprView, Grouping, Literal, LiteralView, Unary};
use crate::scanner::views;
use crate::token::{Token, TokenKind, TokenView};

verus! {

/// The tiers of binary operators, from the loosest to the tightest.
pub const EQUALITY: u8 = 0;

pub const COMPARISON: u8 = 1;

pub const TERM: u8 = 2;

pub const FACTOR: u8 = 3;

#[derive(Clone, Copy, PartialEq, Eq, Structural, Debug)]
pub enum ParseErrorKind {
    /// A token that cannot start an operand.
    UnexpectedToken,
    /// A parenthesized expression with no `)` after it.
    MissingClosingParen,
    /// The tokens ran out where an operand was due.
    UnexpectedEnd,
}

/// The first fatal parsing error, with the line it is reported at.
#[derive(Debug)]
pub struct ParseError {
    pub kind: ParseErrorKind,
    pub message: String,
    pub line: usize,
}

pub struct ParseErrorView {
    pub kind: ParseErrorKind,
    pub message: Seq<char>,
    pub line: nat,
}

impl View for ParseError {
    type V = ParseErrorView;

    open spec fn view(&self) -> ParseErrorView {
        ParseErrorView { kind: self.kind, message: self.message@, line: self.line as nat }
    }
}

pub open spec fn unexpected_token(t: TokenView) -> ParseErrorView {
    ParseErrorView {
        kind: ParseErrorKind::UnexpectedToken,
        message: "Unexpected token: \""@ + t.lexeme + "\""@,
        line: t.line,
    }
}

/// The error for a `(` read on line `line` and never closed.
pub open spec fn missing_paren(line: nat) -> ParseErrorView {
    ParseErrorView {
        kind: ParseErrorKind::MissingClosingParen,
        message: "Expected ')' after expression"@,
        line,
    }
}

/// The error for running out of tokens: on the line of the last token, or
/// line 1 when there is none.
pub open spec fn unexpected_end(toks: Seq<TokenView>) -> ParseErrorView {
    ParseErrorView {
        kind: ParseErrorKind::UnexpectedEnd,
        message: "Unexpected end of input"@,
        line: if toks.len() > 0 {
            toks.last().line
        } else {
            1
        },
    }
}

/// The operators of a tier.
pub open spec fn tier_op(level: nat, k: TokenKind) -> bool {
    if level == 0 {
        k == TokenKind::BangEqual || k == TokenKind::EqualEqual
    } else if level == 1 {
        k == TokenKind::Greater || k == TokenKind::GreaterEqual || k == TokenKind::Less || k
            == TokenKind::LessEqual
    } else if level == 2 {
        k == TokenKind::Minus || k == TokenKind::Plus
    } else {
        k == TokenKind::Slash || k == TokenKind::Star
    }
}

pub open spec fn tier_rank(level: nat) -> nat {
    if level < 3 {
        (6 - level) as nat
    } else {
        3
    }
}

/// What parsing from `pos` gives: the tree and the position after it.
pub type Parsed = Result<(ExprView, int), ParseErrorView>;

/// `expression → equality`
pub open spec fn expression_at(toks: Seq<TokenView>, pos: int) -> Parsed
    decreases toks.len() - pos, 7nat,
{
    binary_at(toks, pos, 0)
}

/// An operand of tier `level`: an expression of the next tighter tier.
pub open spec fn operand_at(toks: Seq<TokenView>, pos: int, level: nat) -> Parsed
    decreases toks.len() - pos, tier_rank(level), 0nat,
{
    if level >= 3 {
        unary_at(toks, pos)
    } else {
        binary_at(toks, pos, level + 1)
    }
}

/// `tier → operand ( op operand )*`, folded to the left.
pub open spec fn binary_at(toks: Seq<TokenView>, pos: int, level: nat) -> Parsed
    decreases toks.len() - pos, tier_rank(level), 1nat,
{
    match operand_at(toks, pos, level) {
        Err(e) => Err(e),
        Ok((left, p)) => if pos < p <= toks.len() {
            fold_at(toks, level, left, p)
        } else {
            Ok((left, p))
        },
    }
}

/// The repetitions of a tier after `left`, which ends at `pos`.
pub open spec fn fold_at(toks: Seq<TokenView>, level: nat, left: ExprView, pos: int) -> Parsed
    decreases toks.len() - pos, 0nat, 0nat,
{
    if 0 <= pos < toks.len() && tier_op(level, toks[pos].kind) {
        match operand_at(toks, pos + 1, level) {
            Err(e) => Err(e),
            Ok((right, p)) => {
                let e = ExprView::Binary(Box::new(left), toks[pos], Box::new(right));
                if pos < p <= toks.len() {
                    fold_at(toks, level, e, p)
                } else {
                    Ok((e, p))
                }
            },
        }
    } else {
        Ok((left, pos))
    }
}

/// `unary → ( "!" | "-" ) unary | primary`
pub open spec fn unary_at(toks: Seq<TokenView>, pos: int) -> Parsed
    decreases toks.len() - pos, 2nat, 0nat,
{
    if 0 <= pos < toks.len() && (toks[pos].kind == TokenKind::Bang || toks[pos].kind
        == TokenKind::Minus) {
        match unary_at(toks, pos + 1) {
            Err(e) => Err(e),
            Ok((right, p)) => Ok((ExprView::Unary(toks[pos], Box::new(right)), p)),
        }
    } else {
        primary_at(toks, pos)
    }
}

/// `primary → NUMBER | STRING | "true" | "false" | "nil" | "(" expression ")"`
pub open spec fn primary_at(toks: Seq<TokenView>, pos: int) -> Parsed
    decreases toks.len() - pos, 1nat, 0nat,
{
    if pos < 0 || pos >= toks.len() {
        Err(unexpected_end(toks))
    } else {
        let t = toks[pos];
        if t.kind == TokenKind::False {
            Ok((ExprView::Literal(LiteralView::Boolean(false)), pos + 1))
        } else if t.kind == TokenKind::True {
            Ok((ExprView::Literal(LiteralView::Boolean(true)), pos + 1))
        } else if t.kind == TokenKind::Nil {
            Ok((ExprView::Literal(LiteralView::Nil), pos + 1))
        } else if t.kind == TokenKind::Number {
            Ok((ExprView::Literal(LiteralView::Number(t.literal)), pos + 1))
        } else if t.kind == TokenKind::String {
            Ok((ExprView::Literal(LiteralView::Str(t.literal)), pos + 1))
        } else if t.kind == TokenKind::LeftParen {
            match expression_at(toks, pos + 1) {
                Err(e) => Err(e),
                Ok((inner, p)) => if 0 <= p < toks.len() && toks[p].kind == TokenKind::RightParen {
                    Ok((ExprView::Grouping(Box::new(inner)), p + 1))
                } else {
                    Err(missing_paren(t.line))
                },
            }
        } else {
            Err(unexpected_token(t))
        }
    }
}

/// The tree that the whole token sequence starts with, or the first error.
pub open spec fn parse_tokens(toks: Seq<TokenView>) -> Result<ExprView, ParseErrorView> {
    match expression_at(toks, 0) {
        Ok((e, _)) => Ok(e),
        Err(e) => Err(e),
    }
}

/// A `(` whose inner expression runs to the end of the tokens is never
/// closed: parsing it fails with the missing-parenthesis error, reported at
/// the line of the `(`.
pub proof fn lemma_unclosed_group(toks: Seq<TokenView>, pos: int)
    requires
        0 <= pos < toks.len(),
        toks[pos].kind == TokenKind::LeftParen,
        expression_at(toks, pos + 1) matches Ok((_, end)) && end == toks.len(),
    ensures
        primary_at(toks, pos) == Err::<(ExprView, int), ParseErrorView>(
            missing_paren(toks[pos].line),
        ),
        unary_at(toks, pos) == primary_at(toks, pos),
{
}

pub open spec fn parsed(r: Result<(Expr, usize), ParseError>) -> Parsed {
    match r {
        Ok((e, p)) => Ok((e@, p as int)),
        Err(e) => Err(e@),
    }
}

pub struct ParserView {
    pub tokens: Seq<TokenView>,
    pub source: Seq<char>,
    pub current: nat,
}

/// A parser over a token sequence, with a cursor.
pub struct Parser {
    tokens: Vec<Token>,
    source: String,
    current: usize,
}

impl View for Parser {
    type V = ParserView;

    closed spec fn view(&self) -> ParserView {
        ParserView {
            tokens: views(self.tokens@),
            source: self.source@,
            current: self.current as nat,
        }
    }
}

fn in_tier(level: u8, k: TokenKind) -> (r: bool)
    ensures
        r == tier_op(level as nat, k),
{
    if level == EQUALITY {
        k == TokenKind::BangEqual || k == TokenKind::EqualEqual
    } else if level == COMPARISON {
        k == TokenKind::Greater || k == TokenKind::GreaterEqual || k == TokenKind::Less || k
            == TokenKind::LessEqual
    } else if level == TERM {
        k == TokenKind::Minus || k == TokenKind::Plus
    } else {
        k == TokenKind::Slash || k == TokenKind::Star
    }
}

impl Parser {
    /// A parser at the first of `tokens`, read from `source`.
    pub fn new(tokens: Vec<Token>, source: String) -> (r: Parser)
        ensures
            r@ == (ParserView { tokens: views(tokens@), source: source@, current: 0 }),
    {
        Parser { tokens, source, current: 0 }
    }

    /// The text the tokens were read from.
    pub fn source(&self) -> (r: &str)
        ensures
            r@ == self@.source,
    {
        self.source.as_str()
    }

    /// Parses one expression from the cursor on and moves the cursor past it.
    pub fn parse(&mut self) -> (r: Result<Expr, ParseError>)
        requires
            old(self)@.current <= old(self)@.tokens.len(),
        ensures
            final(self)@.tokens == old(self)@.tokens,
            final(self)@.source == old(self)@.source,
            final(self)@.current <= final(self)@.tokens.len(),
            r is Err ==> final(self)@.current == old(self)@.current,
            match r {
                Ok(e) => expression_at(old(self)@.tokens, old(self)@.current as int) == Ok::<
                    (ExprView, int),
                    ParseErrorView,
                >((e@, final(self)@.current as int)),
                Err(e) => expression_at(old(self)@.tokens, old(self)@.current as int) == Err::<
                    (ExprView, int),
                    ParseErrorView,
                >(e@),
            },
    {
        match self.expression(self.current) {
            Ok((e, end)) => {
                self.current = end;
                Ok(e)
            },
            Err(e) => Err(e),
        }
    }

    fn expression(&self, pos: usize) -> (r: Result<(Expr, usize), ParseError>)
        requires
            pos <= self@.tokens.len(),
        ensures
            parsed(r) == expression_at(self@.tokens, pos as int),
            r matches Ok((_, p)) ==> pos < p <= self@.tokens.len(),
        decreases self@.tokens.len() - pos, 7nat,
    {
        self.binary(pos, EQUALITY)
    }

    fn operand(&self, pos: usize, level: u8) -> (r: Result<(Expr, usize), ParseError>)
        requires
            pos <= self@.tokens.len(),
            level <= FACTOR,
        ensures
            parsed(r) == operand_at(self@.tokens, pos as int, level as nat),
            r matches Ok((_, p)) ==> pos < p <= self@.tokens.len(),
        decreases self@.tokens.len() - pos, tier_rank(level as nat), 0nat,
    {
        if level >= FACTOR {
            self.unary(pos)
        } else {
            self.binary(pos, level + 1)
        }
    }

    /// One tier of binary operators: its operands, folded to the left.
    fn binary(&self, pos: usize, level: u8) -> (r: Result<(Expr, usize), ParseError>)
        requires
            pos <= self@.tokens.len(),
            level <= FACTOR,
        ensures
            parsed(r) == binary_at(self@.tokens, pos as int, level as nat),
            r matches Ok((_, p)) ==> pos < p <= self@.tokens.len(),
        decreases self@.tokens.len() - pos, tier_rank(level as nat), 1nat,
    {
        let ghost toks = self@.tokens;
        let (mut expr, mut current) = match self.operand(pos, level) {
            Ok(first) => first,
            Err(e) => return Err(e),
        };
        let ghost first = expr@;
        let ghost first_end = current as int;
        while current < self.tokens.len() && in_tier(level, self.tokens[current].kind())
            invariant
                toks == self@.tokens,
                level <= FACTOR,
                pos < first_end <= current <= toks.len(),
                binary_at(toks, pos as int, level as nat) == fold_at(
                    toks,
                    level as nat,
                    first,
                    first_end,
                ),
                fold_at(toks, level as nat, first, first_end) == fold_at(
                    toks,
                    level as nat,
                    expr@,
                    current as int,
                ),
            decreases toks.len() - current,
        {
            let operator = self.tokens[current].clone();
            let (right, end) = match self.operand(current + 1, level) {
                Ok(r) => r,
                Err(e) => return Err(e),
            };
            expr = Expr::Binary(Box::new(Binary { left: expr, operator, right }));
            current = end;
        }
        Ok((expr, current))
    }

    fn unary(&self, pos: usize) -> (r: Result<(Expr, usize), ParseError>)
        requires
            pos <= self@.tokens.len(),
        ensures
            parsed(r) == unary_at(self@.tokens, pos as int),
            r matches Ok((_, p)) ==> pos < p <= self@.tokens.len(),
        decreases self@.tokens.len() - pos, 2nat, 0nat,
    {
        if pos < self.tokens.len() {
            let k = self.tokens[pos].kind();
            if k == TokenKind::Bang || k == TokenKind::Minus {
                let operator = self.tokens[pos].clone();
                return match self.unary(pos + 1) {
                    Ok((right, end)) => Ok((Expr::Unary(Box::new(Unary { operator, right })), end)),
                    Err(e) => Err(e),
                };
            }
        }
        self.primary(pos)
    }

    fn primary(&self, pos: usize) -> (r: Result<(Expr, usize), ParseError>)
        requires
            pos <= self@.tokens.len(),
        ensures
            parsed(r) == primary_at(self@.tokens, pos as int),
            r matches Ok((_, p)) ==> pos < p <= self@.tokens.len(),
        decreases self@.tokens.len() - pos, 1nat, 0nat,
    {
        if pos >= self.tokens.len() {
            return Err(self.unexpected_end());
        }
        let token = &self.tokens[pos];
        let k = token.kind();
        if k == TokenKind::False {
            Ok((Expr::Literal(Box::new(Literal::Boolean(false))), pos + 1))
        } else if k == TokenKind::True {
            Ok((Expr::Literal(Box::new(Literal::Boolean(true))), pos + 1))
        } else if k == TokenKind::Nil {
            Ok((Expr::Literal(Box::new(Literal::Nil)), pos + 1))
        } else if k == TokenKind::Number {
            Ok((Expr::Literal(Box::new(Literal::Number(token.literal().to_owned()))), pos + 1))
        } else if k == TokenKind::String {
            Ok((Expr::Literal(Box::new(Literal::String(token.literal().to_owned()))), pos + 1))
        } else if k == TokenKind::LeftParen {
            let (inner, end) = match self.expression(pos + 1) {
                Ok(r) => r,
                Err(e) => return Err(e),
            };
            if end < self.tokens.len() && self.tokens[end].kind() == TokenKind::RightParen {
                Ok((Expr::Grouping(Box::new(Grouping { expression: inner })), end + 1))
            } else {
                Err(
                    ParseError {
                        kind: ParseErrorKind::MissingClosingParen,
                        message: String::from_str("Expected ')' after expression"),
                        line: token.line(),
                    },
                )
            }
        } else {
            let mut message = String::from_str("Unexpected token: \"");
            message.append(token.lexeme());
            message.append("\"");
            Err(ParseError { kind: ParseErrorKind::UnexpectedToken, message, line: token.line() })
        }
    }

    fn unexpected_end(&self) -> (r: ParseError)
        ensures
            r@ == unexpected_end(self@.tokens),
    {
        let n = self.tokens.len();
        let line = if n > 0 {
            self.tokens[n - 1].line()
        } else {
            1
        };
        ParseError {
            kind: ParseErrorKind::UnexpectedEnd,
            message: String::from_str("Unexpected end of input"),
            line,
        }
    }
}

} // verus!
