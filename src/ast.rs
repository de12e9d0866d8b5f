//! The printer: renders an expression tree as a fully parenthesized string.
use vstd::prelude::*;

use crate::expr::{
    number_text, point_run, show, zeros_before, zeros_from, Binary, Expr, ExprView, Grouping,
    Literal, LiteralView, Unary, Visitor,
};
use crate::token::{fixed_token, Token, TokenKind};

verus! {

/// The shortest decimal text of a number literal's digits.
fn format_number(d: &str) -> (r: String)
    ensures
        r@ == number_text(d@),
{
    let ghost s = d@;
    let n = d.unicode_len();
    let mut p: usize = 0;
    while p < n && d.get_char(p) != '.'
        invariant
            s == d@,
            n == s.len(),
            p <= n,
            point_run(s, 0) == p + point_run(s, p as int),
        decreases n - p,
    {
        p = p + 1;
    }
    let mut a: usize = 0;
    while a < p && d.get_char(a) == '0'
        invariant
            s == d@,
            n == s.len(),
            p == point_run(s, 0),
            p <= n,
            a <= p,
            zeros_from(s, 0, p as int) == a + zeros_from(s, a as int, p as int),
        decreases p - a,
    {
        a = a + 1;
    }
    let mut out = if a == p {
        String::from_str("0")
    } else {
        d.substring_char(a, p).to_owned()
    };
    if p < n {
        let mut b: usize = n;
        while b > p + 1 && d.get_char(b - 1) == '0'
            invariant
                s == d@,
                n == s.len(),
                p < n,
                p + 1 <= b <= n,
                zeros_before(s, p + 1, n as int) == (n - b) + zeros_before(
                    s,
                    p + 1,
                    b as int,
                ),
            decreases b,
        {
            b = b - 1;
        }
        if b > p + 1 {
            out.append(".");
            out.append(d.substring_char(p + 1, b));
        }
    }
    out
}

/// `1 + 2`, with both numbers written as single digits.
fn sum_of_one_and_two() -> (r: Expr)
    ensures
        r@ == ExprView::Binary(
            Box::new(ExprView::Literal(LiteralView::Number("1"@))),
            fixed_token(TokenKind::Plus, "+"@, 1),
            Box::new(ExprView::Literal(LiteralView::Number("2"@))),
        ),
{
    proof {
        reveal_strlit("+");
    }
    let left = Expr::Literal(Box::new(Literal::Number(String::from_str("1"))));
    let right = Expr::Literal(Box::new(Literal::Number(String::from_str("2"))));
    let operator = Token::get_token_from_symbol("+", 1);
    assert(left@ == ExprView::Literal(LiteralView::Number("1"@)));
    assert(right@ == ExprView::Literal(LiteralView::Number("2"@)));
    Expr::Binary(Box::new(Binary { left, operator, right }))
}

/// Printing is a function of the tree alone: two trees of equal value, or
/// one tree printed twice, give the same string.
pub proof fn lemma_print_is_pure(a: &Ast, b: &Ast)
    requires
        a@ == b@,
    ensures
        show(a@) == show(b@),
{
}

/// An expression tree, printed in canonical form.
pub struct Ast {
    expression: Expr,
}

impl View for Ast {
    type V = ExprView;

    closed spec fn view(&self) -> ExprView {
        self.expression@
    }
}

impl Ast {
    /// The rendering of the fixed tree `(1 + 2) - (1 + 2)`, built without
    /// source parentheses.
    pub fn new_test_ast_to_str() -> (r: String)
        ensures
            r@ == "(- (+ 1 2) (+ 1 2))"@,
    {
        proof {
            reveal_strlit("+");
            reveal_strlit("-");
        }
        let ast = Ast {
            expression: Expr::Binary(
                Box::new(
                    Binary {
                        left: sum_of_one_and_two(),
                        operator: Token::get_token_from_symbol("-", 1),
                        right: sum_of_one_and_two(),
                    },
                ),
            ),
        };
        let r = ast.visit_expr(&ast.expression);
        proof {
            let sum = ExprView::Binary(
                Box::new(ExprView::Literal(LiteralView::Number("1"@))),
                fixed_token(TokenKind::Plus, "+"@, 1),
                Box::new(ExprView::Literal(LiteralView::Number("2"@))),
            );
            let one = number_text("1"@);
            let two = number_text("2"@);
            reveal_strlit("1");
            reveal_strlit("2");
            reveal_strlit("0");
            assert(point_run("1"@, 1) == 0);
            assert(point_run("1"@, 0) == 1);
            assert(zeros_from("1"@, 0, 1) == 0);
            assert(one =~= "1"@);
            assert(point_run("2"@, 1) == 0);
            assert(point_run("2"@, 0) == 1);
            assert(zeros_from("2"@, 0, 1) == 0);
            assert(two =~= "2"@);
            assert(show(*Box::new(ExprView::Literal(LiteralView::Number("1"@)))) == one);
            assert(show(*Box::new(ExprView::Literal(LiteralView::Number("2"@)))) == two);
            assert(show(sum) == "("@ + "+"@ + " "@ + one + " "@ + two + ")"@);
            reveal_strlit("(");
            reveal_strlit(")");
            reveal_strlit(" ");
            reveal_strlit("(- (+ 1 2) (+ 1 2))");
            assert(r@ =~= "(- (+ 1 2) (+ 1 2))"@);
        }
        r
    }

    pub fn new(expression: Expr) -> (r: Ast)
        ensures
            r@ == expression@,
    {
        Ast { expression }
    }

    /// The canonical rendering of the whole tree.
    pub fn print(&self) -> (r: String)
        ensures
            r@ == show(self@),
    {
        self.visit_expr(&self.expression)
    }
}

impl Visitor for Ast {
    type Result = String;

    open spec fn visits_to(&self, e: ExprView, r: String) -> bool {
        r@ == show(e)
    }

    fn visit_expr(&self, expr: &Expr) -> (r: String)
        decreases expr,
    {
        match expr {
            Expr::Binary(binary) => self.visit_binary_expr(binary),
            Expr::Grouping(grouping) => self.visit_grouping_expr(grouping),
            Expr::Literal(literal) => self.visit_literal_expr(literal),
            Expr::Unary(unary) => self.visit_unary_expr(unary),
        }
    }

    fn visit_binary_expr(&self, expr: &Binary) -> (r: String)
        decreases expr,
    {
        let mut result = String::from_str("(");
        result.append(expr.operator.lexeme());
        result.append(" ");
        let left = self.visit_expr(&expr.left);
        result.append(left.as_str());
        result.append(" ");
        let right = self.visit_expr(&expr.right);
        result.append(right.as_str());
        result.append(")");
        result
    }

    fn visit_grouping_expr(&self, expr: &Grouping) -> (r: String)
        decreases expr,
    {
        let mut result = String::from_str("(");
        let inner = self.visit_expr(&expr.expression);
        result.append(inner.as_str());
        result.append(")");
        result
    }

    fn visit_literal_expr(&self, expr: &Literal) -> (r: String) {
        match expr {
            Literal::Number(d) => format_number(d.as_str()),
            Literal::String(s) => s.clone(),
            Literal::Boolean(b) => if *b {
                String::from_str("true")
            } else {
                String::from_str("false")
            },
            Literal::Nil => String::from_str("nil"),
        }
    }

    fn visit_unary_expr(&self, expr: &Unary) -> (r: String)
        decreases expr,
    {
        let mut result = String::from_str(expr.operator.lexeme());
        let right = self.visit_expr(&expr.right);
        result.append(right.as_str());
        result
    }
}

} // verus!
