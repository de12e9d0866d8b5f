//! The expression tree and its canonical, fully parenthesized rendering.
use vstd::prelude::*;

use crate::token::{Token, TokenView};

verus! {

/// An expression; each node owns its children.
#[derive(Debug)]
pub enum Expr {
    Binary(Box<Binary>),
    Literal(Box<Literal>),
    Unary(Box<Unary>),
    Grouping(Box<Grouping>),
}

/// An expression in source parentheses.
#[derive(Debug)]
pub struct Grouping {
    pub expression: Expr,
}

/// A binary operator applied to two operands.
#[derive(Debug)]
pub struct Binary {
    pub left: Expr,
    pub operator: Token,
    pub right: Expr,
}

/// A literal value. A number is held as its decimal digits, with at most
/// one point, as they stood in the source.
#[derive(Debug)]
pub enum Literal {
    Number(String),
    String(String),
    Boolean(bool),
    Nil,
}

/// A prefix operator (`!` or `-`) applied to one operand.
#[derive(Debug)]
pub struct Unary {
    pub operator: Token,
    pub right: Expr,
}

pub enum LiteralView {
    Number(Seq<char>),
    Str(Seq<char>),
    Boolean(bool),
    Nil,
}

/// The mathematical value of an expression.
pub enum ExprView {
    Binary(Box<ExprView>, TokenView, Box<ExprView>),
    Literal(LiteralView),
    Unary(TokenView, Box<ExprView>),
    Grouping(Box<ExprView>),
}

impl View for Literal {
    type V = LiteralView;

    open spec fn view(&self) -> LiteralView {
        match self {
            Literal::Number(d) => LiteralView::Number(d@),
            Literal::String(s) => LiteralView::Str(s@),
            Literal::Boolean(b) => LiteralView::Boolean(*b),
            Literal::Nil => LiteralView::Nil,
        }
    }
}

impl View for Expr {
    type V = ExprView;

    open spec fn view(&self) -> ExprView
        decreases self,
    {
        match self {
            Expr::Binary(b) => ExprView::Binary(
                Box::new(b.left.view()),
                b.operator@,
                Box::new(b.right.view()),
            ),
            Expr::Literal(l) => ExprView::Literal(l@),
            Expr::Unary(u) => ExprView::Unary(u.operator@, Box::new(u.right.view())),
            Expr::Grouping(g) => ExprView::Grouping(Box::new(g.expression.view())),
        }
    }
}

/// A traversal of expression trees, one method per node shape. Each visitor
/// states, by `visits_to`, what it gives for a tree.
pub trait Visitor {
    type Result;

    /// Whether `r` is what this visitor gives for the tree `e`.
    spec fn visits_to(&self, e: ExprView, r: Self::Result) -> bool;

    fn visit_binary_expr(&self, expr: &Binary) -> (r: Self::Result)
        ensures
            self.visits_to(expr.tree(), r),
    ;

    fn visit_expr(&self, expr: &Expr) -> (r: Self::Result)
        ensures
            self.visits_to(expr@, r),
    ;

    fn visit_grouping_expr(&self, expr: &Grouping) -> (r: Self::Result)
        ensures
            self.visits_to(expr.tree(), r),
    ;

    fn visit_literal_expr(&self, expr: &Literal) -> (r: Self::Result)
        ensures
            self.visits_to(expr.tree(), r),
    ;

    fn visit_unary_expr(&self, expr: &Unary) -> (r: Self::Result)
        ensures
            self.visits_to(expr.tree(), r),
    ;
}

/// A node of an expression tree.
pub trait Tree {
    /// The tree rooted at this node.
    spec fn tree(&self) -> ExprView;
}

/// A node that hands itself to the matching method of a visitor.
pub trait Acceptor: Tree {
    fn accept<V: Visitor>(&self, visitor: &V) -> (r: V::Result)
        ensures
            visitor.visits_to(self.tree(), r),
    ;
}

impl Tree for Expr {
    open spec fn tree(&self) -> ExprView {
        self@
    }
}

impl Acceptor for Expr {
    fn accept<V: Visitor>(&self, visitor: &V) -> (r: V::Result) {
        visitor.visit_expr(self)
    }
}

impl Tree for Grouping {
    open spec fn tree(&self) -> ExprView {
        ExprView::Grouping(Box::new(self.expression@))
    }
}

impl Acceptor for Grouping {
    fn accept<V: Visitor>(&self, visitor: &V) -> (r: V::Result) {
        visitor.visit_grouping_expr(self)
    }
}

impl Tree for Binary {
    open spec fn tree(&self) -> ExprView {
        ExprView::Binary(Box::new(self.left@), self.operator@, Box::new(self.right@))
    }
}

impl Acceptor for Binary {
    fn accept<V: Visitor>(&self, visitor: &V) -> (r: V::Result) {
        visitor.visit_binary_expr(self)
    }
}

impl Tree for Literal {
    open spec fn tree(&self) -> ExprView {
        ExprView::Literal(self@)
    }
}

impl Acceptor for Literal {
    fn accept<V: Visitor>(&self, visitor: &V) -> (r: V::Result) {
        visitor.visit_literal_expr(self)
    }
}

impl Tree for Unary {
    open spec fn tree(&self) -> ExprView {
        ExprView::Unary(self.operator@, Box::new(self.right@))
    }
}

impl Acceptor for Unary {
    fn accept<V: Visitor>(&self, visitor: &V) -> (r: V::Result) {
        visitor.visit_unary_expr(self)
    }
}

/// The number of characters other than a point from position `i` on.
pub open spec fn point_run(d: Seq<char>, i: int) -> nat
    decreases d.len() - i,
{
    if 0 <= i < d.len() && d[i] != '.' {
        1 + point_run(d, i + 1)
    } else {
        0
    }
}

/// The number of zeros from position `i` on, before position `end`.
pub open spec fn zeros_from(d: Seq<char>, i: int, end: int) -> nat
    decreases end - i,
{
    if 0 <= i < end && end <= d.len() && d[i] == '0' {
        1 + zeros_from(d, i + 1, end)
    } else {
        0
    }
}

/// The number of zeros just before position `j`, down to position `lo`.
pub open spec fn zeros_before(d: Seq<char>, lo: int, j: int) -> nat
    decreases j - lo,
{
    if 0 <= lo < j && j <= d.len() && d[j - 1] == '0' {
        1 + zeros_before(d, lo, j - 1)
    } else {
        0
    }
}

/// The shortest decimal text of the number whose digits are `d`: no leading
/// zeros before the point but one lone `0`, no trailing zeros after it, and
/// no point when nothing follows it.
pub open spec fn number_text(d: Seq<char>) -> Seq<char> {
    let p = point_run(d, 0) as int;
    let a = zeros_from(d, 0, p) as int;
    let whole = if a == p {
        "0"@
    } else {
        d.subrange(a, p)
    };
    if p < d.len() {
        let b = d.len() - zeros_before(d, p + 1, d.len() as int);
        if b > p + 1 {
            whole + "."@ + d.subrange(p + 1, b)
        } else {
            whole
        }
    } else {
        whole
    }
}

/// How a literal is printed.
pub open spec fn literal_text(l: LiteralView) -> Seq<char> {
    match l {
        LiteralView::Number(d) => number_text(d),
        LiteralView::Str(s) => s,
        LiteralView::Boolean(b) => if b {
            "true"@
        } else {
            "false"@
        },
        LiteralView::Nil => "nil"@,
    }
}

/// The canonical rendering of an expression: `(op left right)` for a binary
/// node, the operator glued to its operand for a unary one, the inner
/// expression in parentheses for a grouping.
pub open spec fn show(e: ExprView) -> Seq<char>
    decreases e,
{
    match e {
        ExprView::Binary(l, op, r) => "("@ + op.lexeme + " "@ + show(*l) + " "@ + show(*r) + ")"@,
        ExprView::Literal(lit) => literal_text(lit),
        ExprView::Unary(op, r) => op.lexeme + show(*r),
        ExprView::Grouping(inner) => "("@ + show(*inner) + ")"@,
    }
}

} // verus!
