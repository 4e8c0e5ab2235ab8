//! Expressions: the trees that the parser builds.

use crate::token::{is_decimal, Operator, Unary};
use crate::value::{Literal, LiteralView};
use vstd::prelude::*;

verus! {

/// What the expression parser waits for next.
#[derive(Debug, PartialEq, Eq, Clone, Copy, Structural)]
pub enum ExpectType {
    Operand,
    Operator,
}

/// An expression. Every node owns its operands.
#[derive(Debug, PartialEq)]
pub enum Expr {
    Ident(String),
    Literal(Literal),
    /// A number written with a decimal point, as written: digits with exactly
    /// one point. A text that is none fails when it is evaluated.
    Decimal(String),
    Div(Box<Expr>, Box<Expr>),
    Mul(Box<Expr>, Box<Expr>),
    Add(Box<Expr>, Box<Expr>),
    Sub(Box<Expr>, Box<Expr>),
    Mod(Box<Expr>, Box<Expr>),
    Greater(Box<Expr>, Box<Expr>),
    Less(Box<Expr>, Box<Expr>),
    GreaterEqual(Box<Expr>, Box<Expr>),
    LessEqual(Box<Expr>, Box<Expr>),
    Equal(Box<Expr>, Box<Expr>),
    NotEqual(Box<Expr>, Box<Expr>),
    And(Box<Expr>, Box<Expr>),
    Or(Box<Expr>, Box<Expr>),
    Not(Box<Expr>),
    Negate(Box<Expr>),
}

/// The mathematical model of an [`Expr`]: a leaf, or an operator with its
/// operands.
pub enum ExprView {
    Ident(Seq<char>),
    Literal(LiteralView),
    Decimal(Seq<char>),
    Binary(Operator, Box<ExprView>, Box<ExprView>),
    Unary(Unary, Box<ExprView>),
}

impl ExprView {
    /// The node of a binary operator over two operands.
    pub open spec fn binary(op: Operator, left: ExprView, right: ExprView) -> ExprView {
        ExprView::Binary(op, Box::new(left), Box::new(right))
    }

    /// The node of a unary operator over its operand.
    pub open spec fn unary(op: Unary, operand: ExprView) -> ExprView {
        ExprView::Unary(op, Box::new(operand))
    }
}

impl Expr {
    /// The mathematical model of the expression.
    pub open spec fn model(&self) -> ExprView
        decreases self,
    {
        match self {
            Expr::Ident(name) => ExprView::Ident(name@),
            Expr::Literal(l) => ExprView::Literal(l@),
            Expr::Decimal(text) => ExprView::Decimal(text@),
            Expr::Div(l, r) => ExprView::binary(Operator::Div, l.model(), r.model()),
            Expr::Mul(l, r) => ExprView::binary(Operator::Mul, l.model(), r.model()),
            Expr::Add(l, r) => ExprView::binary(Operator::Add, l.model(), r.model()),
            Expr::Sub(l, r) => ExprView::binary(Operator::Sub, l.model(), r.model()),
            Expr::Mod(l, r) => ExprView::binary(Operator::Mod, l.model(), r.model()),
            Expr::Greater(l, r) => ExprView::binary(Operator::Greater, l.model(), r.model()),
            Expr::Less(l, r) => ExprView::binary(Operator::Less, l.model(), r.model()),
            Expr::GreaterEqual(l, r) => ExprView::binary(
                Operator::GreaterEqual,
                l.model(),
                r.model(),
            ),
            Expr::LessEqual(l, r) => ExprView::binary(Operator::LessEqual, l.model(), r.model()),
            Expr::Equal(l, r) => ExprView::binary(Operator::Equal, l.model(), r.model()),
            Expr::NotEqual(l, r) => ExprView::binary(Operator::NotEqual, l.model(), r.model()),
            Expr::And(l, r) => ExprView::binary(Operator::And, l.model(), r.model()),
            Expr::Or(l, r) => ExprView::binary(Operator::Or, l.model(), r.model()),
            Expr::Not(e) => ExprView::unary(Unary::Not, e.model()),
            Expr::Negate(e) => ExprView::unary(Unary::Neg, e.model()),
        }
    }
}

impl View for Expr {
    type V = ExprView;

    open spec fn view(&self) -> ExprView {
        self.model()
    }
}

impl Expr {
    /// `left + right`
    pub fn new_add(left: Expr, right: Expr) -> (r: Expr)
        ensures
            r@ == ExprView::binary(Operator::Add, left@, right@),
    {
        Expr::Add(Box::new(left), Box::new(right))
    }

    /// `left - right`
    pub fn new_sub(left: Expr, right: Expr) -> (r: Expr)
        ensures
            r@ == ExprView::binary(Operator::Sub, left@, right@),
    {
        Expr::Sub(Box::new(left), Box::new(right))
    }

    /// `left * right`
    pub fn new_mul(left: Expr, right: Expr) -> (r: Expr)
        ensures
            r@ == ExprView::binary(Operator::Mul, left@, right@),
    {
        Expr::Mul(Box::new(left), Box::new(right))
    }

    /// `left / right`
    pub fn new_div(left: Expr, right: Expr) -> (r: Expr)
        ensures
            r@ == ExprView::binary(Operator::Div, left@, right@),
    {
        Expr::Div(Box::new(left), Box::new(right))
    }

    /// `left % right`
    pub fn new_mod(left: Expr, right: Expr) -> (r: Expr)
        ensures
            r@ == ExprView::binary(Operator::Mod, left@, right@),
    {
        Expr::Mod(Box::new(left), Box::new(right))
    }

    /// `left > right`
    pub fn new_greater(left: Expr, right: Expr) -> (r: Expr)
        ensures
            r@ == ExprView::binary(Operator::Greater, left@, right@),
    {
        Expr::Greater(Box::new(left), Box::new(right))
    }

    /// `left < right`
    pub fn new_less(left: Expr, right: Expr) -> (r: Expr)
        ensures
            r@ == ExprView::binary(Operator::Less, left@, right@),
    {
        Expr::Less(Box::new(left), Box::new(right))
    }

    /// `left >= right`
    pub fn new_greater_equal(left: Expr, right: Expr) -> (r: Expr)
        ensures
            r@ == ExprView::binary(Operator::GreaterEqual, left@, right@),
    {
        Expr::GreaterEqual(Box::new(left), Box::new(right))
    }

    /// `left <= right`
    pub fn new_less_equal(left: Expr, right: Expr) -> (r: Expr)
        ensures
            r@ == ExprView::binary(Operator::LessEqual, left@, right@),
    {
        Expr::LessEqual(Box::new(left), Box::new(right))
    }

    /// `left == right`
    pub fn new_equal(left: Expr, right: Expr) -> (r: Expr)
        ensures
            r@ == ExprView::binary(Operator::Equal, left@, right@),
    {
        Expr::Equal(Box::new(left), Box::new(right))
    }

    /// `left != right`
    pub fn new_not_equal(left: Expr, right: Expr) -> (r: Expr)
        ensures
            r@ == ExprView::binary(Operator::NotEqual, left@, right@),
    {
        Expr::NotEqual(Box::new(left), Box::new(right))
    }

    /// `left and right`
    pub fn new_and(left: Expr, right: Expr) -> (r: Expr)
        ensures
            r@ == ExprView::binary(Operator::And, left@, right@),
    {
        Expr::And(Box::new(left), Box::new(right))
    }

    /// `left or right`
    pub fn new_or(left: Expr, right: Expr) -> (r: Expr)
        ensures
            r@ == ExprView::binary(Operator::Or, left@, right@),
    {
        Expr::Or(Box::new(left), Box::new(right))
    }

    /// A value written in the source.
    pub fn new_literal(literal: &Literal) -> (r: Expr)
        ensures
            r@ == ExprView::Literal(literal@),
    {
        Expr::Literal(literal.clone())
    }

    /// A variable, by its name.
    pub fn new_ident(ident: &str) -> (r: Expr)
        ensures
            r@ == ExprView::Ident(ident@),
    {
        Expr::Ident(String::from_str(ident))
    }

    /// A number written with a decimal point: digits with exactly one point.
    pub fn new_decimal(text: &str) -> (r: Expr)
        requires
            is_decimal(text@),
        ensures
            r@ == ExprView::Decimal(text@),
    {
        Expr::Decimal(String::from_str(text))
    }

    /// A number written in the source.
    pub fn new_num_literal(num: i32) -> (r: Expr)
        ensures
            r@ == ExprView::Literal(LiteralView::Number(num)),
    {
        Expr::Literal(Literal::Number(num))
    }

    /// A string written in the source.
    pub fn new_string_literal(string: &str) -> (r: Expr)
        ensures
            r@ == ExprView::Literal(LiteralView::String(string@)),
    {
        Expr::Literal(Literal::String(String::from_str(string)))
    }

    /// `true` or `false`.
    pub fn new_bool_literal(boolean: bool) -> (r: Expr)
        ensures
            r@ == ExprView::Literal(LiteralView::Bool(boolean)),
    {
        Expr::Literal(Literal::Bool(boolean))
    }

    /// The node of a binary operator over two operands.
    pub fn new_binary_op(left: Expr, right: Expr, opr: &Operator) -> (r: Expr)
        ensures
            r@ == ExprView::binary(*opr, left@, right@),
    {
        match opr {
            Operator::Add => Expr::new_add(left, right),
            Operator::Sub => Expr::new_sub(left, right),
            Operator::Mul => Expr::new_mul(left, right),
            Operator::Div => Expr::new_div(left, right),
            Operator::Mod => Expr::new_mod(left, right),
            Operator::Greater => Expr::new_greater(left, right),
            Operator::Less => Expr::new_less(left, right),
            Operator::GreaterEqual => Expr::new_greater_equal(left, right),
            Operator::LessEqual => Expr::new_less_equal(left, right),
            Operator::Equal => Expr::new_equal(left, right),
            Operator::NotEqual => Expr::new_not_equal(left, right),
            Operator::And => Expr::new_and(left, right),
            Operator::Or => Expr::new_or(left, right),
        }
    }

    /// The node of a unary operator over its operand.
    pub fn new_unary_op(expr: Expr, opr: &Unary) -> (r: Expr)
        ensures
            r@ == ExprView::unary(*opr, expr@),
    {
        match opr {
            Unary::Not => Expr::Not(Box::new(expr)),
            Unary::Neg => Expr::Negate(Box::new(expr)),
        }
    }

    /// The operator of a binary node with its two operands; a leaf or a
    /// unary node is handed back as it is.
    pub fn into_binary(self) -> (r: Result<(Operator, Expr, Expr), Expr>)
        ensures
            match r {
                Ok((op, left, right)) => self@ == ExprView::binary(op, left@, right@),
                Err(same) => same@ == self@ && !(self@ is Binary),
            },
    {
        match self {
            Expr::Div(l, r) => Ok((Operator::Div, *l, *r)),
            Expr::Mul(l, r) => Ok((Operator::Mul, *l, *r)),
            Expr::Add(l, r) => Ok((Operator::Add, *l, *r)),
            Expr::Sub(l, r) => Ok((Operator::Sub, *l, *r)),
            Expr::Mod(l, r) => Ok((Operator::Mod, *l, *r)),
            Expr::Greater(l, r) => Ok((Operator::Greater, *l, *r)),
            Expr::Less(l, r) => Ok((Operator::Less, *l, *r)),
            Expr::GreaterEqual(l, r) => Ok((Operator::GreaterEqual, *l, *r)),
            Expr::LessEqual(l, r) => Ok((Operator::LessEqual, *l, *r)),
            Expr::Equal(l, r) => Ok((Operator::Equal, *l, *r)),
            Expr::NotEqual(l, r) => Ok((Operator::NotEqual, *l, *r)),
            Expr::And(l, r) => Ok((Operator::And, *l, *r)),
            Expr::Or(l, r) => Ok((Operator::Or, *l, *r)),
            other => Err(other),
        }
    }
}

impl Clone for Expr {
    fn clone(&self) -> (r: Self)
        ensures
            r@ == self@,
        decreases self,
    {
        match self {
            Expr::Ident(name) => Expr::Ident(name.clone()),
            Expr::Literal(l) => Expr::Literal(l.clone()),
            Expr::Decimal(text) => Expr::Decimal(text.clone()),
            Expr::Div(l, r) => Expr::new_div((**l).clone(), (**r).clone()),
            Expr::Mul(l, r) => Expr::new_mul((**l).clone(), (**r).clone()),
            Expr::Add(l, r) => Expr::new_add((**l).clone(), (**r).clone()),
            Expr::Sub(l, r) => Expr::new_sub((**l).clone(), (**r).clone()),
            Expr::Mod(l, r) => Expr::new_mod((**l).clone(), (**r).clone()),
            Expr::Greater(l, r) => Expr::new_greater((**l).clone(), (**r).clone()),
            Expr::Less(l, r) => Expr::new_less((**l).clone(), (**r).clone()),
            Expr::GreaterEqual(l, r) => Expr::new_greater_equal((**l).clone(), (**r).clone()),
            Expr::LessEqual(l, r) => Expr::new_less_equal((**l).clone(), (**r).clone()),
            Expr::Equal(l, r) => Expr::new_equal((**l).clone(), (**r).clone()),
            Expr::NotEqual(l, r) => Expr::new_not_equal((**l).clone(), (**r).clone()),
            Expr::And(l, r) => Expr::new_and((**l).clone(), (**r).clone()),
            Expr::Or(l, r) => Expr::new_or((**l).clone(), (**r).clone()),
            Expr::Not(e) => Expr::Not(Box::new((**e).clone())),
            Expr::Negate(e) => Expr::Negate(Box::new((**e).clone())),
        }
    }
}

} // verus!
