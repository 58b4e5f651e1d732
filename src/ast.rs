use vstd::prelude::*;
use vstd::utf8::encode_utf8;

use crate::token::{Token, TokenView};

verus! {

/// The operators of the language.
#[derive(PartialEq, Eq, Debug, Clone, Copy, Structural)]
pub enum Operator {
    /// `+`
    Add,
    /// `-`
    Subtract,
    /// `*`
    Multiply,
    /// `/`
    Divide,
    /// `=`
    Assign,
}

impl Operator {
    /// How tightly the operator binds: higher binds tighter.
    pub open spec fn spec_binding_power(self) -> u8 {
        match self {
            Operator::Assign => 1,
            Operator::Add | Operator::Subtract => 2,
            Operator::Multiply | Operator::Divide => 3,
        }
    }

    pub fn binding_power(&self) -> (r: u8)
        ensures
            r == self.spec_binding_power(),
    {
        match self {
            Operator::Add | Operator::Subtract => 2,
            Operator::Multiply | Operator::Divide => 3,
            Operator::Assign => 1,
        }
    }
}


/// The operator that a token stands for, if any.
pub open spec fn operator_of(t: TokenView) -> Option<Operator> {
    match t {
        TokenView::Add => Some(Operator::Add),
        TokenView::Subtract => Some(Operator::Subtract),
        TokenView::Multiply => Some(Operator::Multiply),
        TokenView::Divide => Some(Operator::Divide),
        TokenView::Assign => Some(Operator::Assign),
        _ => None,
    }
}

impl Operator {
    /// The operator of an operator token; `None` for any other token.
    pub fn from_token(token: &Token) -> (r: Option<Operator>)
        ensures
            r == operator_of(token@),
    {
        match token {
            Token::Add => Some(Operator::Add),
            Token::Subtract => Some(Operator::Subtract),
            Token::Multiply => Some(Operator::Multiply),
            Token::Divide => Some(Operator::Divide),
            Token::Assign => Some(Operator::Assign),
            _ => None,
        }
    }
}

/// A whole program: one expression per statement, in source order.
#[derive(PartialEq, Debug)]
pub struct Program {
    pub body: Vec<Expression>,
}

/// An expression tree; each node owns its operands.
#[derive(PartialEq, Debug)]
pub enum Expression {
    Identifier(Identifier),
    Number(Number),
    UnaryExpression(UnaryExpression),
    BinaryExpression(BinaryExpression),
}

#[derive(PartialEq, Debug, Clone)]
pub struct Identifier {
    pub identifier: String,
}

#[derive(PartialEq, Debug, Clone)]
pub struct Number {
    pub number: u64,
}

/// A prefix operator applied to one operand, as in `-5`.
#[derive(PartialEq, Debug)]
pub struct UnaryExpression {
    pub operator: Operator,
    pub operand: Box<Expression>,
}

/// An infix operator between two operands; assignment is one too.
#[derive(PartialEq, Debug)]
pub struct BinaryExpression {
    pub left: Box<Expression>,
    pub operator: Operator,
    pub right: Box<Expression>,
}

/// The mathematical value of an expression tree: an identifier is its bytes.
pub enum ExprView {
    Identifier(Seq<u8>),
    Number(u64),
    Unary(Operator, Box<ExprView>),
    Binary(Box<ExprView>, Operator, Box<ExprView>),
}

impl View for Identifier {
    type V = Seq<u8>;

    open spec fn view(&self) -> Seq<u8> {
        encode_utf8(self.identifier@)
    }
}

/// The tree that an expression stands for.
pub open spec fn tree(e: &Expression) -> ExprView
    decreases e,
{
    match e {
        Expression::Identifier(i) => ExprView::Identifier(i@),
        Expression::Number(n) => ExprView::Number(n.number),
        Expression::UnaryExpression(u) => ExprView::Unary(u.operator, Box::new(tree(&u.operand))),
        Expression::BinaryExpression(b) => ExprView::Binary(
            Box::new(tree(&b.left)),
            b.operator,
            Box::new(tree(&b.right)),
        ),
    }
}

impl View for Expression {
    type V = ExprView;

    open spec fn view(&self) -> ExprView {
        tree(self)
    }
}

impl View for Program {
    type V = Seq<ExprView>;

    open spec fn view(&self) -> Seq<ExprView> {
        self.body@.map_values(|e: Expression| e@)
    }
}

impl From<Identifier> for Expression {
    fn from(value: Identifier) -> (r: Expression)
        ensures
            r == Expression::Identifier(value),
    {
        Expression::Identifier(value)
    }
}

impl vstd::std_specs::convert::FromSpecImpl<Identifier> for Expression {
    open spec fn obeys_from_spec() -> bool {
        true
    }

    open spec fn from_spec(v: Identifier) -> Expression {
        Expression::Identifier(v)
    }
}

impl From<Number> for Expression {
    fn from(value: Number) -> (r: Expression)
        ensures
            r == Expression::Number(value),
    {
        Expression::Number(value)
    }
}

impl vstd::std_specs::convert::FromSpecImpl<Number> for Expression {
    open spec fn obeys_from_spec() -> bool {
        true
    }

    open spec fn from_spec(v: Number) -> Expression {
        Expression::Number(v)
    }
}

impl From<UnaryExpression> for Expression {
    fn from(value: UnaryExpression) -> (r: Expression)
        ensures
            r == Expression::UnaryExpression(value),
    {
        Expression::UnaryExpression(value)
    }
}

impl vstd::std_specs::convert::FromSpecImpl<UnaryExpression> for Expression {
    open spec fn obeys_from_spec() -> bool {
        true
    }

    open spec fn from_spec(v: UnaryExpression) -> Expression {
        Expression::UnaryExpression(v)
    }
}

impl From<BinaryExpression> for Expression {
    fn from(value: BinaryExpression) -> (r: Expression)
        ensures
            r == Expression::BinaryExpression(value),
    {
        Expression::BinaryExpression(value)
    }
}

impl vstd::std_specs::convert::FromSpecImpl<BinaryExpression> for Expression {
    open spec fn obeys_from_spec() -> bool {
        true
    }

    open spec fn from_spec(v: BinaryExpression) -> Expression {
        Expression::BinaryExpression(v)
    }
}

} // verus!
