use vstd::prelude::*;

use crate::ast::{operator_of, ExprView, Operator};
use crate::lexer::Lexeme;
use crate::token::TokenView;

verus! {

// The grammar, as functions from a token stream to what is parsed from its
// front and the rest of the stream. `None` is a parse error.

/// The next token of a stream; `None` at its end or at a lexing failure.
pub open spec fn next_token(ts: Seq<Lexeme>) -> Option<TokenView> {
    if ts.len() > 0 {
        match ts[0] {
            Lexeme::Token(t) => Some(t),
            Lexeme::Invalid => None,
        }
    } else {
        None
    }
}

pub open spec fn spec_identifier(ts: Seq<Lexeme>) -> Option<(Seq<u8>, Seq<Lexeme>)> {
    match next_token(ts) {
        Some(TokenView::Identifier(w)) => Some((w, ts.drop_first())),
        _ => None,
    }
}

pub open spec fn spec_number(ts: Seq<Lexeme>) -> Option<(u64, Seq<Lexeme>)> {
    match next_token(ts) {
        Some(TokenView::Number(n)) => Some((n, ts.drop_first())),
        _ => None,
    }
}

pub open spec fn spec_operator(ts: Seq<Lexeme>) -> Option<(Operator, Seq<Lexeme>)> {
    match next_token(ts) {
        Some(t) => match operator_of(t) {
            Some(op) => Some((op, ts.drop_first())),
            None => None,
        },
        None => None,
    }
}

/// `+` or `-`, the operators that may stand in front of an operand.
pub open spec fn is_prefix(op: Operator) -> bool {
    op == Operator::Add || op == Operator::Subtract
}

/// An atom: a number, an identifier, or a prefix operator applied to an atom.
pub open spec fn spec_simple(ts: Seq<Lexeme>) -> Option<(ExprView, Seq<Lexeme>)>
    decreases ts.len(),
{
    match next_token(ts) {
        Some(TokenView::Number(n)) => Some((ExprView::Number(n), ts.drop_first())),
        Some(TokenView::Identifier(w)) => Some((ExprView::Identifier(w), ts.drop_first())),
        Some(t) => match operator_of(t) {
            Some(op) => if is_prefix(op) {
                match spec_simple(ts.drop_first()) {
                    Some((e, rest)) => Some((ExprView::Unary(op, Box::new(e)), rest)),
                    None => None,
                }
            } else {
                None
            },
            None => None,
        },
        None => None,
    }
}

/// A prefix operator followed by an atom.
pub open spec fn spec_unary(ts: Seq<Lexeme>) -> Option<(Operator, ExprView, Seq<Lexeme>)> {
    match spec_operator(ts) {
        Some((op, after)) => if is_prefix(op) {
            match spec_simple(after) {
                Some((e, rest)) => Some((op, e, rest)),
                None => None,
            }
        } else {
            None
        },
        None => None,
    }
}

/// Precedence climbing: extends `left` with every following operator whose
/// binding power is at least `min`; an operator of binding power `p` takes as
/// its right operand an atom extended with the operators of power at least `p`.
pub open spec fn spec_nested(left: ExprView, min: u8, ts: Seq<Lexeme>) -> Option<
    (ExprView, Seq<Lexeme>),
>
    decreases ts.len(),
{
    if ts.len() == 0 {
        Some((left, ts))
    } else {
        match ts[0] {
            Lexeme::Invalid => None,
            Lexeme::Token(t) => match operator_of(t) {
                Some(op) => if min > op.spec_binding_power() {
                    Some((left, ts))
                } else {
                    match spec_simple(ts.drop_first()) {
                        Some((atom, ts2)) => if ts2.len() < ts.len() {
                            match spec_nested(atom, op.spec_binding_power(), ts2) {
                                Some((right, ts3)) => if ts3.len() < ts.len() {
                                    spec_nested(
                                        ExprView::Binary(Box::new(left), op, Box::new(right)),
                                        min,
                                        ts3,
                                    )
                                } else {
                                    None
                                },
                                None => None,
                            }
                        } else {
                            None
                        },
                        None => None,
                    }
                },
                None => Some((left, ts)),
            },
        }
    }
}

/// A full expression: an atom extended with operators of any binding power.
pub open spec fn spec_expression(ts: Seq<Lexeme>) -> Option<(ExprView, Seq<Lexeme>)> {
    match spec_simple(ts) {
        Some((atom, rest)) => spec_nested(atom, 0, rest),
        None => None,
    }
}

/// An expression whose top node is an infix operator.
pub open spec fn spec_binary(ts: Seq<Lexeme>) -> Option<(ExprView, Seq<Lexeme>)> {
    match spec_expression(ts) {
        Some((e, rest)) => if e is Binary {
            Some((e, rest))
        } else {
            None
        },
        None => None,
    }
}

/// A program: the statements of the whole stream; a `;` with nothing before
/// it is skipped, and the last statement needs no `;`.
pub open spec fn spec_program(ts: Seq<Lexeme>) -> Option<Seq<ExprView>>
    decreases ts.len(),
{
    if ts.len() == 0 {
        Some(Seq::empty())
    } else if ts[0] == Lexeme::Token(TokenView::Semicolon) {
        spec_program(ts.drop_first())
    } else if ts[0] == Lexeme::Invalid {
        None
    } else {
        match spec_expression(ts) {
            Some((e, rest)) => if rest.len() < ts.len() {
                match spec_program(rest) {
                    Some(es) => Some(seq![e] + es),
                    None => None,
                }
            } else {
                None
            },
            None => None,
        }
    }
}

} // verus!
