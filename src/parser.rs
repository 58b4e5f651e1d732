use vstd::prelude::*;

use crate::ast::{
    BinaryExpression, ExprView, Expression, Identifier, Number, Operator, Program,
    UnaryExpression,
};
use crate::grammar::{
    spec_binary, spec_expression, spec_identifier, spec_nested, spec_number,
    spec_operator, spec_program, spec_simple, spec_unary,
};
use crate::lexer::{lex, Lexeme, Lexer};
use crate::token::Token;

verus! {

/// Parsing fails: a token is missing, is not the one the grammar asks for,
/// or cannot be formed from the input.
#[derive(PartialEq, Eq, Debug, Clone, Copy, Structural)]
pub struct ParseError;

/// A parser over a source text, with one token of lookahead.
pub struct Parser<'a> {
    lexer: Lexer<'a>,
    peeked: Option<Token<'a>>,
}

/// A kind of construct that a parser can read from the front of its tokens.
pub trait Parse: Sized {
    /// `r` is what parsing the construct gives on the token stream `ts`, and
    /// `rest` the stream after it where parsing succeeds.
    spec fn parsed(ts: Seq<Lexeme>, r: Result<Self, ParseError>, rest: Seq<Lexeme>) -> bool;

    fn parse(parser: &mut Parser) -> (r: Result<Self, ParseError>)
        ensures
            Self::parsed(old(parser).stream(), r, final(parser).stream()),
    ;
}

impl<'a> Parser<'a> {
    /// The tokens not yet consumed, the one looked ahead at included.
    pub closed spec fn stream(&self) -> Seq<Lexeme> {
        match self.peeked {
            Some(t) => seq![Lexeme::Token(t@)] + self.lexer.remaining(),
            None => self.lexer.remaining(),
        }
    }

    /// A parser at the start of `source`.
    pub fn new(source: &'a str) -> (r: Self)
        ensures
            r.stream() == lex(source),
    {
        Parser { lexer: Lexer::new(source), peeked: None }
    }

    /// Parses a construct of kind `T` from the front of the tokens.
    pub fn parse<T: Parse>(&mut self) -> (r: Result<T, ParseError>)
        ensures
            T::parsed(old(self).stream(), r, final(self).stream()),
    {
        T::parse(self)
    }

    /// The next token, left in place.
    fn peek(&mut self) -> (r: Result<Option<Token<'a>>, ParseError>)
        ensures
            r is Ok ==> final(self).stream() == old(self).stream(),
            r matches Ok(None) ==> old(self).stream().len() == 0,
            r matches Ok(Some(t)) ==> old(self).stream().len() > 0 && old(self).stream()[0]
                == Lexeme::Token(t@),
            r is Err ==> old(self).stream().len() > 0 && old(self).stream()[0] == Lexeme::Invalid,
    {
        match self.peeked {
            Some(t) => Ok(Some(t)),
            None => match self.lexer.next() {
                None => Ok(None),
                Some(Err(_)) => Err(ParseError),
                Some(Ok(t)) => {
                    self.peeked = Some(t);
                    Ok(Some(t))
                },
            },
        }
    }

    /// The next token, consumed.
    fn advance(&mut self) -> (r: Result<Option<Token<'a>>, ParseError>)
        ensures
            r matches Ok(None) ==> old(self).stream().len() == 0,
            r matches Ok(Some(t)) ==> old(self).stream().len() > 0 && old(self).stream()[0]
                == Lexeme::Token(t@) && final(self).stream() == old(self).stream().drop_first(),
            r is Err ==> old(self).stream().len() > 0 && old(self).stream()[0] == Lexeme::Invalid,
    {
        match self.peeked {
            Some(t) => {
                self.peeked = None;
                assert(self.stream() =~= old(self).stream().drop_first());
                Ok(Some(t))
            },
            None => match self.lexer.next() {
                None => Ok(None),
                Some(Err(_)) => Err(ParseError),
                Some(Ok(t)) => {
                    assert(self.stream() =~= old(self).stream().drop_first());
                    Ok(Some(t))
                },
            },
        }
    }

    /// Parses an atom: a number, an identifier, or a prefix operator and an atom.
    pub fn parse_simple(&mut self) -> (r: Result<Expression, ParseError>)
        ensures
            match spec_simple(old(self).stream()) {
                Some((e, rest)) => r matches Ok(x) && x@ == e && final(self).stream() == rest,
                None => r is Err,
            },
            r is Ok ==> final(self).stream().len() < old(self).stream().len(),
        decreases old(self).stream().len(), 1nat,
    {
        match self.peek() {
            Ok(Some(Token::Add)) | Ok(Some(Token::Subtract)) => {
                let (operator, operand) = self.parse_unary()?;
                Ok(Expression::UnaryExpression(UnaryExpression { operator, operand: Box::new(operand) }))
            },
            Ok(Some(Token::Number(number))) => {
                let _ = self.advance();
                Ok(Expression::Number(Number { number }))
            },
            Ok(Some(Token::Identifier(word))) => {
                let _ = self.advance();
                Ok(Expression::Identifier(Identifier { identifier: word.to_owned() }))
            },
            _ => Err(ParseError),
        }
    }

    /// Parses a prefix operator and the atom after it.
    fn parse_unary(&mut self) -> (r: Result<(Operator, Expression), ParseError>)
        ensures
            match spec_unary(old(self).stream()) {
                Some((op, e, rest)) => r matches Ok((o, x)) && o == op && x@ == e
                    && final(self).stream() == rest,
                None => r is Err,
            },
            r is Ok ==> final(self).stream().len() < old(self).stream().len(),
        decreases old(self).stream().len(), 0nat,
    {
        let operator = match self.advance() {
            Ok(Some(t)) => match Operator::from_token(&t) {
                Some(op) => op,
                None => return Err(ParseError),
            },
            _ => return Err(ParseError),
        };
        match operator {
            Operator::Add | Operator::Subtract => {},
            _ => return Err(ParseError),
        }
        let operand = self.parse_simple()?;
        Ok((operator, operand))
    }

    /// Extends `left` with every following operator whose binding power is at
    /// least `min_binding_power`, binding tighter operators first.
    pub fn parse_nested(&mut self, left: Expression, min_binding_power: u8) -> (r: Result<
        Expression,
        ParseError,
    >)
        ensures
            match spec_nested(left@, min_binding_power, old(self).stream()) {
                Some((e, rest)) => r matches Ok(x) && x@ == e && final(self).stream() == rest,
                None => r is Err,
            },
            r is Ok ==> final(self).stream().len() <= old(self).stream().len(),
        decreases old(self).stream().len(),
    {
        let ghost goal = spec_nested(left@, min_binding_power, self.stream());
        let mut acc = left;
        loop
            invariant
                goal == spec_nested(left@, min_binding_power, old(self).stream()),
                spec_nested(acc@, min_binding_power, self.stream()) == goal,
                self.stream().len() <= old(self).stream().len(),
            decreases self.stream().len(),
        {
            let ghost cur = self.stream();
            let operator = match self.peek() {
                Err(e) => return Err(e),
                Ok(Some(t)) => match Operator::from_token(&t) {
                    Some(op) => op,
                    None => return Ok(acc),
                },
                Ok(None) => return Ok(acc),
            };
            let binding_power = operator.binding_power();
            if min_binding_power > binding_power {
                return Ok(acc);
            }
            let _ = self.advance();
            let right = self.parse_simple()?;
            let right = self.parse_nested(right, binding_power)?;
            acc = Expression::BinaryExpression(
                BinaryExpression { left: Box::new(acc), operator, right: Box::new(right) },
            );
        }
    }

    /// Parses a full expression: an atom extended with operators of any power.
    fn parse_expression(&mut self) -> (r: Result<Expression, ParseError>)
        ensures
            match spec_expression(old(self).stream()) {
                Some((e, rest)) => r matches Ok(x) && x@ == e && final(self).stream() == rest,
                None => r is Err,
            },
            r is Ok ==> final(self).stream().len() < old(self).stream().len(),
    {
        let left = self.parse_simple()?;
        self.parse_nested(left, 0)
    }
}


impl Parse for Program {
    open spec fn parsed(ts: Seq<Lexeme>, r: Result<Program, ParseError>, rest: Seq<Lexeme>) -> bool {
        match spec_program(ts) {
            Some(es) => r matches Ok(p) && p@ == es && rest.len() == 0,
            None => r is Err,
        }
    }

    fn parse(parser: &mut Parser) -> (r: Result<Program, ParseError>) {
        let ghost goal = spec_program(parser.stream());
        let mut body: Vec<Expression> = Vec::new();
        loop
            invariant
                goal == spec_program(old(parser).stream()),
                goal == match spec_program(parser.stream()) {
                    Some(es) => Some(body@.map_values(|e: Expression| e@) + es),
                    None => None,
                },
            decreases parser.stream().len(),
        {
            let ghost cur = parser.stream();
            let ghost done = body@;
            match parser.peek()? {
                Some(Token::Semicolon) => {
                    let _ = parser.advance();
                },
                Some(_) => {
                    let e = parser.parse_expression()?;
                    body.push(e);
                    proof {
                        let es = spec_program(parser.stream());
                        assert(body@.map_values(|e: Expression| e@) =~= done.map_values(
                            |e: Expression| e@,
                        ).push(e@));
                        if es is Some {
                            assert(body@.map_values(|e: Expression| e@) + es.unwrap()
                                =~= done.map_values(|e: Expression| e@) + (seq![e@] + es.unwrap()));
                        }
                    }
                },
                None => {
                    assert(body@.map_values(|e: Expression| e@) + Seq::<ExprView>::empty()
                        =~= body@.map_values(|e: Expression| e@));
                    return Ok(Program { body });
                },
            }
        }
    }
}

impl Parse for Identifier {
    open spec fn parsed(ts: Seq<Lexeme>, r: Result<Identifier, ParseError>, rest: Seq<Lexeme>) -> bool {
        match spec_identifier(ts) {
            Some((w, after)) => r matches Ok(i) && i@ == w && rest == after,
            None => r is Err,
        }
    }

    fn parse(parser: &mut Parser) -> (r: Result<Identifier, ParseError>) {
        match parser.advance() {
            Ok(Some(Token::Identifier(word))) => Ok(Identifier { identifier: word.to_owned() }),
            _ => Err(ParseError),
        }
    }
}

impl Parse for Number {
    open spec fn parsed(ts: Seq<Lexeme>, r: Result<Number, ParseError>, rest: Seq<Lexeme>) -> bool {
        match spec_number(ts) {
            Some((n, after)) => r == Ok::<Number, ParseError>(Number { number: n }) && rest == after,
            None => r is Err,
        }
    }

    fn parse(parser: &mut Parser) -> (r: Result<Number, ParseError>) {
        match parser.advance() {
            Ok(Some(Token::Number(number))) => Ok(Number { number }),
            _ => Err(ParseError),
        }
    }
}

impl Parse for Operator {
    open spec fn parsed(ts: Seq<Lexeme>, r: Result<Operator, ParseError>, rest: Seq<Lexeme>) -> bool {
        match spec_operator(ts) {
            Some((op, after)) => r == Ok::<Operator, ParseError>(op) && rest == after,
            None => r is Err,
        }
    }

    fn parse(parser: &mut Parser) -> (r: Result<Operator, ParseError>) {
        match parser.advance() {
            Ok(Some(t)) => match Operator::from_token(&t) {
                Some(op) => Ok(op),
                None => Err(ParseError),
            },
            _ => Err(ParseError),
        }
    }
}

impl Parse for UnaryExpression {
    open spec fn parsed(ts: Seq<Lexeme>, r: Result<UnaryExpression, ParseError>, rest: Seq<Lexeme>) -> bool {
        match spec_unary(ts) {
            Some((op, e, after)) => r matches Ok(u) && u.operator == op && u.operand@ == e
                && rest == after,
            None => r is Err,
        }
    }

    fn parse(parser: &mut Parser) -> (r: Result<UnaryExpression, ParseError>) {
        let (operator, operand) = parser.parse_unary()?;
        Ok(UnaryExpression { operator, operand: Box::new(operand) })
    }
}

impl Parse for Expression {
    open spec fn parsed(ts: Seq<Lexeme>, r: Result<Expression, ParseError>, rest: Seq<Lexeme>) -> bool {
        match spec_expression(ts) {
            Some((e, after)) => r matches Ok(x) && x@ == e && rest == after,
            None => r is Err,
        }
    }

    fn parse(parser: &mut Parser) -> (r: Result<Expression, ParseError>) {
        parser.parse_expression()
    }
}

impl Parse for BinaryExpression {
    open spec fn parsed(ts: Seq<Lexeme>, r: Result<BinaryExpression, ParseError>, rest: Seq<Lexeme>) -> bool {
        match spec_binary(ts) {
            Some((e, after)) => r matches Ok(b) && Expression::BinaryExpression(b)@ == e
                && rest == after,
            None => r is Err,
        }
    }

    fn parse(parser: &mut Parser) -> (r: Result<BinaryExpression, ParseError>) {
        match parser.parse_expression()? {
            Expression::BinaryExpression(b) => Ok(b),
            _ => Err(ParseError),
        }
    }
}

} // verus!
