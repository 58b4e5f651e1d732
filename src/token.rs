use vstd::prelude::*;
use vstd::string::StringSliceAdditionalSpecFns;

verus! {

/// A token of the language. An identifier borrows its text from the source.
#[derive(PartialEq, Debug, Clone, Copy)]
pub enum Token<'source> {
    /// A maximal run of ASCII letters.
    Identifier(&'source str),
    /// A maximal run of decimal digits.
    Number(u64),
    /// `+`
    Add,
    /// `-`
    Subtract,
    /// `*`
    Multiply,
    /// `/`
    Divide,
    /// `=`
    Assign,
    /// `;`
    Semicolon,
}

/// The mathematical value of a token: an identifier is its bytes.
pub enum TokenView {
    Identifier(Seq<u8>),
    Number(u64),
    Add,
    Subtract,
    Multiply,
    Divide,
    Assign,
    Semicolon,
}

impl<'source> View for Token<'source> {
    type V = TokenView;

    open spec fn view(&self) -> TokenView {
        match *self {
            Token::Identifier(s) => TokenView::Identifier(s.spec_bytes()),
            Token::Number(n) => TokenView::Number(n),
            Token::Add => TokenView::Add,
            Token::Subtract => TokenView::Subtract,
            Token::Multiply => TokenView::Multiply,
            Token::Divide => TokenView::Divide,
            Token::Assign => TokenView::Assign,
            Token::Semicolon => TokenView::Semicolon,
        }
    }
}

impl TokenView {
    /// One of `+ - * / =`.
    pub open spec fn is_operator(self) -> bool {
        match self {
            TokenView::Add | TokenView::Subtract | TokenView::Multiply | TokenView::Divide
            | TokenView::Assign => true,
            _ => false,
        }
    }
}

impl<'source> Token<'source> {
    /// Whether the token is one of `+ - * / =`.
    pub fn is_operator(&self) -> (r: bool)
        ensures
            r == self@.is_operator(),
    {
        match self {
            Token::Add | Token::Subtract | Token::Multiply | Token::Divide | Token::Assign => true,
            _ => false,
        }
    }
}

} // verus!
