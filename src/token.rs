use vstd::prelude::*;

use crate::literals::{LiteralView, Literals};
use crate::token_type::TokenType;

verus! {

/// One classified unit of the input.
#[derive(Debug)]
pub struct Token {
    token_type: TokenType,
    literal: Literals,
    lexeme: Option<String>,
    line: usize,
}

/// The mathematical value of a [`Token`].
pub struct TokenView {
    pub kind: TokenType,
    pub value: LiteralView,
    pub lexeme: Option<Seq<char>>,
    pub line: nat,
}

pub open spec fn option_text_view(o: Option<String>) -> Option<Seq<char>> {
    match o {
        Some(s) => Some(s@),
        None => None,
    }
}

impl View for Token {
    type V = TokenView;

    closed spec fn view(&self) -> TokenView {
        TokenView {
            kind: self.token_type,
            value: self.literal@,
            lexeme: option_text_view(self.lexeme),
            line: self.line as nat,
        }
    }
}

impl Token {
    pub fn new(token_type: TokenType, literal: Literals, lexeme: Option<String>, line: usize) -> (r:
        Self)
        ensures
            r@ == (TokenView {
                kind: token_type,
                value: literal@,
                lexeme: option_text_view(lexeme),
                line: line as nat,
            }),
    {
        Token { token_type, literal, lexeme, line }
    }

    pub fn token_type(&self) -> (r: TokenType)
        ensures
            r == self@.kind,
    {
        self.token_type
    }

    pub fn literal(&self) -> (r: &Literals)
        ensures
            r@ == self@.value,
    {
        &self.literal
    }

    pub fn lexeme(&self) -> (r: &Option<String>)
        ensures
            option_text_view(*r) == self@.lexeme,
    {
        &self.lexeme
    }

    pub fn line(&self) -> (r: usize)
        ensures
            r as nat == self@.line,
    {
        self.line
    }
}

} // verus!
