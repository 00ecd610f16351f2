//! The tokens that the lexer makes and the parser reads.

use vstd::prelude::*;
use vstd::std_specs::cmp::PartialEqSpecImpl;

verus! {

/// The smallest lexical unit of the source language.
///
/// Tokens carry no position: a token is located by its index in the sequence
/// that the lexer produced.
#[derive(Debug)]
pub enum Token {
    /// One of the reserved words, met directly before an opening parenthesis.
    Keyword(String),
    /// A name.
    Identifier(String),
    Comma,
    LeftPar,
    RightPar,
    LeftBrace,
    RightBrace,
    /// An integer literal.
    Number(i32),
    /// An arithmetic or comparison operator, or the bare `=` of an assignment.
    Operator(String),
    Terminator,
}

/// The mathematical value of a [`Token`]: its texts are sequences of characters.
pub enum TokenView {
    Keyword(Seq<char>),
    Identifier(Seq<char>),
    Comma,
    LeftPar,
    RightPar,
    LeftBrace,
    RightBrace,
    Number(i32),
    Operator(Seq<char>),
    Terminator,
}

impl View for Token {
    type V = TokenView;

    open spec fn view(&self) -> TokenView {
        match self {
            Token::Keyword(text) => TokenView::Keyword(text@),
            Token::Identifier(text) => TokenView::Identifier(text@),
            Token::Comma => TokenView::Comma,
            Token::LeftPar => TokenView::LeftPar,
            Token::RightPar => TokenView::RightPar,
            Token::LeftBrace => TokenView::LeftBrace,
            Token::RightBrace => TokenView::RightBrace,
            Token::Number(value) => TokenView::Number(*value),
            Token::Operator(text) => TokenView::Operator(text@),
            Token::Terminator => TokenView::Terminator,
        }
    }
}

/// The values of a sequence of tokens, in order.
pub open spec fn token_views(tokens: Seq<Token>) -> Seq<TokenView> {
    Seq::new(tokens.len(), |i: int| tokens[i]@)
}

impl Clone for Token {
    fn clone(&self) -> (copy: Self)
        ensures
            copy == *self,
    {
        match self {
            Token::Keyword(text) => Token::Keyword(text.clone()),
            Token::Identifier(text) => Token::Identifier(text.clone()),
            Token::Comma => Token::Comma,
            Token::LeftPar => Token::LeftPar,
            Token::RightPar => Token::RightPar,
            Token::LeftBrace => Token::LeftBrace,
            Token::RightBrace => Token::RightBrace,
            Token::Number(value) => Token::Number(*value),
            Token::Operator(text) => Token::Operator(text.clone()),
            Token::Terminator => Token::Terminator,
        }
    }
}

impl PartialEq for Token {
    /// Two tokens are equal when they are of the same kind and carry the same text or number.
    fn eq(&self, other: &Token) -> (equal: bool) {
        match (self, other) {
            (Token::Keyword(a), Token::Keyword(b)) => *a == *b,
            (Token::Identifier(a), Token::Identifier(b)) => *a == *b,
            (Token::Comma, Token::Comma) => true,
            (Token::LeftPar, Token::LeftPar) => true,
            (Token::RightPar, Token::RightPar) => true,
            (Token::LeftBrace, Token::LeftBrace) => true,
            (Token::RightBrace, Token::RightBrace) => true,
            (Token::Number(a), Token::Number(b)) => *a == *b,
            (Token::Operator(a), Token::Operator(b)) => *a == *b,
            (Token::Terminator, Token::Terminator) => true,
            _ => false,
        }
    }
}

impl PartialEqSpecImpl for Token {
    open spec fn obeys_eq_spec() -> bool {
        true
    }

    open spec fn eq_spec(&self, other: &Token) -> bool {
        self@ == other@
    }
}

} // verus!
