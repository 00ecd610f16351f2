//! The failures of the translation. A failure is a value: it says what went
//! wrong and where, and nothing of a result comes with it.

use vstd::prelude::*;

verus! {

/// Why the lexer gave up.
#[derive(Debug, Clone, Copy, PartialEq, Eq, Structural)]
pub enum LexErrorKind {
    /// A `!` that is not the first character of `!=`.
    UndefinedToken,
    /// A character that belongs to no token and is not whitespace.
    UnrecognizedCharacter,
}

/// A failure of lexical analysis: what went wrong, and at which character of
/// the source (counted in characters, from zero).
#[derive(Debug, Clone, Copy, PartialEq, Eq, Structural)]
pub struct LexError {
    pub kind: LexErrorKind,
    pub offset: usize,
}

/// Which rule of the grammar the tokens broke.
#[derive(Debug, Clone, Copy, PartialEq, Eq, Structural)]
pub enum ParseErrorKind {
    /// A statement must begin with an identifier or a keyword.
    ExpectedStatement,
    /// The name in a definition is not followed by `=`.
    ExpectedAssign,
    /// A statement is not closed by `;`.
    ExpectedTerminator,
    /// An operand is neither a number, a name nor a parenthesised expression.
    ExpectedPrimary,
    /// A keyword other than `return`, `if` and `for`.
    UnknownKeyword,
    ExpectedLeftPar,
    ExpectedRightPar,
    ExpectedLeftBrace,
    ExpectedRightBrace,
    ExpectedComma,
    /// The loop variable of a `for` is missing.
    ExpectedIdentifier,
}

/// A failure of syntactic analysis: the rule that was broken and the index of
/// the offending token. Where the tokens end too early, the index is the
/// number of tokens.
#[derive(Debug, Clone, Copy, PartialEq, Eq, Structural)]
pub struct ParseError {
    pub kind: ParseErrorKind,
    pub index: usize,
}

/// A failure of the whole translation, from either stage that can fail.
#[derive(Debug, Clone, Copy, PartialEq, Eq, Structural)]
pub enum TranslateError {
    Lex(LexError),
    Parse(ParseError),
}

impl LexErrorKind {
    /// The text of the message for this kind of failure.
    pub open spec fn message_text(self) -> Seq<char> {
        match self {
            LexErrorKind::UndefinedToken => "undefined token"@,
            LexErrorKind::UnrecognizedCharacter => "unrecognized character"@,
        }
    }
}

impl LexError {
    /// A human-readable account of the failure.
    pub fn message(&self) -> (text: String)
        ensures
            text@ == self.kind.message_text(),
    {
        match self.kind {
            LexErrorKind::UndefinedToken => "undefined token".to_owned(),
            LexErrorKind::UnrecognizedCharacter => "unrecognized character".to_owned(),
        }
    }
}

impl ParseErrorKind {
    /// The text of the message for this kind of failure.
    pub open spec fn message_text(self) -> Seq<char> {
        match self {
            ParseErrorKind::ExpectedStatement => "expected statement"@,
            ParseErrorKind::ExpectedAssign => "expected '='"@,
            ParseErrorKind::ExpectedTerminator => "expected terminator"@,
            ParseErrorKind::ExpectedPrimary => "expected primary expression"@,
            ParseErrorKind::UnknownKeyword => "unknown keyword"@,
            ParseErrorKind::ExpectedLeftPar => "expected '('"@,
            ParseErrorKind::ExpectedRightPar => "expected ')'"@,
            ParseErrorKind::ExpectedLeftBrace => "expected '{'"@,
            ParseErrorKind::ExpectedRightBrace => "expected '}'"@,
            ParseErrorKind::ExpectedComma => "expected ','"@,
            ParseErrorKind::ExpectedIdentifier => "expected identifier"@,
        }
    }
}

impl ParseError {
    /// A human-readable account of the failure.
    pub fn message(&self) -> (text: String)
        ensures
            text@ == self.kind.message_text(),
    {
        match self.kind {
            ParseErrorKind::ExpectedStatement => "expected statement".to_owned(),
            ParseErrorKind::ExpectedAssign => "expected '='".to_owned(),
            ParseErrorKind::ExpectedTerminator => "expected terminator".to_owned(),
            ParseErrorKind::ExpectedPrimary => "expected primary expression".to_owned(),
            ParseErrorKind::UnknownKeyword => "unknown keyword".to_owned(),
            ParseErrorKind::ExpectedLeftPar => "expected '('".to_owned(),
            ParseErrorKind::ExpectedRightPar => "expected ')'".to_owned(),
            ParseErrorKind::ExpectedLeftBrace => "expected '{'".to_owned(),
            ParseErrorKind::ExpectedRightBrace => "expected '}'".to_owned(),
            ParseErrorKind::ExpectedComma => "expected ','".to_owned(),
            ParseErrorKind::ExpectedIdentifier => "expected identifier".to_owned(),
        }
    }
}

impl TranslateError {
    /// The text of the message of the underlying failure.
    pub open spec fn message_text(self) -> Seq<char> {
        match self {
            TranslateError::Lex(error) => error.kind.message_text(),
            TranslateError::Parse(error) => error.kind.message_text(),
        }
    }

    /// Where the failure lies: a character offset for a lexical failure, a
    /// token index for a syntactic one.
    pub open spec fn location(self) -> usize {
        match self {
            TranslateError::Lex(error) => error.offset,
            TranslateError::Parse(error) => error.index,
        }
    }

    /// A human-readable account of the failure.
    pub fn message(&self) -> (text: String)
        ensures
            text@ == self.message_text(),
    {
        match self {
            TranslateError::Lex(error) => error.message(),
            TranslateError::Parse(error) => error.message(),
        }
    }

    /// The position that the failure reports.
    pub fn position(&self) -> (at: usize)
        ensures
            at == self.location(),
    {
        match self {
            TranslateError::Lex(error) => error.offset,
            TranslateError::Parse(error) => error.index,
        }
    }
}

} // verus!
