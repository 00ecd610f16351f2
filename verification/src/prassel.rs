//! The parser: recursive descent over the statements, precedence climbing
//! over the expressions. It reads the tokens once, from left to right, with
//! one token of lookahead, and stops at the first error.

use crate::ast::{
    lemma_body_views, statement_views, Expression, Program, Statement, StatementView,
};
use crate::climbing::{
    lemma_chains_begin_at_operator, lemma_chains_without_operator, lemma_tier_is_primary_and_chains,
    lemma_tier_stops, parse_chains,
};
use crate::error::{ParseError, ParseErrorKind};
use crate::grammar;
use crate::grammar::{
    advance, failure, found, precedence, precedence_at, remaining, success, token_at, Parsed,
};
use crate::text::text_is;
use crate::token::{token_views, Token, TokenView};
use vstd::prelude::*;

verus! {

/// A cursor over a sequence of tokens.
pub struct Parser {
    tokens: Vec<Token>,
    pos: usize,
}

/// The tier of a binary operator, from the table of precedences; zero for
/// any other text.
pub fn binary_precedence(operator: &String) -> (tier: u8)
    ensures
        tier == precedence(operator@),
{
    if text_is(operator, "*") || text_is(operator, "/") {
        3
    } else if text_is(operator, "+") || text_is(operator, "-") {
        2
    } else if text_is(operator, "==") || text_is(operator, "!=") || text_is(operator, "<")
        || text_is(operator, ">") || text_is(operator, "<=") || text_is(operator, ">=") {
        1
    } else {
        0
    }
}

impl Parser {
    /// The values of the tokens that the parser reads.
    pub closed spec fn tokens(&self) -> Seq<TokenView> {
        token_views(self.tokens@)
    }

    /// The index of the token that the parser reads next.
    pub closed spec fn position(&self) -> int {
        self.pos as int
    }

    /// The cursor lies within the tokens or directly behind them.
    pub closed spec fn well_formed(&self) -> bool {
        self.pos <= self.tokens.len()
    }

    /// The same tokens as `before`, with a cursor that is still in order and
    /// has not moved back.
    spec fn follows(&self, before: &Parser) -> bool {
        &&& self.tokens == before.tokens
        &&& self.well_formed()
        &&& before.pos <= self.pos
    }

    /// Whether the parser, having started as `before`, has done what a rule
    /// of the grammar yields: on success it holds the rule's value and stands
    /// behind the tokens consumed; on failure it reports the rule's error.
    spec fn yields<T: View>(
        &self,
        before: &Parser,
        outcome: Result<T, ParseError>,
        rule: Parsed<T::V>,
    ) -> bool {
        &&& self.follows(before)
        &&& match rule {
            Ok((value, consumed)) => {
                &&& outcome is Ok
                &&& outcome->Ok_0@ == value
                &&& self.pos == before.pos + consumed
            },
            Err(error) => outcome == Err::<T, ParseError>(error),
        }
    }

    /// A parser at the first of the given tokens.
    pub fn new(tokens: Vec<Token>) -> (parser: Self)
        ensures
            parser.tokens() == token_views(tokens@),
            parser.position() == 0,
            parser.well_formed(),
    {
        Parser { tokens, pos: 0 }
    }

    /// The token under the cursor, if the cursor has not passed the last.
    fn current_token(&self) -> (token: Option<&Token>)
        requires
            self.well_formed(),
        ensures
            match token {
                Some(token) => {
                    &&& self.pos < self.tokens.len()
                    &&& *token == self.tokens[self.pos as int]
                    &&& token_at(self.tokens(), self.pos as int) == Some(token@)
                },
                None => token_at(self.tokens(), self.pos as int) is None,
            },
    {
        if self.pos < self.tokens.len() {
            Some(&self.tokens[self.pos])
        } else {
            None
        }
    }

    /// Hands out the token under the cursor and moves the cursor past it.
    fn get_token(&mut self) -> (token: Option<Token>)
        requires
            old(self).well_formed(),
        ensures
            final(self).follows(old(self)),
            match token {
                Some(token) => {
                    &&& token_at(old(self).tokens(), old(self).pos as int) == Some(token@)
                    &&& final(self).pos == old(self).pos + 1
                },
                None => {
                    &&& token_at(old(self).tokens(), old(self).pos as int) is None
                    &&& final(self).pos == old(self).pos
                },
            },
    {
        if self.pos < self.tokens.len() {
            let token = self.tokens[self.pos].clone();
            self.pos = self.pos + 1;
            Some(token)
        } else {
            None
        }
    }

    /// Moves past the token under the cursor if it is `expected`; reports an
    /// error of the given kind otherwise, and leaves the cursor where it is.
    fn expect(&mut self, expected: &Token, kind: ParseErrorKind) -> (outcome: Result<
        (),
        ParseError,
    >)
        requires
            old(self).well_formed(),
        ensures
            final(self).follows(old(self)),
            if found(old(self).tokens(), old(self).pos as int, expected@) {
                &&& outcome is Ok
                &&& final(self).pos == old(self).pos + 1
            } else {
                &&& outcome == Err::<(), ParseError>(failure(kind, old(self).pos as int))
                &&& final(self).pos == old(self).pos
            },
    {
        let matches = match self.current_token() {
            Some(token) => *token == *expected,
            None => false,
        };
        if matches {
            self.pos = self.pos + 1;
            Ok(())
        } else {
            Err(ParseError { kind, index: self.pos })
        }
    }

    /// Reads a number, a name, or an expression in parentheses.
    fn parse_primary(&mut self) -> (outcome: Result<Expression, ParseError>)
        requires
            old(self).well_formed(),
        ensures
            final(self).yields(
                old(self),
                outcome,
                grammar::parse_primary(old(self).tokens(), old(self).pos as int),
            ),
        decreases remaining(old(self).tokens(), old(self).pos as int), 0nat,
    {
        let start = self.pos;
        match self.get_token() {
            Some(Token::Number(value)) => Ok(Expression::Number(value)),
            Some(Token::Identifier(name)) => Ok(Expression::Identifier(name)),
            Some(Token::LeftPar) => {
                let inner = match self.parse_expression(1) {
                    Ok(inner) => inner,
                    Err(error) => {
                        return Err(error);
                    },
                };
                match self.expect(&Token::RightPar, ParseErrorKind::ExpectedRightPar) {
                    Ok(()) => Ok(inner),
                    Err(error) => Err(error),
                }
            },
            _ => Err(ParseError { kind: ParseErrorKind::ExpectedPrimary, index: start }),
        }
    }

    /// Reads an expression whose operators all bind at least as tightly as
    /// `min`, by precedence climbing: after the first operand, each operator
    /// of a sufficient tier takes as its right operand an expression of the
    /// tiers above its own, and as its left operand all that was read before.
    fn parse_expression(&mut self, min: u8) -> (outcome: Result<Expression, ParseError>)
        requires
            old(self).well_formed(),
            1 <= min <= 4,
        ensures
            final(self).yields(
                old(self),
                outcome,
                grammar::parse_tier(old(self).tokens(), old(self).pos as int, min as nat),
            ),
        decreases remaining(old(self).tokens(), old(self).pos as int), 1nat,
    {
        let ghost tokens = self.tokens();
        let ghost start = self.pos as int;
        proof {
            lemma_tier_is_primary_and_chains(tokens, start, min as nat);
        }
        let mut left = match self.parse_primary() {
            Ok(first) => first,
            Err(error) => {
                return Err(error);
            },
        };
        let ghost mut top: nat = 3;
        loop
            invariant
                self.follows(old(self)),
                tokens == old(self).tokens(),
                start == old(self).pos,
                1 <= min <= 4,
                start < self.pos,
                start < tokens.len(),
                top <= 3,
                precedence_at(tokens, self.pos as int) <= top,
                grammar::parse_tier(tokens, start, min as nat) == advance(
                    parse_chains(tokens, self.pos as int, top, min as nat, left@),
                    (self.pos - start) as nat,
                ),
            ensures
                self.follows(old(self)),
                grammar::parse_tier(tokens, start, min as nat) == success(
                    left@,
                    (self.pos - start) as nat,
                ),
            decreases remaining(tokens, self.pos as int),
        {
            let next = match self.current_token() {
                Some(Token::Operator(text)) => {
                    let tier = binary_precedence(text);
                    if tier >= min && tier >= 1 {
                        Some((text.clone(), tier))
                    } else {
                        None
                    }
                },
                _ => None,
            };
            let (operator, tier) = match next {
                Some(found) => found,
                None => {
                    proof {
                        lemma_chains_without_operator(
                            tokens,
                            self.pos as int,
                            top,
                            min as nat,
                            left@,
                        );
                    }
                    break ;
                },
            };
            proof {
                lemma_chains_begin_at_operator(tokens, self.pos as int, top, min as nat, left@);
                lemma_tier_stops(tokens, self.pos + 1, (tier + 1) as nat);
            }
            self.pos = self.pos + 1;
            let right = match self.parse_expression(tier + 1) {
                Ok(right) => right,
                Err(error) => {
                    return Err(error);
                },
            };
            left = Expression::BinaryOp { operator, left: Box::new(left), right: Box::new(right) };
            proof {
                top = tier as nat;
            }
        }
        Ok(left)
    }

    /// Reads a definition: a name, `=`, and the expression for its value.
    fn parse_definition(&mut self) -> (outcome: Result<Statement, ParseError>)
        requires
            old(self).well_formed(),
        ensures
            final(self).yields(
                old(self),
                outcome,
                grammar::parse_definition(old(self).tokens(), old(self).pos as int),
            ),
    {
        let start = self.pos;
        let identifier = match self.get_token() {
            Some(Token::Identifier(name)) => name,
            _ => {
                return Err(ParseError { kind: ParseErrorKind::ExpectedIdentifier, index: start });
            },
        };
        let assign = Token::Operator("=".to_owned());
        match self.expect(&assign, ParseErrorKind::ExpectedAssign) {
            Ok(()) => {},
            Err(error) => {
                return Err(error);
            },
        }
        let value = match self.parse_expression(1) {
            Ok(value) => value,
            Err(error) => {
                return Err(error);
            },
        };
        Ok(Statement::Definition { identifier, value })
    }

    /// Reads what follows the head of a conditional or loop: `)`, `{`, the
    /// statements of the body, and `}`.
    fn parse_body(&mut self) -> (outcome: Result<Vec<Statement>, ParseError>)
        requires
            old(self).well_formed(),
        ensures
            final(self).yields_block(
                old(self),
                outcome,
                grammar::parse_body(old(self).tokens(), old(self).pos as int),
            ),
        decreases remaining(old(self).tokens(), old(self).pos as int), 0nat,
    {
        match self.expect(&Token::RightPar, ParseErrorKind::ExpectedRightPar) {
            Ok(()) => {},
            Err(error) => {
                return Err(error);
            },
        }
        match self.expect(&Token::LeftBrace, ParseErrorKind::ExpectedLeftBrace) {
            Ok(()) => {},
            Err(error) => {
                return Err(error);
            },
        }
        let block = match self.parse_block() {
            Ok(block) => block,
            Err(error) => {
                return Err(error);
            },
        };
        match self.expect(&Token::RightBrace, ParseErrorKind::ExpectedRightBrace) {
            Ok(()) => Ok(block),
            Err(error) => Err(error),
        }
    }

    /// Reads a control statement: the keyword, `(`, and what the keyword
    /// asks for. An unknown keyword is reported only when `(` follows it.
    fn parse_keyword(&mut self) -> (outcome: Result<Statement, ParseError>)
        requires
            old(self).well_formed(),
        ensures
            final(self).yields(
                old(self),
                outcome,
                grammar::parse_keyword(old(self).tokens(), old(self).pos as int),
            ),
        decreases remaining(old(self).tokens(), old(self).pos as int), 1nat,
    {
        let start = self.pos;
        let word = match self.get_token() {
            Some(Token::Keyword(word)) => word,
            _ => {
                return Err(ParseError { kind: ParseErrorKind::ExpectedStatement, index: start });
            },
        };
        match self.expect(&Token::LeftPar, ParseErrorKind::ExpectedLeftPar) {
            Ok(()) => {},
            Err(error) => {
                return Err(error);
            },
        }
        if text_is(&word, "return") {
            let value = match self.parse_expression(1) {
                Ok(value) => value,
                Err(error) => {
                    return Err(error);
                },
            };
            match self.expect(&Token::RightPar, ParseErrorKind::ExpectedRightPar) {
                Ok(()) => Ok(Statement::Return(value)),
                Err(error) => Err(error),
            }
        } else if text_is(&word, "if") {
            let condition = match self.parse_expression(1) {
                Ok(condition) => condition,
                Err(error) => {
                    return Err(error);
                },
            };
            let block = match self.parse_body() {
                Ok(block) => block,
                Err(error) => {
                    return Err(error);
                },
            };
            let statement = Statement::If { condition, block: Box::new(block) };
            proof {
                lemma_body_views(statement);
            }
            Ok(statement)
        } else if text_is(&word, "for") {
            let at = self.pos;
            let index = match self.get_token() {
                Some(Token::Identifier(name)) => name,
                _ => {
                    return Err(ParseError { kind: ParseErrorKind::ExpectedIdentifier, index: at });
                },
            };
            match self.expect(&Token::Comma, ParseErrorKind::ExpectedComma) {
                Ok(()) => {},
                Err(error) => {
                    return Err(error);
                },
            }
            let expression = match self.parse_expression(1) {
                Ok(expression) => expression,
                Err(error) => {
                    return Err(error);
                },
            };
            let block = match self.parse_body() {
                Ok(block) => block,
                Err(error) => {
                    return Err(error);
                },
            };
            let statement = Statement::For { index, expression, block: Box::new(block) };
            proof {
                lemma_body_views(statement);
            }
            Ok(statement)
        } else {
            Err(ParseError { kind: ParseErrorKind::UnknownKeyword, index: start })
        }
    }

    /// Reads one statement and the `;` that closes it. The kind of the first
    /// token decides which statement it is.
    fn parse_statement(&mut self) -> (outcome: Result<Statement, ParseError>)
        requires
            old(self).well_formed(),
        ensures
            final(self).yields(
                old(self),
                outcome,
                grammar::parse_statement(old(self).tokens(), old(self).pos as int),
            ),
        decreases remaining(old(self).tokens(), old(self).pos as int), 2nat,
    {
        let parsed = match self.current_token() {
            Some(Token::Keyword(_)) => self.parse_keyword(),
            Some(Token::Identifier(_)) => self.parse_definition(),
            _ => Err(ParseError { kind: ParseErrorKind::ExpectedStatement, index: self.pos }),
        };
        let statement = match parsed {
            Ok(statement) => statement,
            Err(error) => {
                return Err(error);
            },
        };
        match self.expect(&Token::Terminator, ParseErrorKind::ExpectedTerminator) {
            Ok(()) => Ok(statement),
            Err(error) => Err(error),
        }
    }

    /// Whether the parser, having started as `before`, has done what a rule
    /// for a run of statements yields.
    spec fn yields_block(
        &self,
        before: &Parser,
        outcome: Result<Vec<Statement>, ParseError>,
        rule: Parsed<Seq<StatementView>>,
    ) -> bool {
        &&& self.follows(before)
        &&& match rule {
            Ok((block, consumed)) => {
                &&& outcome is Ok
                &&& statement_views(outcome->Ok_0@) == block
                &&& self.pos == before.pos + consumed
            },
            Err(error) => outcome == Err::<Vec<Statement>, ParseError>(error),
        }
    }

    /// Reads statements up to the end of the tokens or to a `}`, which it
    /// leaves under the cursor.
    fn parse_block(&mut self) -> (outcome: Result<Vec<Statement>, ParseError>)
        requires
            old(self).well_formed(),
        ensures
            final(self).yields_block(
                old(self),
                outcome,
                grammar::parse_block(old(self).tokens(), old(self).pos as int),
            ),
        decreases remaining(old(self).tokens(), old(self).pos as int), 3nat,
    {
        let ghost tokens = self.tokens();
        let ghost start = self.pos as int;
        let mut statements: Vec<Statement> = Vec::new();
        loop
            invariant
                self.follows(old(self)),
                tokens == old(self).tokens(),
                start == old(self).pos,
                start <= self.pos,
                match grammar::parse_block(tokens, self.pos as int) {
                    Ok((rest, more)) => grammar::parse_block(tokens, start) == success(
                        statement_views(statements@) + rest,
                        (self.pos - start + more) as nat,
                    ),
                    Err(error) => grammar::parse_block(tokens, start) == Err::<
                        (Seq<StatementView>, nat),
                        _,
                    >(error),
                },
            ensures
                self.follows(old(self)),
                grammar::parse_block(tokens, start) == success(
                    statement_views(statements@),
                    (self.pos - start) as nat,
                ),
            decreases remaining(tokens, self.pos as int),
        {
            let ends = match self.current_token() {
                None => true,
                Some(Token::RightBrace) => true,
                _ => false,
            };
            if ends {
                break ;
            }
            let statement = match self.parse_statement() {
                Ok(statement) => statement,
                Err(error) => {
                    return Err(error);
                },
            };
            proof {
                let rest = grammar::parse_block(tokens, self.pos as int);
                if rest is Ok {
                    assert(statement_views(statements@.push(statement)) + rest->Ok_0.0
                        =~= statement_views(statements@) + (seq![statement@] + rest->Ok_0.0));
                }
            }
            statements.push(statement);
        }
        Ok(statements)
    }

    /// Reads a whole program: statements up to the end of the tokens. Nothing
    /// is handed out unless every token has been read as part of a statement.
    pub fn parse_program(&mut self) -> (outcome: Result<Program, ParseError>)
        requires
            old(self).well_formed(),
        ensures
            final(self).well_formed(),
            final(self).tokens() == old(self).tokens(),
            old(self).position() <= final(self).position(),
            match grammar::parse_program(old(self).tokens(), old(self).position()) {
                Ok(statements) => {
                    &&& outcome is Ok
                    &&& outcome->Ok_0@ == statements
                    &&& final(self).position() == old(self).tokens().len()
                },
                Err(error) => outcome == Err::<Program, ParseError>(error),
            },
    {
        let statements = match self.parse_block() {
            Ok(statements) => statements,
            Err(error) => {
                return Err(error);
            },
        };
        if self.pos < self.tokens.len() {
            Err(ParseError { kind: ParseErrorKind::ExpectedStatement, index: self.pos })
        } else {
            Ok(Program { statements })
        }
    }
}

} // verus!
