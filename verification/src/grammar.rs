//! The meaning of the grammar: what each rule yields on a sequence of tokens,
//! from a given position.
//!
//! ```text
//! program    := statement*
//! statement  := ( definition | keyword ) ';'
//! definition := identifier '=' expression
//! keyword    := 'return' '(' expression ')'
//!             | 'if' '(' expression ')' '{' statement* '}'
//!             | 'for' '(' identifier ',' expression ')' '{' statement* '}'
//! expression := comparison
//! comparison := additive ( ('=='|'!='|'<'|'>'|'<='|'>=') additive )*
//! additive   := term ( ('+'|'-') term )*
//! term       := primary ( ('*'|'/') primary )*
//! primary    := number | identifier | '(' expression ')'
//! ```
//!
//! A rule that succeeds yields a value and the number of tokens that it took;
//! one that fails yields the first error met when reading from left to right.

use crate::ast::{ExpressionView, StatementView};
use crate::error::{ParseError, ParseErrorKind};
use crate::token::TokenView;
use vstd::prelude::*;

verus! {

/// What a rule yields: a value and the number of tokens consumed, or an error.
pub type Parsed<T> = Result<(T, nat), ParseError>;

/// The token at `pos`, if there is one.
pub open spec fn token_at(tokens: Seq<TokenView>, pos: int) -> Option<TokenView> {
    if 0 <= pos < tokens.len() {
        Some(tokens[pos])
    } else {
        None
    }
}

/// Whether the token at `pos` is `expected`.
pub open spec fn found(tokens: Seq<TokenView>, pos: int, expected: TokenView) -> bool {
    token_at(tokens, pos) == Some(expected)
}

/// How far `pos` is from the end of the tokens.
pub open spec fn remaining(tokens: Seq<TokenView>, pos: int) -> nat {
    if pos < tokens.len() {
        (tokens.len() - pos) as nat
    } else {
        0
    }
}

/// The error of the given kind at token `index`.
pub open spec fn failure(kind: ParseErrorKind, index: int) -> ParseError {
    ParseError { kind, index: index as usize }
}

/// The outcome of a rule that yields `value` from `consumed` tokens.
pub open spec fn success<T>(value: T, consumed: nat) -> Parsed<T> {
    Ok((value, consumed))
}

/// The same outcome, with `by` more tokens counted as consumed.
pub open spec fn advance<T>(outcome: Parsed<T>, by: nat) -> Parsed<T> {
    match outcome {
        Ok((value, consumed)) => Ok((value, by + consumed)),
        Err(error) => Err(error),
    }
}

/// How tightly a binary operator binds, in three tiers: comparisons in the
/// first, `+` and `-` in the second, `*` and `/` in the third; a higher tier
/// binds tighter. Zero for a text that is no binary operator, such as the `=`
/// of an assignment.
pub open spec fn precedence(operator: Seq<char>) -> nat {
    if operator == "*"@ || operator == "/"@ {
        3
    } else if operator == "+"@ || operator == "-"@ {
        2
    } else if operator == "=="@ || operator == "!="@ || operator == "<"@ || operator == ">"@
        || operator == "<="@ || operator == ">="@ {
        1
    } else {
        0
    }
}

/// The tier of the binary operator at `pos`; zero where no binary operator
/// stands there.
pub open spec fn precedence_at(tokens: Seq<TokenView>, pos: int) -> nat {
    match token_at(tokens, pos) {
        Some(TokenView::Operator(operator)) => precedence(operator),
        _ => 0,
    }
}

/// The binary operator of the given tier at `pos`, if one stands there.
pub open spec fn operator_at(tokens: Seq<TokenView>, pos: int, tier: nat) -> Option<Seq<char>> {
    match token_at(tokens, pos) {
        Some(TokenView::Operator(operator)) => if tier >= 1 && precedence(operator) == tier {
            Some(operator)
        } else {
            None
        },
        _ => None,
    }
}

/// `primary := number | identifier | '(' expression ')'`
pub open spec fn parse_primary(tokens: Seq<TokenView>, pos: int) -> Parsed<ExpressionView>
    decreases remaining(tokens, pos), 0nat,
{
    match token_at(tokens, pos) {
        Some(TokenView::Number(value)) => Ok((ExpressionView::Number(value), 1)),
        Some(TokenView::Identifier(name)) => Ok((ExpressionView::Identifier(name), 1)),
        Some(TokenView::LeftPar) => match parse_tier(tokens, pos + 1, 1) {
            Ok((inner, consumed)) => if found(tokens, pos + 1 + consumed, TokenView::RightPar) {
                Ok((inner, consumed + 2))
            } else {
                Err(failure(ParseErrorKind::ExpectedRightPar, pos + 1 + consumed))
            },
            Err(error) => Err(error),
        },
        _ => Err(failure(ParseErrorKind::ExpectedPrimary, pos)),
    }
}

/// The rule of one tier: an operand of the next tier, then any number of
/// pairs of an operator of this tier and a further operand, grouped from the
/// left. The first tier is `comparison`, the second `additive`, the third
/// `term`; above the highest tier of operators stands `primary`.
pub open spec fn parse_tier(tokens: Seq<TokenView>, pos: int, tier: nat) -> Parsed<ExpressionView>
    decreases remaining(tokens, pos), tier_rank(tier) + 1,
{
    if tier >= 4 {
        parse_primary(tokens, pos)
    } else {
        match parse_tier(tokens, pos, tier + 1) {
            Ok((first, consumed)) => advance(
                parse_chain(tokens, pos + consumed, tier, first),
                consumed,
            ),
            Err(error) => Err(error),
        }
    }
}

/// The pairs of operator and operand that follow the operand `left` on one
/// tier: each pair makes, with all that stands to its left, the left operand
/// of the next.
pub open spec fn parse_chain(
    tokens: Seq<TokenView>,
    pos: int,
    tier: nat,
    left: ExpressionView,
) -> Parsed<ExpressionView>
    decreases remaining(tokens, pos), tier_rank(tier),
{
    match operator_at(tokens, pos, tier) {
        Some(operator) => match parse_tier(tokens, pos + 1, tier + 1) {
            Ok((right, consumed)) => advance(
                parse_chain(
                    tokens,
                    pos + 1 + consumed,
                    tier,
                    ExpressionView::BinaryOp {
                        operator,
                        left: Box::new(left),
                        right: Box::new(right),
                    },
                ),
                1 + consumed,
            ),
            Err(error) => Err(error),
        },
        None => Ok((left, 0)),
    }
}

/// A measure that falls from each tier to the next higher one.
pub open spec fn tier_rank(tier: nat) -> nat {
    if tier >= 4 {
        1
    } else {
        (2 * (5 - tier) - 1) as nat
    }
}

/// `expression := comparison`
pub open spec fn parse_expression(tokens: Seq<TokenView>, pos: int) -> Parsed<ExpressionView> {
    parse_tier(tokens, pos, 1)
}

/// `definition := identifier '=' expression`
pub open spec fn parse_definition(tokens: Seq<TokenView>, pos: int) -> Parsed<StatementView> {
    match token_at(tokens, pos) {
        Some(TokenView::Identifier(identifier)) => if !found(
            tokens,
            pos + 1,
            TokenView::Operator("="@),
        ) {
            Err(failure(ParseErrorKind::ExpectedAssign, pos + 1))
        } else {
            match parse_expression(tokens, pos + 2) {
                Ok((value, consumed)) => Ok(
                    (StatementView::Definition { identifier, value }, consumed + 2),
                ),
                Err(error) => Err(error),
            }
        },
        _ => Err(failure(ParseErrorKind::ExpectedIdentifier, pos)),
    }
}

/// `')' '{' statement* '}'`: what follows the head of a conditional or loop.
pub open spec fn parse_body(tokens: Seq<TokenView>, pos: int) -> Parsed<Seq<StatementView>>
    decreases remaining(tokens, pos), 0nat,
{
    if !found(tokens, pos, TokenView::RightPar) {
        Err(failure(ParseErrorKind::ExpectedRightPar, pos))
    } else if !found(tokens, pos + 1, TokenView::LeftBrace) {
        Err(failure(ParseErrorKind::ExpectedLeftBrace, pos + 1))
    } else {
        match parse_block(tokens, pos + 2) {
            Ok((block, consumed)) => if found(tokens, pos + 2 + consumed, TokenView::RightBrace) {
                Ok((block, consumed + 3))
            } else {
                Err(failure(ParseErrorKind::ExpectedRightBrace, pos + 2 + consumed))
            },
            Err(error) => Err(error),
        }
    }
}

/// The three control statements. The keyword must be followed by `(`; only
/// then is its text looked at.
pub open spec fn parse_keyword(tokens: Seq<TokenView>, pos: int) -> Parsed<StatementView>
    decreases remaining(tokens, pos), 1nat,
{
    match token_at(tokens, pos) {
        Some(TokenView::Keyword(word)) => if !found(tokens, pos + 1, TokenView::LeftPar) {
            Err(failure(ParseErrorKind::ExpectedLeftPar, pos + 1))
        } else if word == "return"@ {
            match parse_expression(tokens, pos + 2) {
                Ok((value, consumed)) => if found(tokens, pos + 2 + consumed, TokenView::RightPar) {
                    Ok((StatementView::Return(value), consumed + 3))
                } else {
                    Err(failure(ParseErrorKind::ExpectedRightPar, pos + 2 + consumed))
                },
                Err(error) => Err(error),
            }
        } else if word == "if"@ {
            match parse_expression(tokens, pos + 2) {
                Ok((condition, consumed)) => match parse_body(tokens, pos + 2 + consumed) {
                    Ok((block, more)) => Ok(
                        (StatementView::If { condition, block }, consumed + more + 2),
                    ),
                    Err(error) => Err(error),
                },
                Err(error) => Err(error),
            }
        } else if word == "for"@ {
            match token_at(tokens, pos + 2) {
                Some(TokenView::Identifier(index)) => if !found(
                    tokens,
                    pos + 3,
                    TokenView::Comma,
                ) {
                    Err(failure(ParseErrorKind::ExpectedComma, pos + 3))
                } else {
                    match parse_expression(tokens, pos + 4) {
                        Ok((expression, consumed)) => match parse_body(
                            tokens,
                            pos + 4 + consumed,
                        ) {
                            Ok((block, more)) => Ok(
                                (
                                    StatementView::For { index, expression, block },
                                    consumed + more + 4,
                                ),
                            ),
                            Err(error) => Err(error),
                        },
                        Err(error) => Err(error),
                    }
                },
                _ => Err(failure(ParseErrorKind::ExpectedIdentifier, pos + 2)),
            }
        } else {
            Err(failure(ParseErrorKind::UnknownKeyword, pos))
        },
        _ => Err(failure(ParseErrorKind::ExpectedStatement, pos)),
    }
}

/// A statement without the `;` that closes it: the kind of the first token
/// decides between a definition and a control statement.
pub open spec fn parse_unterminated(tokens: Seq<TokenView>, pos: int) -> Parsed<StatementView>
    decreases remaining(tokens, pos), 2nat,
{
    match token_at(tokens, pos) {
        Some(TokenView::Identifier(_)) => parse_definition(tokens, pos),
        Some(TokenView::Keyword(_)) => parse_keyword(tokens, pos),
        _ => Err(failure(ParseErrorKind::ExpectedStatement, pos)),
    }
}

/// `statement := ( definition | keyword ) ';'`
pub open spec fn parse_statement(tokens: Seq<TokenView>, pos: int) -> Parsed<StatementView> {
    match parse_unterminated(tokens, pos) {
        Ok((statement, consumed)) => if found(tokens, pos + consumed, TokenView::Terminator) {
            Ok((statement, consumed + 1))
        } else {
            Err(failure(ParseErrorKind::ExpectedTerminator, pos + consumed))
        },
        Err(error) => Err(error),
    }
}

/// Whether a run of statements ends at `pos`: at the end of the tokens, or
/// before a `}`.
pub open spec fn block_ends(tokens: Seq<TokenView>, pos: int) -> bool {
    token_at(tokens, pos) is None || token_at(tokens, pos) == Some(TokenView::RightBrace)
}

/// `statement*`, up to the end of the tokens or to a `}`, which is left in
/// place.
pub open spec fn parse_block(tokens: Seq<TokenView>, pos: int) -> Parsed<Seq<StatementView>>
    decreases remaining(tokens, pos), 3nat,
{
    if block_ends(tokens, pos) {
        Ok((Seq::empty(), 0))
    } else {
        match parse_unterminated(tokens, pos) {
            Ok((statement, consumed)) => if found(
                tokens,
                pos + consumed,
                TokenView::Terminator,
            ) {
                match parse_block(tokens, pos + consumed + 1) {
                    Ok((rest, more)) => Ok((seq![statement] + rest, consumed + 1 + more)),
                    Err(error) => Err(error),
                }
            } else {
                Err(failure(ParseErrorKind::ExpectedTerminator, pos + consumed))
            },
            Err(error) => Err(error),
        }
    }
}

/// `program := statement*`, up to the end of the tokens: a `}` that closes
/// nothing is where a statement was expected.
pub open spec fn parse_program(tokens: Seq<TokenView>, pos: int) -> Result<
    Seq<StatementView>,
    ParseError,
> {
    match parse_block(tokens, pos) {
        Ok((statements, consumed)) => if token_at(tokens, pos + consumed) is None {
            Ok(statements)
        } else {
            Err(failure(ParseErrorKind::ExpectedStatement, pos + consumed))
        },
        Err(error) => Err(error),
    }
}

/// The program that a whole sequence of tokens stands for.
pub open spec fn parse(tokens: Seq<TokenView>) -> Result<Seq<StatementView>, ParseError> {
    parse_program(tokens, 0)
}

} // verus!
