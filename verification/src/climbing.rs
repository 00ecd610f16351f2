//! Why precedence climbing yields what the tiers of the grammar yield.
//!
//! The parser reads a primary expression and then, in one loop, every pair of
//! operator and operand whose operator binds at least as tightly as a given
//! minimum, reading each right operand with a minimum one tier above its
//! operator. The grammar instead nests one rule per tier. The lemmas here
//! relate the two: what is left to do at any point of the loop is to run the
//! chains of the tiers from the last operator's tier down to the minimum.

use crate::ast::ExpressionView;
use crate::grammar::{
    advance, operator_at, parse_chain, parse_expression, parse_primary, parse_tier, precedence_at,
    remaining, success, tier_rank, Parsed,
};
use crate::token::TokenView;
use vstd::prelude::*;

verus! {

/// The chains of the tiers from `top` down to `min`, run one after another
/// from `pos`, each on what the one before it has built.
pub open spec fn parse_chains(
    tokens: Seq<TokenView>,
    pos: int,
    top: nat,
    min: nat,
    left: ExpressionView,
) -> Parsed<ExpressionView>
    decreases top,
{
    if top < min || top == 0 {
        Ok((left, 0))
    } else {
        match parse_chain(tokens, pos, top, left) {
            Ok((joined, consumed)) => advance(
                parse_chains(tokens, pos + consumed, (top - 1) as nat, min, joined),
                consumed,
            ),
            Err(error) => Err(error),
        }
    }
}

/// No operator binds tighter than the third tier.
pub proof fn lemma_precedence_bound(tokens: Seq<TokenView>, pos: int)
    ensures
        precedence_at(tokens, pos) <= 3,
{
}

/// Running the chains down to `min` is running them down to `min + 1` and
/// then the chain of `min`.
pub proof fn lemma_chains_end_with_lowest(
    tokens: Seq<TokenView>,
    pos: int,
    top: nat,
    min: nat,
    left: ExpressionView,
)
    requires
        1 <= min <= top,
    ensures
        parse_chains(tokens, pos, top, min, left) == match parse_chains(
            tokens,
            pos,
            top,
            min + 1,
            left,
        ) {
            Ok((above, consumed)) => advance(
                parse_chain(tokens, pos + consumed, min, above),
                consumed,
            ),
            Err(error) => Err(error),
        },
    decreases top,
{
    match parse_chain(tokens, pos, top, left) {
        Ok((joined, consumed)) => {
            if top > min {
                lemma_chains_end_with_lowest(
                    tokens,
                    pos + consumed,
                    (top - 1) as nat,
                    min,
                    joined,
                );
            }
        },
        Err(_) => {},
    }
}

/// A tier of the grammar is a primary expression followed by the chains of
/// all tiers from the highest down to that tier.
pub proof fn lemma_tier_is_primary_and_chains(tokens: Seq<TokenView>, pos: int, tier: nat)
    requires
        1 <= tier <= 4,
    ensures
        parse_tier(tokens, pos, tier) == match parse_primary(tokens, pos) {
            Ok((first, consumed)) => advance(
                parse_chains(tokens, pos + consumed, 3, tier, first),
                consumed,
            ),
            Err(error) => Err(error),
        },
    decreases 4 - tier,
{
    if tier < 4 {
        lemma_tier_is_primary_and_chains(tokens, pos, tier + 1);
        match parse_primary(tokens, pos) {
            Ok((first, consumed)) => {
                lemma_chains_end_with_lowest(tokens, pos + consumed, 3, tier, first);
            },
            Err(_) => {},
        }
    }
}

/// Where no operator of a tier from `min` to `top` stands at `pos`, the
/// chains of those tiers add nothing.
pub proof fn lemma_chains_without_operator(
    tokens: Seq<TokenView>,
    pos: int,
    top: nat,
    min: nat,
    left: ExpressionView,
)
    requires
        precedence_at(tokens, pos) < min || precedence_at(tokens, pos) > top,
    ensures
        parse_chains(tokens, pos, top, min, left) == success(left, 0),
    decreases top,
{
    if top >= min && top > 0 {
        lemma_chains_without_operator(tokens, pos, (top - 1) as nat, min, left);
    }
}

/// Where an operator of tier `tier` stands at `pos`, the chains of the
/// tiers above it add nothing: the work begins with the chain of `tier`.
pub proof fn lemma_chains_begin_at_operator(
    tokens: Seq<TokenView>,
    pos: int,
    top: nat,
    min: nat,
    left: ExpressionView,
)
    requires
        1 <= min <= precedence_at(tokens, pos) <= top,
    ensures
        parse_chains(tokens, pos, top, min, left) == parse_chains(
            tokens,
            pos,
            precedence_at(tokens, pos),
            min,
            left,
        ),
    decreases top,
{
    if top > precedence_at(tokens, pos) {
        lemma_chains_begin_at_operator(tokens, pos, (top - 1) as nat, min, left);
    }
}

/// A tier stops before a token that is no operator of that tier or of a
/// higher one.
pub proof fn lemma_tier_stops(tokens: Seq<TokenView>, pos: int, tier: nat)
    requires
        1 <= tier,
    ensures
        parse_tier(tokens, pos, tier) matches Ok((_, consumed)) ==> precedence_at(
            tokens,
            pos + consumed,
        ) < tier,
    decreases remaining(tokens, pos), tier_rank(tier) + 1,
{
    if tier >= 4 {
    } else {
        match parse_tier(tokens, pos, tier + 1) {
            Ok((first, consumed)) => {
                lemma_tier_stops(tokens, pos, tier + 1);
                lemma_chain_stops(tokens, pos + consumed, tier, first);
            },
            Err(_) => {},
        }
    }
}

/// The chain of a tier, begun before a token that is no operator of a
/// higher tier, stops before one that is no operator of that tier either.
pub proof fn lemma_chain_stops(tokens: Seq<TokenView>, pos: int, tier: nat, left: ExpressionView)
    requires
        1 <= tier <= 3,
        precedence_at(tokens, pos) <= tier,
    ensures
        parse_chain(tokens, pos, tier, left) matches Ok((_, consumed)) ==> precedence_at(
            tokens,
            pos + consumed,
        ) < tier,
    decreases remaining(tokens, pos), tier_rank(tier),
{
    match operator_at(tokens, pos, tier) {
        Some(operator) => {
            match parse_tier(tokens, pos + 1, tier + 1) {
                Ok((right, consumed)) => {
                    lemma_tier_stops(tokens, pos + 1, tier + 1);
                    lemma_chain_stops(
                        tokens,
                        pos + 1 + consumed,
                        tier,
                        ExpressionView::BinaryOp {
                            operator,
                            left: Box::new(left),
                            right: Box::new(right),
                        },
                    );
                },
                Err(_) => {},
            }
        },
        None => {},
    }
}

/// The expression that a token is by itself, if it is one: a number or a
/// name.
pub open spec fn atom(token: TokenView) -> Option<ExpressionView> {
    match token {
        TokenView::Number(value) => Some(ExpressionView::Number(value)),
        TokenView::Identifier(name) => Some(ExpressionView::Identifier(name)),
        _ => None,
    }
}

/// The operation on two operands.
pub open spec fn operation(
    operator: Seq<char>,
    left: ExpressionView,
    right: ExpressionView,
) -> ExpressionView {
    ExpressionView::BinaryOp { operator, left: Box::new(left), right: Box::new(right) }
}

/// A number or name that no operator of the tier or of a higher one
/// follows is all that the tier reads.
pub proof fn lemma_operand_alone(tokens: Seq<TokenView>, pos: int, tier: nat)
    requires
        0 <= pos < tokens.len(),
        atom(tokens[pos]) is Some,
        1 <= tier <= 4,
        precedence_at(tokens, pos + 1) < tier,
    ensures
        parse_tier(tokens, pos, tier) == success(atom(tokens[pos])->Some_0, 1),
{
    lemma_tier_is_primary_and_chains(tokens, pos, tier);
    lemma_chains_without_operator(tokens, pos + 1, 3, tier, atom(tokens[pos])->Some_0);
}

/// Precedence and grouping on the smallest case that shows both: of two
/// operators between three numbers or names, the second takes the middle
/// operand only where it binds tighter than the first. Otherwise all that
/// stands to the left of the second operator is its left operand: operators
/// of one tier group from the left.
pub proof fn lemma_two_operators(tokens: Seq<TokenView>, pos: int)
    requires
        0 <= pos,
        pos + 5 <= tokens.len(),
        atom(tokens[pos]) is Some,
        precedence_at(tokens, pos + 1) >= 1,
        atom(tokens[pos + 2]) is Some,
        precedence_at(tokens, pos + 3) >= 1,
        atom(tokens[pos + 4]) is Some,
        precedence_at(tokens, pos + 5) == 0,
    ensures
        parse_expression(tokens, pos) == success(
            if precedence_at(tokens, pos + 3) > precedence_at(tokens, pos + 1) {
                operation(
                    tokens[pos + 1]->Operator_0,
                    atom(tokens[pos])->Some_0,
                    operation(
                        tokens[pos + 3]->Operator_0,
                        atom(tokens[pos + 2])->Some_0,
                        atom(tokens[pos + 4])->Some_0,
                    ),
                )
            } else {
                operation(
                    tokens[pos + 3]->Operator_0,
                    operation(
                        tokens[pos + 1]->Operator_0,
                        atom(tokens[pos])->Some_0,
                        atom(tokens[pos + 2])->Some_0,
                    ),
                    atom(tokens[pos + 4])->Some_0,
                )
            },
            5,
        ),
{
    let x = atom(tokens[pos])->Some_0;
    let y = atom(tokens[pos + 2])->Some_0;
    let z = atom(tokens[pos + 4])->Some_0;
    let first = tokens[pos + 1]->Operator_0;
    let second = tokens[pos + 3]->Operator_0;
    let left_tier = precedence_at(tokens, pos + 1);
    let right_tier = precedence_at(tokens, pos + 3);

    lemma_tier_is_primary_and_chains(tokens, pos, 1);
    lemma_chains_begin_at_operator(tokens, pos + 1, 3, 1, x);
    // What is left after the first operand is the chains from the first operator's tier down.
    if right_tier > left_tier {
        let inner = operation(second, y, z);
        let whole = operation(first, x, inner);
        // The right operand of the first operator: y, second, z.
        lemma_tier_is_primary_and_chains(tokens, pos + 2, left_tier + 1);
        lemma_chains_begin_at_operator(tokens, pos + 3, 3, left_tier + 1, y);
        lemma_operand_alone(tokens, pos + 4, right_tier + 1);
        assert(parse_chain(tokens, pos + 5, right_tier, inner) == success(inner, 0));
        lemma_chains_without_operator(
            tokens,
            pos + 5,
            (right_tier - 1) as nat,
            left_tier + 1,
            inner,
        );
        assert(parse_chain(tokens, pos + 5, left_tier, whole) == success(whole, 0));
        lemma_chains_without_operator(tokens, pos + 5, (left_tier - 1) as nat, 1, whole);
    } else {
        let inner = operation(first, x, y);
        let whole = operation(second, inner, z);
        lemma_operand_alone(tokens, pos + 2, left_tier + 1);
        lemma_operand_alone(tokens, pos + 4, right_tier + 1);
        assert(parse_chain(tokens, pos + 5, right_tier, whole) == success(whole, 0));
        if right_tier == left_tier {
            lemma_chains_without_operator(tokens, pos + 5, (left_tier - 1) as nat, 1, whole);
        } else {
            assert(parse_chain(tokens, pos + 3, left_tier, inner) == success(inner, 0));
            lemma_chains_begin_at_operator(tokens, pos + 3, (left_tier - 1) as nat, 1, inner);
            lemma_chains_without_operator(tokens, pos + 5, (right_tier - 1) as nat, 1, whole);
        }
    }
}

} // verus!
