//! Writing and reading agree on expressions.
//!
//! The target language writes its expressions as the source language does,
//! so the text that the generator writes for an expression can be read as
//! source. The laws here say that it reads back as the expression that was
//! written: the parentheses that the generator puts around operands are
//! enough to keep the grouping of the tree.

use crate::ast::{ExpressionView, StatementView};
use crate::climbing::{
    lemma_chains_begin_at_operator, lemma_chains_without_operator, lemma_operand_alone,
    lemma_precedence_bound, lemma_tier_is_primary_and_chains, operation,
};
use crate::error::{LexError, TranslateError};
use crate::grammar::{
    operator_at, parse, parse_block, parse_chain, parse_definition, parse_expression, parse_primary,
    parse_tier, parse_unterminated, precedence, precedence_at, remaining, success, tier_rank,
    token_at,
};
use crate::lexicon::{
    all_digits, decimal_value, is_digit, is_lexical, is_name, is_operator, is_word_char,
    lemma_tokens_are_lexical, tokenization, tokens_from, word_length, word_token,
};
use crate::target::{
    block_text, code_text, declares, digits, expression_text, is_plain,
    lemma_line_feeds_leave_plain_text, lemma_plain_parts, operand_text, program_text, tabs,
    with_line_feeds,
};
use crate::translation;
use crate::token::TokenView;
use vstd::prelude::*;

verus! {

/// The tokens of an expression as the generator writes it.
pub open spec fn expression_tokens(expression: ExpressionView) -> Seq<TokenView>
    decreases expression, 0nat,
{
    match expression {
        ExpressionView::Number(value) => seq![TokenView::Number(value)],
        ExpressionView::Identifier(name) => seq![TokenView::Identifier(name)],
        ExpressionView::BinaryOp { operator, left, right } => operand_tokens(*left)
            + seq![TokenView::Operator(operator)] + operand_tokens(*right),
    }
}

/// The tokens of an expression as the generator writes it for an operand.
pub open spec fn operand_tokens(expression: ExpressionView) -> Seq<TokenView>
    decreases expression, 1nat,
{
    match expression {
        ExpressionView::BinaryOp { .. } => seq![TokenView::LeftPar] + expression_tokens(
            expression,
        ) + seq![TokenView::RightPar],
        _ => expression_tokens(expression),
    }
}

/// Whether every operation in the expression has a binary operator of the
/// grammar.
pub open spec fn operators_bind(expression: ExpressionView) -> bool
    decreases expression,
{
    match expression {
        ExpressionView::BinaryOp { operator, left, right } => precedence(operator) >= 1
            && operators_bind(*left) && operators_bind(*right),
        _ => true,
    }
}

/// Whether `part` stands in `whole` from `at` on.
pub open spec fn stands_at<T>(whole: Seq<T>, at: int, part: Seq<T>) -> bool {
    &&& 0 <= at
    &&& at + part.len() <= whole.len()
    &&& whole.subrange(at, at + part.len()) == part
}

/// The tokens of an expression, before anything but a binary operator,
/// parse as that expression.
pub proof fn lemma_expression_parses(
    tokens: Seq<TokenView>,
    pos: int,
    expression: ExpressionView,
)
    requires
        operators_bind(expression),
        stands_at(tokens, pos, expression_tokens(expression)),
        precedence_at(tokens, pos + expression_tokens(expression).len()) == 0,
    ensures
        parse_expression(tokens, pos) == success(
            expression,
            expression_tokens(expression).len(),
        ),
    decreases expression, 0nat,
{
    let part = expression_tokens(expression);
    match expression {
        ExpressionView::BinaryOp { operator, left, right } => {
            let first = operand_tokens(*left);
            let second = operand_tokens(*right);
            let middle = pos + first.len();
            let end = pos + part.len();
            let tier = precedence(operator);
            assert(tokens.subrange(pos, middle) =~= first);
            assert(tokens[middle] == TokenView::Operator(operator)) by {
                assert(part[first.len() as int] == TokenView::Operator(operator));
            }
            assert(tokens.subrange(middle + 1, end) =~= second) by {
                assert(part.subrange(first.len() as int + 1, part.len() as int) =~= second);
            }
            lemma_precedence_bound(tokens, middle);
            // The left operand is the primary expression that the tier begins with.
            lemma_operand_parses(tokens, pos, *left, 4);
            lemma_tier_is_primary_and_chains(tokens, pos, 1);
            // The chains begin with the operator, whose right operand follows.
            lemma_chains_begin_at_operator(tokens, middle, 3, 1, *left);
            lemma_operand_parses(tokens, middle + 1, *right, tier + 1);
            assert(operator_at(tokens, middle, tier) == Some(operator));
            assert(parse_chain(tokens, end, tier, expression) == success(expression, 0));
            lemma_chains_without_operator(tokens, end, (tier - 1) as nat, 1, expression);
        },
        _ => {
            assert(tokens.subrange(pos, pos + 1)[0] == tokens[pos]);
            lemma_operand_alone(tokens, pos, 1);
        },
    }
}

/// The tokens of an operand, before anything but an operator of the tier or
/// of a higher one, parse on that tier as the operand.
pub proof fn lemma_operand_parses(
    tokens: Seq<TokenView>,
    pos: int,
    expression: ExpressionView,
    tier: nat,
)
    requires
        operators_bind(expression),
        stands_at(tokens, pos, operand_tokens(expression)),
        1 <= tier <= 4,
        precedence_at(tokens, pos + operand_tokens(expression).len()) < tier,
    ensures
        parse_tier(tokens, pos, tier) == success(
            expression,
            operand_tokens(expression).len(),
        ),
    decreases expression, 1nat,
{
    let part = operand_tokens(expression);
    match expression {
        ExpressionView::BinaryOp { .. } => {
            let inner = expression_tokens(expression);
            let end = pos + part.len();
            assert(tokens[pos] == TokenView::LeftPar) by {
                assert(part[0] == TokenView::LeftPar);
            }
            assert(tokens[end - 1] == TokenView::RightPar) by {
                assert(part[part.len() - 1] == TokenView::RightPar);
            }
            assert(tokens.subrange(pos + 1, end - 1) =~= inner) by {
                assert(part.subrange(1, part.len() - 1) =~= inner);
            }
            lemma_expression_parses(tokens, pos + 1, expression);
            lemma_tier_is_primary_and_chains(tokens, pos, tier);
            lemma_chains_without_operator(tokens, end, 3, tier, expression);
        },
        _ => {
            lemma_operand_alone(tokens, pos, tier);
        },
    }
}

/// Whether `operator` is one of the binary operators that the lexer makes.
pub open spec fn is_lexical_operator(operator: Seq<char>) -> bool {
    operator == "+"@ || operator == "-"@ || operator == "*"@ || operator == "/"@ || operator
        == "<"@ || operator == ">"@ || operator == "=="@ || operator == "!="@
}

/// Whether the expression can have come from a source text: its numbers are
/// not negative, its names are names, and its operators are operators that
/// the lexer makes.
pub open spec fn readable(expression: ExpressionView) -> bool
    decreases expression,
{
    match expression {
        ExpressionView::Number(value) => value >= 0,
        ExpressionView::Identifier(name) => is_name(name),
        ExpressionView::BinaryOp { operator, left, right } => is_lexical_operator(operator)
            && readable(*left) && readable(*right),
    }
}

/// Whether a word can end before `at`: no alphanumeric character stands
/// there to lengthen it, and no `(` to make a keyword of it.
pub open spec fn word_ends(source: Seq<char>, at: int) -> bool {
    0 <= at < source.len() ==> !is_word_char(source[at]) && source[at] != '('
}

/// Whether the tokens of the source from `at` on are `tokens`, followed by
/// those from `next` on.
pub open spec fn tokenizes(
    source: Seq<char>,
    at: int,
    tokens: Seq<TokenView>,
    next: int,
) -> bool {
    tokens_from(source, at) == match tokens_from(source, next) {
        Ok(rest) => Ok::<_, LexError>(tokens + rest),
        Err(error) => Err(error),
    }
}

/// What the generator writes for a number that is not negative, the lexer
/// reads as that number.
pub proof fn lemma_number_reads_back(value: nat, before_par: bool)
    requires
        value <= i32::MAX,
    ensures
        word_token(digits(value), before_par) == TokenView::Number(value as i32),
{
    lemma_digits_denote(value);
    reveal_strlit("return");
    reveal_strlit("if");
    reveal_strlit("for");
}

/// The digits of a number are digits, and denote the number.
pub proof fn lemma_digits_denote(value: nat)
    ensures
        digits(value).len() > 0,
        all_digits(digits(value)),
        decimal_value(digits(value)) == value,
    decreases value,
{
    if value < 10 {
        let text = digits(value);
        assert(decimal_value(text.drop_last()) == 0);
    } else {
        lemma_digits_denote(value / 10);
        let text = digits(value);
        assert(text.drop_last() =~= digits(value / 10));
    }
}

/// Where two texts stand in a row, the first stands, and behind it the
/// second.
proof fn lemma_both_stand(source: Seq<char>, at: int, first: Seq<char>, second: Seq<char>)
    requires
        stands_at(source, at, first + second),
    ensures
        stands_at(source, at, first),
        stands_at(source, at + first.len(), second),
{
    let whole = first + second;
    assert(source.subrange(at, at + first.len()) =~= whole.subrange(0, first.len() as int));
    assert(whole.subrange(0, first.len() as int) =~= first);
    assert(source.subrange(at + first.len(), at + first.len() + second.len())
        =~= whole.subrange(first.len() as int, whole.len() as int));
    assert(whole.subrange(first.len() as int, whole.len() as int) =~= second);
}

/// Tokens read one run after the other are read as one run.
proof fn lemma_tokenizes_both(
    source: Seq<char>,
    at: int,
    first: Seq<TokenView>,
    middle: int,
    second: Seq<TokenView>,
    next: int,
)
    requires
        tokenizes(source, at, first, middle),
        tokenizes(source, middle, second, next),
    ensures
        tokenizes(source, at, first + second, next),
{
    match tokens_from(source, next) {
        Ok(rest) => {
            assert(first + (second + rest) =~= (first + second) + rest);
        },
        Err(_) => {},
    }
}

/// A run of alphanumeric characters, before a character that is none, is a
/// word of its length.
proof fn lemma_word_runs(source: Seq<char>, at: int, word: Seq<char>)
    requires
        stands_at(source, at, word),
        forall|i: int| 0 <= i < word.len() ==> is_word_char(#[trigger] word[i]),
        at + word.len() < source.len() ==> !is_word_char(source[at + word.len()]),
    ensures
        word_length(source, at) == word.len(),
    decreases word.len(),
{
    if word.len() > 0 {
        assert(source.subrange(at, at + word.len())[0] == source[at]);
        let rest = word.skip(1);
        assert(source.subrange(at + 1, at + 1 + rest.len()) =~= rest);
        lemma_word_runs(source, at + 1, rest);
    }
}

/// A word that ends where a word can end is read as one token: a number
/// where it is one, a name otherwise.
proof fn lemma_word_tokenizes(source: Seq<char>, at: int, word: Seq<char>)
    requires
        stands_at(source, at, word),
        word.len() > 0,
        forall|i: int| 0 <= i < word.len() ==> is_word_char(#[trigger] word[i]),
        word_ends(source, at + word.len()),
    ensures
        tokenizes(source, at, seq![word_token(word, false)], at + word.len()),
{
    lemma_word_runs(source, at, word);
    assert(source.subrange(at, at + word.len())[0] == source[at]);
}

/// An operator that the lexer makes is read as one token.
proof fn lemma_operator_tokenizes(source: Seq<char>, at: int, operator: Seq<char>)
    requires
        stands_at(source, at, operator),
        is_lexical_operator(operator),
    ensures
        tokenizes(source, at, seq![TokenView::Operator(operator)], at + operator.len()),
        !is_word_char(source[at]),
        source[at] != '(',
{
    reveal_strlit("+");
    reveal_strlit("-");
    reveal_strlit("*");
    reveal_strlit("/");
    reveal_strlit("<");
    reveal_strlit(">");
    reveal_strlit("==");
    reveal_strlit("!=");
    assert(source.subrange(at, at + operator.len())[0] == source[at]);
    if operator.len() == 2 {
        assert(source.subrange(at, at + operator.len())[1] == source[at + 1]);
    }
}

/// The text of a readable expression, where a word can end behind it, is
/// read as the tokens of the expression.
pub proof fn lemma_expression_tokenizes(source: Seq<char>, at: int, expression: ExpressionView)
    requires
        readable(expression),
        stands_at(source, at, expression_text(expression)),
        word_ends(source, at + expression_text(expression).len()),
    ensures
        tokenizes(
            source,
            at,
            expression_tokens(expression),
            at + expression_text(expression).len(),
        ),
    decreases expression, 0nat,
{
    match expression {
        ExpressionView::Number(value) => {
            lemma_digits_denote(value as nat);
            let word = digits(value as nat);
            lemma_word_tokenizes(source, at, word);
        },
        ExpressionView::Identifier(name) => {
            lemma_word_tokenizes(source, at, name);
            assert(word_token(name, false) == TokenView::Identifier(name));
        },
        ExpressionView::BinaryOp { operator, left, right } => {
            let first = operand_text(*left);
            let second = operand_text(*right);
            lemma_both_stand(source, at, first + operator, second);
            lemma_both_stand(source, at, first, operator);
            let middle = at + first.len();
            let after = middle + operator.len();
            lemma_operator_tokenizes(source, middle, operator);
            lemma_operand_tokenizes(source, at, *left);
            lemma_operand_tokenizes(source, after, *right);
            lemma_tokenizes_both(
                source,
                at,
                operand_tokens(*left),
                middle,
                seq![TokenView::Operator(operator)],
                after,
            );
            lemma_tokenizes_both(
                source,
                at,
                operand_tokens(*left) + seq![TokenView::Operator(operator)],
                after,
                operand_tokens(*right),
                after + second.len(),
            );
        },
    }
}

/// The text of a readable operand, where a word can end behind it, is read
/// as the tokens of the operand.
pub proof fn lemma_operand_tokenizes(source: Seq<char>, at: int, expression: ExpressionView)
    requires
        readable(expression),
        stands_at(source, at, operand_text(expression)),
        word_ends(source, at + operand_text(expression).len()),
    ensures
        tokenizes(source, at, operand_tokens(expression), at + operand_text(expression).len()),
    decreases expression, 1nat,
{
    match expression {
        ExpressionView::BinaryOp { .. } => {
            reveal_strlit("(");
            reveal_strlit(")");
            let inner = expression_text(expression);
            lemma_both_stand(source, at, "("@ + inner, ")"@);
            lemma_both_stand(source, at, "("@, inner);
            let end = at + 1 + inner.len();
            assert(source[at] == '(') by {
                assert(source.subrange(at, at + 1)[0] == source[at]);
            }
            assert(source[end] == ')') by {
                assert(source.subrange(end, end + 1)[0] == source[end]);
            }
            lemma_expression_tokenizes(source, at + 1, expression);
            lemma_tokenizes_both(
                source,
                at,
                seq![TokenView::LeftPar],
                at + 1,
                expression_tokens(expression),
                end,
            );
            lemma_tokenizes_both(
                source,
                at,
                seq![TokenView::LeftPar] + expression_tokens(expression),
                end,
                seq![TokenView::RightPar],
                end + 1,
            );
        },
        _ => {
            lemma_expression_tokenizes(source, at, expression);
        },
    }
}

/// Every operator that the lexer makes between operands is a binary
/// operator of the grammar.
pub proof fn lemma_readable_operators_bind(expression: ExpressionView)
    requires
        readable(expression),
    ensures
        operators_bind(expression),
    decreases expression,
{
    match expression {
        ExpressionView::BinaryOp { operator, left, right } => {
            lemma_readable_operators_bind(*left);
            lemma_readable_operators_bind(*right);
        },
        _ => {},
    }
}

/// What the generator writes for an expression reads back as that
/// expression: the lexer makes of the text the tokens of the expression, and
/// the parser makes of the tokens the tree that was written.
pub proof fn lemma_expression_reads_back(expression: ExpressionView)
    requires
        readable(expression),
    ensures
        tokenization(expression_text(expression)) == Ok::<_, LexError>(
            expression_tokens(expression),
        ),
        parse_expression(expression_tokens(expression), 0) == success(
            expression,
            expression_tokens(expression).len(),
        ),
{
    let text = expression_text(expression);
    let tokens = expression_tokens(expression);
    assert(text.subrange(0, text.len() as int) =~= text);
    lemma_expression_tokenizes(text, 0, expression);
    assert(tokens + Seq::<TokenView>::empty() =~= tokens);
    lemma_readable_operators_bind(expression);
    assert(tokens.subrange(0, tokens.len() as int) =~= tokens);
    lemma_expression_parses(tokens, 0, expression);
}

/// The text of a readable expression begins with what an operand can begin
/// with: an alphanumeric character or `(`.
pub proof fn lemma_expression_begins(expression: ExpressionView)
    requires
        readable(expression),
    ensures
        expression_text(expression).len() > 0,
        is_word_char(expression_text(expression)[0]) || expression_text(expression)[0] == '(',
    decreases expression,
{
    match expression {
        ExpressionView::Number(value) => {
            lemma_digits_denote(value as nat);
        },
        ExpressionView::Identifier(name) => {},
        ExpressionView::BinaryOp { operator, left, right } => {
            reveal_strlit("(");
            match *left {
                ExpressionView::BinaryOp { .. } => {},
                _ => {
                    lemma_expression_begins(*left);
                },
            }
        },
    }
}

/// A name holds no `;`.
pub proof fn lemma_name_is_plain(name: Seq<char>)
    requires
        is_name(name),
    ensures
        is_plain(name),
{
    assert forall|i: int| 0 <= i < name.len() implies #[trigger] name[i] != ';' by {
        assert(is_word_char(name[i]));
    }
}

/// The text of a readable expression holds no `;`, with or without the
/// parentheses of an operand around it.
pub proof fn lemma_expression_is_plain(expression: ExpressionView)
    requires
        readable(expression),
    ensures
        is_plain(expression_text(expression)),
        is_plain(operand_text(expression)),
    decreases expression,
{
    match expression {
        ExpressionView::Number(value) => {
            lemma_digits_denote(value as nat);
            let text = digits(value as nat);
            assert forall|i: int| 0 <= i < text.len() implies #[trigger] text[i] != ';' by {
                assert(is_digit(text[i]));
            }
        },
        ExpressionView::Identifier(name) => {
            lemma_name_is_plain(name);
        },
        ExpressionView::BinaryOp { operator, left, right } => {
            lemma_expression_is_plain(*left);
            lemma_expression_is_plain(*right);
            assert(is_plain(operator)) by {
                reveal_strlit("+");
                reveal_strlit("-");
                reveal_strlit("*");
                reveal_strlit("/");
                reveal_strlit("<");
                reveal_strlit(">");
                reveal_strlit("==");
                reveal_strlit("!=");
            }
            lemma_plain_parts(operand_text(*left), operator);
            lemma_plain_parts(operand_text(*left) + operator, operand_text(*right));
            assert(is_plain("("@) && is_plain(")"@)) by {
                reveal_strlit("(");
                reveal_strlit(")");
            }
            lemma_plain_parts("("@, expression_text(expression));
            lemma_plain_parts("("@ + expression_text(expression), ")"@);
        },
    }
}

/// A program of one definition that a block has not declared before, with a
/// readable value, is one line, one tab deep, that declares the variable.
pub proof fn lemma_program_of_one_definition(name: Seq<char>, value: ExpressionView)
    requires
        is_name(name),
        readable(value),
    ensures
        program_text(
            seq![StatementView::Definition { identifier: name, value }],
            1,
            Set::empty(),
        ) == "fn main() {\n"@ + ("\t"@ + "let mut "@ + name + "="@ + expression_text(value)
            + ";\n"@) + "\n"@ + "}"@,
{
    let text = expression_text(value);
    let statement = StatementView::Definition { identifier: name, value };
    let declared = Set::<Seq<char>>::empty();
    let plain = "\t"@ + "let mut "@ + name + "="@ + text;
    assert(is_plain("\t"@) && is_plain("let mut "@) && is_plain("="@)) by {
        reveal_strlit("\t");
        reveal_strlit("let mut ");
        reveal_strlit("=");
    }
    lemma_name_is_plain(name);
    lemma_expression_is_plain(value);
    lemma_plain_parts("\t"@, "let mut "@);
    lemma_plain_parts("\t"@ + "let mut "@, name);
    lemma_plain_parts("\t"@ + "let mut "@ + name, "="@);
    lemma_plain_parts("\t"@ + "let mut "@ + name + "="@, text);
    lemma_line_feeds_leave_plain_text(plain);
    assert(tabs(1) =~= "\t"@) by {
        reveal_strlit("\t");
    }
    assert(tabs(0) =~= Seq::<char>::empty());
    assert(block_text(seq![statement], 1, declared) =~= plain.push(';')) by {
        reveal_strlit(";");
        assert(seq![statement].skip(1) =~= Seq::<StatementView>::empty());
        assert(code_text(seq![statement].skip(1), tabs(1), 1, declares(statement, declared))
            =~= Seq::<char>::empty());
    }
    assert(plain.push(';').drop_last() =~= plain);
    assert(with_line_feeds(plain.push(';')) =~= plain + ";\n"@) by {
        reveal_strlit(";\n");
    }
}

/// A definition whose value is written as the generator writes expressions
/// is translated into the declaration of the variable with the same value:
/// the expression passes through the translation as it stands.
pub proof fn lemma_definition_translates(name: Seq<char>, value: ExpressionView)
    requires
        is_name(name),
        readable(value),
    ensures
        translation(name + "="@ + expression_text(value) + ";"@) == Ok::<_, TranslateError>(
            "fn main() {\n"@ + ("\t"@ + "let mut "@ + name + "="@ + expression_text(value)
                + ";\n"@) + "\n"@ + "}"@,
        ),
{
    reveal_strlit("=");
    reveal_strlit(";");
    reveal_strlit("\t");
    let text = expression_text(value);
    let source = name + "="@ + text + ";"@;
    let written = expression_tokens(value);
    lemma_expression_begins(value);
    assert(source.subrange(0, source.len() as int) =~= source);
    lemma_both_stand(source, 0, name + "="@ + text, ";"@);
    lemma_both_stand(source, 0, name + "="@, text);
    lemma_both_stand(source, 0, name, "="@);
    let assign = name.len() as int;
    let begin = assign + 1;
    let end = begin + text.len();
    assert(source[assign] == '=');
    assert(source[begin] == text[0]);

    // The lexer: the name, `=`, the expression, `;`.
    lemma_word_tokenizes(source, 0, name);
    lemma_expression_tokenizes(source, begin, value);
    let head = seq![TokenView::Identifier(name), TokenView::Operator("="@)];
    lemma_tokenizes_both(
        source,
        0,
        seq![TokenView::Identifier(name)],
        assign,
        seq![TokenView::Operator("="@)],
        begin,
    );
    assert(seq![TokenView::Identifier(name)] + seq![TokenView::Operator("="@)] =~= head);
    lemma_tokenizes_both(source, 0, head, begin, written, end);
    lemma_tokenizes_both(source, 0, head + written, end, seq![TokenView::Terminator], end + 1);
    let tokens = head + written + seq![TokenView::Terminator];

    // The parser: a definition, closed by the terminator, and nothing more.
    let last = written.len() as int + 2;
    assert(tokens.subrange(2, last) =~= written);
    lemma_readable_operators_bind(value);
    lemma_expression_parses(tokens, 2, value);
    assert(parse_unterminated(tokens, 0) == parse_definition(tokens, 0));
    assert(parse_block(tokens, last + 1) == success(Seq::<StatementView>::empty(), 0));

    // The generator: one line, one tab deep, that declares the variable.
    lemma_program_of_one_definition(name, value);
}

/// Whether every token is one that the lexer makes.
pub open spec fn all_lexical(tokens: Seq<TokenView>) -> bool {
    forall|i: int| 0 <= i < tokens.len() ==> is_lexical(#[trigger] tokens[i])
}

/// A binary operator of the grammar that the lexer makes is one of the
/// eight that both know.
pub proof fn lemma_lexical_binary_operator(operator: Seq<char>)
    requires
        is_operator(operator),
        precedence(operator) >= 1,
    ensures
        is_lexical_operator(operator),
{
    reveal_strlit("=");
    reveal_strlit("<=");
    reveal_strlit(">=");
    if operator == "="@ {
        assert(operator.len() == 1 && operator[0] == '=');
    }
}

/// A primary expression that the parser makes of the lexer's tokens is
/// readable.
pub proof fn lemma_parsed_primary_is_readable(tokens: Seq<TokenView>, pos: int)
    requires
        all_lexical(tokens),
    ensures
        parse_primary(tokens, pos) matches Ok((expression, _)) ==> readable(expression),
    decreases remaining(tokens, pos), 0nat,
{
    match token_at(tokens, pos) {
        Some(TokenView::LeftPar) => {
            lemma_parsed_tier_is_readable(tokens, pos + 1, 1);
        },
        Some(token) => {},
        None => {},
    }
}

/// An expression that the parser makes of the lexer's tokens is readable.
pub proof fn lemma_parsed_tier_is_readable(tokens: Seq<TokenView>, pos: int, tier: nat)
    requires
        all_lexical(tokens),
    ensures
        parse_tier(tokens, pos, tier) matches Ok((expression, _)) ==> readable(expression),
    decreases remaining(tokens, pos), tier_rank(tier) + 1,
{
    if tier >= 4 {
        lemma_parsed_primary_is_readable(tokens, pos);
    } else {
        lemma_parsed_tier_is_readable(tokens, pos, tier + 1);
        match parse_tier(tokens, pos, tier + 1) {
            Ok((first, consumed)) => {
                lemma_parsed_chain_is_readable(tokens, pos + consumed, tier, first);
            },
            Err(_) => {},
        }
    }
}

/// What the parser adds to a readable operand on one tier is readable.
pub proof fn lemma_parsed_chain_is_readable(
    tokens: Seq<TokenView>,
    pos: int,
    tier: nat,
    left: ExpressionView,
)
    requires
        all_lexical(tokens),
        readable(left),
    ensures
        parse_chain(tokens, pos, tier, left) matches Ok((expression, _)) ==> readable(expression),
    decreases remaining(tokens, pos), tier_rank(tier),
{
    match operator_at(tokens, pos, tier) {
        Some(operator) => {
            lemma_lexical_binary_operator(operator);
            lemma_parsed_tier_is_readable(tokens, pos + 1, tier + 1);
            match parse_tier(tokens, pos + 1, tier + 1) {
                Ok((right, consumed)) => {
                    lemma_parsed_chain_is_readable(
                        tokens,
                        pos + 1 + consumed,
                        tier,
                        operation(operator, left, right),
                    );
                },
                Err(_) => {},
            }
        },
        None => {},
    }
}

/// The translation keeps the meaning of expressions: an expression that the
/// parser has made of a source text is written by the generator as a text
/// that reads back as the same expression.
pub proof fn lemma_written_expression_means_the_same(
    source: Seq<char>,
    pos: int,
    expression: ExpressionView,
    consumed: nat,
)
    requires
        tokenization(source) is Ok,
        parse_expression(tokenization(source)->Ok_0, pos) == success(expression, consumed),
    ensures
        tokenization(expression_text(expression)) == Ok::<_, LexError>(
            expression_tokens(expression),
        ),
        parse_expression(expression_tokens(expression), 0) == success(
            expression,
            expression_tokens(expression).len(),
        ),
{
    lemma_tokens_are_lexical(source, 0);
    lemma_parsed_tier_is_readable(tokenization(source)->Ok_0, pos, 1);
    lemma_expression_reads_back(expression);
}

} // verus!
