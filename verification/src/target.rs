//! The text of the target program: what each node of the tree is written as.
//!
//! A block is written one statement directly after the other. The body of a
//! conditional or loop stands one tab deeper than the statement itself. A
//! definition declares its variable where the block has not declared it
//! before; a body starts from what its surroundings have declared, and what
//! it declares itself is forgotten where it ends. A whole program is its
//! outermost block with a line feed behind every `;`, inside the block that
//! the target language enters a program by.

use crate::ast::{ExpressionView, StatementView};
use vstd::prelude::*;

verus! {

/// `count` tabs; none where `count` is not positive.
pub open spec fn tabs(count: int) -> Seq<char> {
    Seq::new(
        if count > 0 {
            count as nat
        } else {
            0
        },
        |i: int| '\t',
    )
}

/// The character for a value below ten.
pub open spec fn digit_char(value: int) -> char {
    ('0' as int + value) as char
}

/// The digits of a natural number in base ten, without leading zeros.
pub open spec fn digits(value: nat) -> Seq<char>
    decreases value,
{
    if value < 10 {
        seq![digit_char(value as int)]
    } else {
        digits(value / 10).push(digit_char((value % 10) as int))
    }
}

/// An integer in base ten, with `-` in front where it is negative.
pub open spec fn number_text(value: int) -> Seq<char> {
    if value < 0 {
        seq!['-'] + digits((-value) as nat)
    } else {
        digits(value as nat)
    }
}

/// An expression as text. The operands of an operation are written around
/// its operator.
pub open spec fn expression_text(expression: ExpressionView) -> Seq<char>
    decreases expression, 0nat,
{
    match expression {
        ExpressionView::Number(value) => number_text(value as int),
        ExpressionView::Identifier(name) => name,
        ExpressionView::BinaryOp { operator, left, right } => operand_text(*left) + operator
            + operand_text(*right),
    }
}

/// An expression as the operand of an operation: in parentheses where it is
/// an operation itself, so that the text groups as the tree does.
pub open spec fn operand_text(expression: ExpressionView) -> Seq<char>
    decreases expression, 1nat,
{
    match expression {
        ExpressionView::BinaryOp { .. } => "("@ + expression_text(expression) + ")"@,
        _ => expression_text(expression),
    }
}

/// The names declared once `statement` has been written in a block that had
/// declared `declared`: a definition adds its name, nothing else adds any.
pub open spec fn declares(statement: StatementView, declared: Set<Seq<char>>) -> Set<Seq<char>> {
    match statement {
        StatementView::Definition { identifier, .. } => declared.insert(identifier),
        _ => declared,
    }
}

/// What stands before a definition: the marker that declares a variable
/// which can be assigned to again, where the block has not declared the name;
/// nothing where it has.
pub open spec fn declaration(identifier: Seq<char>, declared: Set<Seq<char>>) -> Seq<char> {
    if declared.contains(identifier) {
        Seq::empty()
    } else {
        "let mut "@
    }
}

/// A statement as text, without the indentation before it. The statement
/// stands `depth` tabs deep, in a block that has declared `declared` so far.
///
/// A definition and a `return` end at their `;`: the line feed behind it is
/// put in when the whole program is written. A conditional or loop is
/// written as its head, its body as a block one tab deeper, and the closing
/// brace on a line of its own, as deep as the head. The loop counts from one
/// up to, and not including, its bound.
pub open spec fn statement_text(
    statement: StatementView,
    depth: int,
    declared: Set<Seq<char>>,
) -> Seq<char>
    decreases statement, 0nat,
{
    match statement {
        StatementView::Definition { identifier, value } => {
            declaration(identifier, declared) + identifier + "="@ + expression_text(value) + ";"@
        },
        StatementView::Return(value) => {
            "println!(\"{}\","@ + expression_text(value) + ");"@
        },
        StatementView::If { condition, block } => {
            "if "@ + expression_text(condition) + " {\n"@ + block_text(
                block,
                depth + 1,
                declared,
            ) + tabs(depth) + "}\n"@
        },
        StatementView::For { index, expression, block } => {
            "for "@ + index + " in 1.."@ + expression_text(expression) + " {\n"@ + block_text(
                block,
                depth + 1,
                declared,
            ) + tabs(depth) + "}\n"@
        },
    }
}

/// Statements as text, one directly after the other, each preceded by
/// `lead`. The statements stand `depth` tabs deep, which decides how deep
/// their bodies and closing braces go; each is written with what the block
/// has declared before it.
pub open spec fn code_text(
    statements: Seq<StatementView>,
    lead: Seq<char>,
    depth: int,
    declared: Set<Seq<char>>,
) -> Seq<char>
    decreases statements, 1nat,
{
    if statements.len() == 0 {
        Seq::empty()
    } else {
        lead + statement_text(statements[0], depth, declared) + code_text(
            statements.skip(1),
            lead,
            depth,
            declares(statements[0], declared),
        )
    }
}

/// A block as text: statements `depth` tabs deep, each indented accordingly.
pub open spec fn block_text(
    block: Seq<StatementView>,
    depth: int,
    declared: Set<Seq<char>>,
) -> Seq<char>
    decreases block, 2nat,
{
    code_text(block, tabs(depth), depth, declared)
}

/// The names declared once all of `statements` have been written.
pub open spec fn declared_after(statements: Seq<StatementView>, declared: Set<Seq<char>>) -> Set<
    Seq<char>,
>
    decreases statements.len(),
{
    if statements.len() == 0 {
        declared
    } else {
        declared_after(statements.skip(1), declares(statements[0], declared))
    }
}

/// A text with a line feed put in behind every `;`.
pub open spec fn with_line_feeds(text: Seq<char>) -> Seq<char>
    decreases text.len(),
{
    if text.len() == 0 {
        Seq::empty()
    } else if text.last() == ';' {
        with_line_feeds(text.drop_last()).push(';').push('\n')
    } else {
        with_line_feeds(text.drop_last()).push(text.last())
    }
}

/// A whole program as text: the statements, `depth` tabs deep and with a
/// line feed behind every `;`, inside the one block that the target language
/// enters a program by, whose head and closing brace stand one tab less
/// deep. An empty line ends the body.
pub open spec fn program_text(
    statements: Seq<StatementView>,
    depth: int,
    declared: Set<Seq<char>>,
) -> Seq<char> {
    tabs(depth - 1) + "fn main() {\n"@ + with_line_feeds(block_text(statements, depth, declared))
        + "\n"@ + tabs(depth - 1) + "}"@
}

/// Whether the text holds no `;`.
pub open spec fn is_plain(text: Seq<char>) -> bool {
    forall|i: int| 0 <= i < text.len() ==> #[trigger] text[i] != ';'
}

/// Two texts without `;` in a row hold none.
pub proof fn lemma_plain_parts(first: Seq<char>, second: Seq<char>)
    requires
        is_plain(first),
        is_plain(second),
    ensures
        is_plain(first + second),
{
    assert forall|i: int| 0 <= i < (first + second).len() implies #[trigger] (first + second)[i]
        != ';' by {
        if i < first.len() {
            assert((first + second)[i] == first[i]);
        } else {
            assert((first + second)[i] == second[i - first.len()]);
        }
    }
}

/// A text without `;` gets no line feed: it stays as it is.
pub proof fn lemma_line_feeds_leave_plain_text(text: Seq<char>)
    requires
        is_plain(text),
    ensures
        with_line_feeds(text) == text,
    decreases text.len(),
{
    if text.len() > 0 {
        assert(text.last() == text[text.len() - 1]);
        assert forall|i: int| 0 <= i < text.drop_last().len() implies #[trigger] text.drop_last()[i]
            != ';' by {
            assert(text.drop_last()[i] == text[i]);
        }
        lemma_line_feeds_leave_plain_text(text.drop_last());
        assert(text.drop_last().push(text.last()) =~= text);
    }
}

/// Line feeds are put in part by part: what stands behind a `;` does not
/// depend on what stands before or after it.
pub proof fn lemma_line_feeds_in_parts(first: Seq<char>, second: Seq<char>)
    ensures
        with_line_feeds(first + second) == with_line_feeds(first) + with_line_feeds(second),
    decreases second.len(),
{
    if second.len() == 0 {
        assert(first + second =~= first);
        assert(with_line_feeds(first) + with_line_feeds(second) =~= with_line_feeds(first));
    } else {
        let whole = first + second;
        assert(whole.drop_last() =~= first + second.drop_last());
        lemma_line_feeds_in_parts(first, second.drop_last());
        let before = with_line_feeds(first) + with_line_feeds(second.drop_last());
        if second.last() == ';' {
            assert(before.push(';').push('\n') =~= with_line_feeds(first) + with_line_feeds(
                second.drop_last(),
            ).push(';').push('\n'));
        } else {
            assert(before.push(second.last()) =~= with_line_feeds(first) + with_line_feeds(
                second.drop_last(),
            ).push(second.last()));
        }
    }
}

/// The number of statements in a block, those of all bodies included.
pub open spec fn block_size(block: Seq<StatementView>) -> nat
    decreases block, 1nat,
{
    if block.len() == 0 {
        0
    } else {
        statement_size(block[0]) + block_size(block.skip(1))
    }
}

/// The number of statements that a statement is made of, itself included.
pub open spec fn statement_size(statement: StatementView) -> nat
    decreases statement, 0nat,
{
    match statement {
        StatementView::If { block, .. } => 1 + block_size(block),
        StatementView::For { block, .. } => 1 + block_size(block),
        _ => 1,
    }
}

/// A block written in two parts reads as the block written in one: the
/// second part is written with what the first has declared.
pub proof fn lemma_code_text_in_parts(
    statements: Seq<StatementView>,
    first: int,
    lead: Seq<char>,
    depth: int,
    declared: Set<Seq<char>>,
)
    requires
        0 <= first <= statements.len(),
    ensures
        code_text(statements, lead, depth, declared) == code_text(
            statements.take(first),
            lead,
            depth,
            declared,
        ) + code_text(
            statements.skip(first),
            lead,
            depth,
            declared_after(statements.take(first), declared),
        ),
        declared_after(statements, declared) == declared_after(
            statements.skip(first),
            declared_after(statements.take(first), declared),
        ),
    decreases first,
{
    if first == 0 {
        assert(statements.skip(0) =~= statements);
    } else {
        let next = declares(statements[0], declared);
        let rest = statements.skip(1);
        lemma_code_text_in_parts(rest, first - 1, lead, depth, next);
        assert(statements.take(first).skip(1) =~= rest.take(first - 1));
        assert(rest.skip(first - 1) =~= statements.skip(first));
    }
}

/// What a block has declared by its end: all that it had declared at its
/// start, and the name of each of its definitions.
pub proof fn lemma_declared_after_holds(
    statements: Seq<StatementView>,
    declared: Set<Seq<char>>,
    name: Seq<char>,
)
    ensures
        declared_after(statements, declared).contains(name) <==> declared.contains(name) || exists|
            i: int,
        |
            0 <= i < statements.len() && defines(#[trigger] statements[i], name),
    decreases statements.len(),
{
    if statements.len() > 0 {
        let rest = statements.skip(1);
        let next = declares(statements[0], declared);
        lemma_declared_after_holds(rest, next, name);
        if exists|i: int| 0 <= i < statements.len() && defines(#[trigger] statements[i], name) {
            let i = choose|i: int| 0 <= i < statements.len() && defines(
                #[trigger] statements[i],
                name,
            );
            if i > 0 {
                assert(defines(rest[i - 1], name));
            }
        }
    }
}

/// Whether `statement` is a definition of `name`.
pub open spec fn defines(statement: StatementView, name: Seq<char>) -> bool {
    statement matches StatementView::Definition { identifier, .. } && identifier == name
}

/// What the block has declared before its statement at `at` is written.
pub open spec fn declared_before(
    statements: Seq<StatementView>,
    at: int,
    declared: Set<Seq<char>>,
) -> Set<Seq<char>> {
    declared_after(statements.take(at), declared)
}

/// The statement at `at` as it is written in its block: with what the block
/// has declared before it.
pub open spec fn written(
    statements: Seq<StatementView>,
    at: int,
    depth: int,
    declared: Set<Seq<char>>,
) -> Seq<char> {
    statement_text(statements[at], depth, declared_before(statements, at, declared))
}

/// The text of a block holds each of its statements as it is written in
/// the block, between what stands before and after it.
pub proof fn lemma_code_text_holds_written(
    statements: Seq<StatementView>,
    at: int,
    lead: Seq<char>,
    depth: int,
    declared: Set<Seq<char>>,
)
    requires
        0 <= at < statements.len(),
    ensures
        code_text(statements, lead, depth, declared) == code_text(
            statements.take(at),
            lead,
            depth,
            declared,
        ) + lead + written(statements, at, depth, declared) + code_text(
            statements.skip(at + 1),
            lead,
            depth,
            declared_before(statements, at + 1, declared),
        ),
{
    let here = declared_before(statements, at, declared);
    let from = statements.skip(at);
    lemma_code_text_in_parts(statements, at, lead, depth, declared);
    lemma_code_text_in_parts(statements.take(at + 1), at, lead, depth, declared);
    assert(statements.take(at + 1).take(at) =~= statements.take(at));
    assert(statements.take(at + 1).skip(at) =~= seq![statements[at]]);
    assert(declared_after(seq![statements[at]], here) == declares(statements[at], here)) by {
        assert(declared_after(seq![statements[at]].skip(1), declares(statements[at], here))
            == declares(statements[at], here));
    }
    assert(from.skip(1) =~= statements.skip(at + 1));
}

/// The first definition of a name in a block declares the variable: where
/// the block had not declared the name and no statement before `at` defines
/// it, the definition at `at` is written with the declaration.
pub proof fn lemma_first_definition_declares(
    statements: Seq<StatementView>,
    at: int,
    depth: int,
    declared: Set<Seq<char>>,
)
    requires
        0 <= at < statements.len(),
        statements[at] is Definition,
        !declared.contains(statements[at]->identifier),
        forall|i: int|
            0 <= i < at ==> !defines(#[trigger] statements[i], statements[at]->identifier),
    ensures
        written(statements, at, depth, declared) == "let mut "@ + statements[at]->identifier
            + "="@ + expression_text(statements[at]->Definition_value) + ";"@,
{
    lemma_declared_after_holds(statements.take(at), declared, statements[at]->identifier);
}

/// A later definition of a name in the same block only assigns: where a
/// statement before `at` defines the same name, the definition at `at` is
/// written without the declaration.
pub proof fn lemma_later_definition_assigns(
    statements: Seq<StatementView>,
    earlier: int,
    at: int,
    depth: int,
    declared: Set<Seq<char>>,
)
    requires
        0 <= earlier < at < statements.len(),
        statements[at] is Definition,
        defines(statements[earlier], statements[at]->identifier),
    ensures
        written(statements, at, depth, declared) == statements[at]->identifier + "="@
            + expression_text(statements[at]->Definition_value) + ";"@,
{
    let name = statements[at]->identifier;
    lemma_declared_after_holds(statements.take(at), declared, name);
    assert(defines(statements.take(at)[earlier], name));
}

/// What the body of a conditional or loop declares is forgotten where the
/// body ends: the block around it has declared what it had declared before.
pub proof fn lemma_body_declares_for_itself(statement: StatementView, declared: Set<Seq<char>>)
    requires
        statement is If || statement is For,
    ensures
        declares(statement, declared) == declared,
{
}

} // verus!
