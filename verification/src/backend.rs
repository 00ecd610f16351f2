//! The code generator: walks the tree and writes the target program.

use crate::ast::{lemma_body_views, statement_views, Expression, Statement, StatementView};
use crate::target::{
    block_size, block_text, code_text, declared_after, declares, expression_text, operand_text,
    program_text, statement_size, statement_text, tabs,
};
use crate::text::{add_line_feeds, decimal, indentation};
use vstd::prelude::*;
use vstd::string::StringExecFns;

verus! {

/// The names that a list of names holds.
pub open spec fn name_set(names: Seq<String>) -> Set<Seq<char>> {
    Set::new(|name: Seq<char>| exists|i: int| 0 <= i < names.len() && #[trigger] names[i]@ == name)
}

/// A copy of a list of names.
fn copy_names(names: &Vec<String>) -> (copy: Vec<String>)
    ensures
        copy@ == names@,
{
    let mut copy: Vec<String> = Vec::new();
    let mut at: usize = 0;
    while at < names.len()
        invariant
            at <= names.len(),
            copy@ == names@.take(at as int),
        decreases names.len() - at,
    {
        copy.push(names[at].clone());
        at = at + 1;
    }
    copy
}

/// The generator for one block: the statements still to be written, the names
/// that the block has declared so far, and how deep the block stands.
pub struct Generate {
    statements: Vec<Statement>,
    pos: usize,
    identifiers: Vec<String>,
    /// The indentation one level above the block's statements.
    margin: String,
    /// The indentation of the block's statements.
    indent: String,
    /// How many levels the block stands to the left of the first column,
    /// where its depth is negative.
    shortfall: u32,
}

impl Generate {
    /// The statements that are still to be written, in order.
    pub closed spec fn remaining(&self) -> Seq<StatementView> {
        statement_views(self.statements@.skip(self.pos as int))
    }

    /// The names that the block has declared so far.
    pub closed spec fn declared(&self) -> Set<Seq<char>> {
        name_set(self.identifiers@)
    }

    /// How many tabs deep the statements of the block stand. A depth that is
    /// not positive is written as no indentation; a body one level deeper
    /// still counts from it.
    pub closed spec fn depth(&self) -> int {
        self.indent@.len() - self.shortfall
    }

    /// The cursor lies within the statements or directly behind them, and
    /// the two indentations kept at hand are those of the block's depth.
    pub closed spec fn well_formed(&self) -> bool {
        &&& self.pos <= self.statements.len()
        &&& (self.shortfall == 0 || self.indent@.len() == 0)
        &&& self.indent@ == tabs(self.depth())
        &&& self.margin@ == tabs(self.depth() - 1)
    }

    /// Whether the generator, having started as `before`, has written the
    /// first of the statements that were left, and `text` is what it wrote.
    spec fn emitted(&self, before: &Generate, text: String) -> bool {
        &&& self.well_formed()
        &&& text@ == statement_text(before.remaining()[0], before.depth(), before.declared())
        &&& self.remaining() == before.remaining().skip(1)
        &&& self.declared() == declares(before.remaining()[0], before.declared())
        &&& self.depth() == before.depth()
    }

    /// A generator for the given statements, in a block that has declared
    /// `identifiers`. The statements stand one level deeper than `space`
    /// says.
    pub fn new(statements: Vec<Statement>, identifiers: Vec<String>, space: i32) -> (generator:
        Self)
        ensures
            generator.well_formed(),
            generator.remaining() == statement_views(statements@),
            generator.declared() == name_set(identifiers@),
            generator.depth() == space + 1,
    {
        let margin = indentation(space);
        let mut indent = margin.clone();
        let mut shortfall: u32 = 0;
        if space >= 0 {
            indent.push('\t');
        } else {
            shortfall = (-(space as i64) - 1) as u32;
        }
        proof {
            assert(indent@ =~= tabs(space + 1));
            assert(statements@.skip(0) =~= statements@);
        }
        Generate { statements, pos: 0, identifiers, margin, indent, shortfall }
    }

    /// Whether every statement has been written.
    pub fn is_finished(&self) -> (finished: bool)
        requires
            self.well_formed(),
        ensures
            finished == (self.remaining().len() == 0),
    {
        self.pos >= self.statements.len()
    }

    /// An expression in the target syntax.
    fn from_expression(expression: &Expression) -> (text: String)
        ensures
            text@ == expression_text(expression@),
        decreases expression, 0nat,
    {
        match expression {
            Expression::Number(value) => decimal(*value),
            Expression::Identifier(name) => name.clone(),
            Expression::BinaryOp { operator, left, right } => {
                let mut text = Self::from_operand(left);
                text.append(operator.as_str());
                let right_text = Self::from_operand(right);
                text.append(right_text.as_str());
                text
            },
        }
    }

    /// An expression in the target syntax, as the operand of an operation.
    fn from_operand(expression: &Expression) -> (text: String)
        ensures
            text@ == operand_text(expression@),
        decreases expression, 1nat,
    {
        match expression {
            Expression::BinaryOp { .. } => {
                let mut text = "(".to_owned();
                let inner = Self::from_expression(expression);
                text.append(inner.as_str());
                text.append(")");
                text
            },
            _ => Self::from_expression(expression),
        }
    }

    /// Whether the block has declared `name`.
    fn is_declared(&self, name: &String) -> (found: bool)
        ensures
            found == self.declared().contains(name@),
    {
        let mut at: usize = 0;
        while at < self.identifiers.len()
            invariant
                at <= self.identifiers.len(),
                forall|i: int| 0 <= i < at ==> self.identifiers[i]@ != name@,
            decreases self.identifiers.len() - at,
        {
            if self.identifiers[at] == *name {
                return true;
            }
            at = at + 1;
        }
        false
    }

    /// Writes a definition. The variable is declared where the block has not
    /// declared it before, and counts as declared from then on; the name and
    /// its value are written in either case.
    fn generate_definition(&mut self) -> (text: String)
        requires
            old(self).well_formed(),
            old(self).remaining().len() > 0,
            old(self).remaining()[0] is Definition,
        ensures
            final(self).emitted(old(self), text),
    {
        let mut text = String::new();
        match &self.statements[self.pos] {
            Statement::Definition { identifier, value } => {
                let name = identifier.clone();
                let value_text = Self::from_expression(value);
                if !self.is_declared(&name) {
                    text.append("let mut ");
                    self.identifiers.push(name.clone());
                    proof {
                        lemma_name_added(old(self).identifiers@, name);
                    }
                } else {
                    assert(self.declared().insert(name@) =~= self.declared());
                }
                text.append(name.as_str());
                text.append("=");
                text.append(value_text.as_str());
                text.append(";");
            },
            _ => {},
        }
        self.pos = self.pos + 1;
        proof {
            assert(self.remaining() =~= old(self).remaining().skip(1));
        }
        text
    }

    /// Writes the loop whose variable counts from one up to, and not
    /// including, the bound, and the body of the loop one tab deeper.
    fn generate_for(&mut self) -> (text: String)
        requires
            old(self).well_formed(),
            old(self).remaining().len() > 0,
            old(self).remaining()[0] is For,
        ensures
            final(self).emitted(old(self), text),
        decreases block_size(old(self).remaining()), 2nat,
    {
        let mut text = "for ".to_owned();
        let mut body: Vec<Statement> = Vec::new();
        let ghost current = self.statements[self.pos as int];
        proof {
            lemma_body_views(current);
        }
        match &mut self.statements[self.pos] {
            Statement::For { index, expression, block } => {
                let bound = Self::from_expression(expression);
                text.append(index.as_str());
                text.append(" in 1..");
                text.append(bound.as_str());
                std::mem::swap(&mut **block, &mut body);
            },
            _ => {},
        }
        self.pos = self.pos + 1;
        proof {
            assert(statement_size(current@) == 1 + block_size(statement_views(body@)));
            assert(self.remaining() =~= old(self).remaining().skip(1));
        }
        text.append(" {\n");
        let body_text = self.generate_block(body);
        text.append(body_text.as_str());
        proof {
            assert(text@ =~= statement_text(current@, old(self).depth(), old(self).declared()));
        }
        text
    }

    /// Writes the conditional and, one tab deeper, the body that it guards.
    fn generate_if(&mut self) -> (text: String)
        requires
            old(self).well_formed(),
            old(self).remaining().len() > 0,
            old(self).remaining()[0] is If,
        ensures
            final(self).emitted(old(self), text),
        decreases block_size(old(self).remaining()), 2nat,
    {
        let mut text = "if ".to_owned();
        let mut body: Vec<Statement> = Vec::new();
        let ghost current = self.statements[self.pos as int];
        proof {
            lemma_body_views(current);
        }
        match &mut self.statements[self.pos] {
            Statement::If { condition, block } => {
                let condition_text = Self::from_expression(condition);
                text.append(condition_text.as_str());
                std::mem::swap(&mut **block, &mut body);
            },
            _ => {},
        }
        self.pos = self.pos + 1;
        proof {
            assert(statement_size(current@) == 1 + block_size(statement_views(body@)));
            assert(self.remaining() =~= old(self).remaining().skip(1));
        }
        text.append(" {\n");
        let body_text = self.generate_block(body);
        text.append(body_text.as_str());
        proof {
            assert(text@ =~= statement_text(current@, old(self).depth(), old(self).declared()));
        }
        text
    }

    /// Writes the body of a conditional or loop and the brace that closes
    /// it. The body is a block of its own, one tab deeper: it starts from a
    /// copy of the names declared here, and what it declares itself is
    /// dropped with it.
    fn generate_block(&self, block: Vec<Statement>) -> (text: String)
        requires
            self.well_formed(),
        ensures
            text@ == block_text(statement_views(block@), self.depth() + 1, self.declared()) + tabs(
                self.depth(),
            ) + "}\n"@,
        decreases block_size(statement_views(block@)), 6nat,
    {
        let mut deeper = self.indent.clone();
        let mut shortfall: u32 = 0;
        if self.shortfall > 0 {
            shortfall = self.shortfall - 1;
        } else {
            deeper.push('\t');
        }
        let lead = deeper.clone();
        let mut inner = Generate {
            statements: block,
            pos: 0,
            identifiers: copy_names(&self.identifiers),
            margin: self.indent.clone(),
            indent: deeper,
            shortfall,
        };
        proof {
            assert(inner.indent@ =~= tabs(self.depth() + 1));
            assert(inner.statements@.skip(0) =~= block@);
        }
        let mut text = inner.generate_lines(lead.as_str());
        text.append(self.indent.as_str());
        text.append("}\n");
        text
    }

    /// Writes the statement that prints the value: nothing ends here, the
    /// statements after it are written and run like any other.
    fn generate_return(&mut self) -> (text: String)
        requires
            old(self).well_formed(),
            old(self).remaining().len() > 0,
            old(self).remaining()[0] is Return,
        ensures
            final(self).emitted(old(self), text),
    {
        let mut text = "println!(\"{}\",".to_owned();
        match &self.statements[self.pos] {
            Statement::Return(value) => {
                let value_text = Self::from_expression(value);
                text.append(value_text.as_str());
            },
            _ => {},
        }
        text.append(");");
        self.pos = self.pos + 1;
        proof {
            assert(self.remaining() =~= old(self).remaining().skip(1));
        }
        text
    }

    /// Writes the next statement, without the indentation before it. A
    /// definition and a `return` end at their `;`.
    pub fn generate_statement(&mut self) -> (text: String)
        requires
            old(self).well_formed(),
            old(self).remaining().len() > 0,
        ensures
            final(self).well_formed(),
            text@ == statement_text(
                old(self).remaining()[0],
                old(self).depth(),
                old(self).declared(),
            ),
            final(self).remaining() == old(self).remaining().skip(1),
            final(self).declared() == declares(old(self).remaining()[0], old(self).declared()),
            final(self).depth() == old(self).depth(),
        decreases block_size(old(self).remaining()), 3nat,
    {
        match &self.statements[self.pos] {
            Statement::Definition { .. } => self.generate_definition(),
            Statement::For { .. } => self.generate_for(),
            Statement::If { .. } => self.generate_if(),
            Statement::Return(_) => self.generate_return(),
        }
    }

    /// Writes all statements that are left, one directly after the other,
    /// each preceded by `lead`.
    fn generate_lines(&mut self, lead: &str) -> (text: String)
        requires
            old(self).well_formed(),
        ensures
            final(self).well_formed(),
            text@ == code_text(
                old(self).remaining(),
                lead@,
                old(self).depth(),
                old(self).declared(),
            ),
            final(self).remaining().len() == 0,
            final(self).declared() == declared_after(old(self).remaining(), old(self).declared()),
            final(self).depth() == old(self).depth(),
        decreases block_size(old(self).remaining()), 4nat,
    {
        let mut text = String::new();
        while self.pos < self.statements.len()
            invariant
                self.well_formed(),
                self.depth() == old(self).depth(),
                block_size(self.remaining()) <= block_size(old(self).remaining()),
                code_text(old(self).remaining(), lead@, old(self).depth(), old(self).declared())
                    == text@ + code_text(self.remaining(), lead@, self.depth(), self.declared()),
                declared_after(old(self).remaining(), old(self).declared()) == declared_after(
                    self.remaining(),
                    self.declared(),
                ),
            decreases self.statements.len() - self.pos,
        {
            text.append(lead);
            let line = self.generate_statement();
            text.append(line.as_str());
        }
        text
    }

    /// Writes all statements that are left, one directly after the other,
    /// each preceded by `n` tabs. No line feed stands behind a `;` yet: that
    /// is the work of [`Generate::formatting`].
    pub fn generate_code(&mut self, n: i32) -> (text: String)
        requires
            old(self).well_formed(),
        ensures
            final(self).well_formed(),
            text@ == code_text(
                old(self).remaining(),
                tabs(n as int),
                old(self).depth(),
                old(self).declared(),
            ),
            final(self).remaining().len() == 0,
            final(self).declared() == declared_after(old(self).remaining(), old(self).declared()),
            final(self).depth() == old(self).depth(),
    {
        let lead = indentation(n);
        self.generate_lines(lead.as_str())
    }

    /// Writes the whole program: the statements that are left, with a line
    /// feed behind every `;`, as the block by which the target language
    /// enters a program.
    pub fn formatting(&mut self) -> (text: String)
        requires
            old(self).well_formed(),
        ensures
            final(self).well_formed(),
            text@ == program_text(old(self).remaining(), old(self).depth(), old(self).declared()),
            final(self).remaining().len() == 0,
            final(self).declared() == declared_after(old(self).remaining(), old(self).declared()),
            final(self).depth() == old(self).depth(),
    {
        let mut text = self.margin.clone();
        text.append("fn main() {\n");
        let lead = self.indent.clone();
        let code = self.generate_lines(lead.as_str());
        let lines = add_line_feeds(code.as_str());
        text.append(lines.as_str());
        text.append("\n");
        text.append(self.margin.as_str());
        text.append("}");
        text
    }
}

/// A list of names with one more name holds that name besides its own.
proof fn lemma_name_added(names: Seq<String>, name: String)
    ensures
        name_set(names.push(name)) == name_set(names).insert(name@),
{
    let longer = names.push(name);
    assert forall|other: Seq<char>| name_set(longer).contains(other) <==> name_set(names).insert(
        name@,
    ).contains(other) by {
        if name_set(longer).contains(other) {
            let i = choose|i: int| 0 <= i < longer.len() && #[trigger] longer[i]@ == other;
            if i < names.len() {
            }
        }
        if name_set(names).contains(other) {
            let i = choose|i: int| 0 <= i < names.len() && #[trigger] names[i]@ == other;
            assert(longer[i]@ == other);
        }
        if other == name@ {
            assert(longer[names.len() as int]@ == other);
        }
    }
}

} // verus!
