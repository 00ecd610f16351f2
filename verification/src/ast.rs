//! The tree of a program: what the parser builds and the generator walks.
//! Every node owns what stands below it.

use vstd::prelude::*;

verus! {

/// An expression: a tree in which every node owns its operands.
#[derive(Debug, PartialEq)]
pub enum Expression {
    /// An integer literal.
    Number(i32),
    /// A reference to a variable.
    Identifier(String),
    /// A binary operation on two expressions.
    BinaryOp { operator: String, left: Box<Expression>, right: Box<Expression> },
}

/// A statement; a conditional or a loop owns the statements of its body.
#[derive(Debug, PartialEq)]
pub enum Statement {
    /// Declares the variable, or assigns to it where it is already declared.
    Definition { identifier: String, value: Expression },
    /// Writes the value to the program's output; it ends nothing.
    Return(Expression),
    /// A conditional with a single branch.
    If { condition: Expression, block: Box<Vec<Statement>> },
    /// A loop in which `index` counts from one up to, and not including, the
    /// value of `expression`.
    For { index: String, expression: Expression, block: Box<Vec<Statement>> },
}

/// A whole program: its top-level statements in order.
#[derive(Debug, PartialEq)]
pub struct Program {
    pub statements: Vec<Statement>,
}

/// The mathematical value of an [`Expression`].
pub enum ExpressionView {
    Number(i32),
    Identifier(Seq<char>),
    BinaryOp { operator: Seq<char>, left: Box<ExpressionView>, right: Box<ExpressionView> },
}

/// The mathematical value of a [`Statement`].
pub enum StatementView {
    Definition { identifier: Seq<char>, value: ExpressionView },
    Return(ExpressionView),
    If { condition: ExpressionView, block: Seq<StatementView> },
    For { index: Seq<char>, expression: ExpressionView, block: Seq<StatementView> },
}

impl Expression {
    /// The value of the tree, node by node.
    pub open spec fn model(&self) -> ExpressionView
        decreases self,
    {
        match self {
            Expression::Number(value) => ExpressionView::Number(*value),
            Expression::Identifier(name) => ExpressionView::Identifier(name@),
            Expression::BinaryOp { operator, left, right } => ExpressionView::BinaryOp {
                operator: operator@,
                left: Box::new(left.model()),
                right: Box::new(right.model()),
            },
        }
    }
}

impl View for Expression {
    type V = ExpressionView;

    open spec fn view(&self) -> ExpressionView {
        self.model()
    }
}

impl Statement {
    /// The value of the statement and of everything below it.
    pub open spec fn model(&self) -> StatementView
        decreases self,
    {
        match self {
            Statement::Definition { identifier, value } => StatementView::Definition {
                identifier: identifier@,
                value: value@,
            },
            Statement::Return(value) => StatementView::Return(value@),
            Statement::If { condition, block } => StatementView::If {
                condition: condition@,
                block: Seq::new(
                    block@.len(),
                    |i: int|
                        if 0 <= i < block@.len() {
                            block@[i].model()
                        } else {
                            arbitrary()
                        },
                ),
            },
            Statement::For { index, expression, block } => StatementView::For {
                index: index@,
                expression: expression@,
                block: Seq::new(
                    block@.len(),
                    |i: int|
                        if 0 <= i < block@.len() {
                            block@[i].model()
                        } else {
                            arbitrary()
                        },
                ),
            },
        }
    }
}

impl View for Statement {
    type V = StatementView;

    open spec fn view(&self) -> StatementView {
        self.model()
    }
}

/// The values of a sequence of statements, in order.
pub open spec fn statement_views(statements: Seq<Statement>) -> Seq<StatementView> {
    Seq::new(statements.len(), |i: int| statements[i]@)
}

impl View for Program {
    type V = Seq<StatementView>;

    open spec fn view(&self) -> Seq<StatementView> {
        statement_views(self.statements@)
    }
}

impl Clone for Expression {
    fn clone(&self) -> (copy: Self)
        ensures
            copy == *self,
        decreases self,
    {
        match self {
            Expression::Number(value) => Expression::Number(*value),
            Expression::Identifier(name) => Expression::Identifier(name.clone()),
            Expression::BinaryOp { operator, left, right } => {
                let left_copy = (**left).clone();
                let right_copy = (**right).clone();
                Expression::BinaryOp {
                    operator: operator.clone(),
                    left: Box::new(left_copy),
                    right: Box::new(right_copy),
                }
            },
        }
    }
}

/// A copy of a run of statements, bodies included.
pub fn copy_statements(statements: &Vec<Statement>) -> (copy: Vec<Statement>)
    ensures
        statement_views(copy@) == statement_views(statements@),
    decreases statements,
{
    let mut copy: Vec<Statement> = Vec::new();
    let mut at: usize = 0;
    while at < statements.len()
        invariant
            at <= statements.len(),
            copy@.len() == at,
            forall|i: int| 0 <= i < at ==> copy@[i]@ == statements@[i]@,
        decreases statements.len() - at,
    {
        copy.push(statements[at].clone());
        at = at + 1;
    }
    copy
}

impl Clone for Statement {
    fn clone(&self) -> (copy: Self)
        ensures
            copy@ == self@,
        decreases self,
    {
        let copy = match self {
            Statement::Definition { identifier, value } => Statement::Definition {
                identifier: identifier.clone(),
                value: value.clone(),
            },
            Statement::Return(value) => Statement::Return(value.clone()),
            Statement::If { condition, block } => Statement::If {
                condition: condition.clone(),
                block: Box::new(copy_statements(&**block)),
            },
            Statement::For { index, expression, block } => Statement::For {
                index: index.clone(),
                expression: expression.clone(),
                block: Box::new(copy_statements(&**block)),
            },
        };
        proof {
            lemma_body_views(*self);
            lemma_body_views(copy);
        }
        copy
    }
}

impl Clone for Program {
    fn clone(&self) -> (copy: Self)
        ensures
            copy@ == self@,
    {
        Program { statements: copy_statements(&self.statements) }
    }
}

/// The body of a conditional or loop has the values of its statements.
pub proof fn lemma_body_views(statement: Statement)
    ensures
        statement matches Statement::If { block, .. } ==> statement@->If_block == statement_views(
            block@,
        ),
        statement matches Statement::For { block, .. } ==> statement@->For_block
            == statement_views(block@),
{
}

} // verus!
