//! Statements of a scenario's block, as far as the compiler reads them.

use vstd::prelude::*;

verus! {

/// One statement of a block. A block expression that carries a label is held
/// with its label and contents; every other statement is held as its text.
#[derive(Debug, PartialEq, Eq)]
pub enum Statement {
    Plain(String),
    Block { label: String, statements: Vec<Statement> },
}

/// The mathematical value of a [`Statement`].
pub enum StatementView {
    Plain(Seq<char>),
    Block { label: Seq<char>, statements: Seq<StatementView> },
}

/// The value of a statement: its text, or its label and the values of the
/// statements in its block.
pub open spec fn statement_view(statement: Statement) -> StatementView
    decreases statement,
{
    match statement {
        Statement::Plain(text) => StatementView::Plain(text@),
        Statement::Block { label, statements } => StatementView::Block {
            label: label@,
            statements: Seq::new(
                statements@.len(),
                |i: int|
                    if 0 <= i < statements@.len() {
                        statement_view(statements@[i])
                    } else {
                        arbitrary()
                    },
            ),
        },
    }
}

impl View for Statement {
    type V = StatementView;

    open spec fn view(&self) -> StatementView {
        statement_view(*self)
    }
}

/// The values of a sequence of statements, one for one.
pub open spec fn views(statements: Seq<Statement>) -> Seq<StatementView> {
    Seq::new(statements.len(), |i: int| statements[i]@)
}

/// The value of a labelled block holds the values of the block's statements.
pub proof fn lemma_block_view(statement: Statement)
    requires
        statement is Block,
    ensures
        statement@ == (StatementView::Block {
            label: statement->label@,
            statements: views(statement->statements@),
        }),
{
    assert(statement@->statements =~= views(statement->statements@));
}

/// Appending a statement appends its value.
pub proof fn lemma_views_push(statements: Seq<Statement>, last: Statement)
    ensures
        views(statements.push(last)) == views(statements).push(last@),
{
    assert(views(statements.push(last)) =~= views(statements).push(last@));
}

/// A copy of a list of statements, statement by statement.
pub fn clone_statements(statements: &Vec<Statement>) -> (copy: Vec<Statement>)
    ensures
        views(copy@) == views(statements@),
{
    let mut copy: Vec<Statement> = Vec::new();
    let mut i: usize = 0;
    while i < statements.len()
        invariant
            i <= statements.len(),
            views(copy@) == views(statements@.take(i as int)),
        decreases statements.len() - i,
    {
        let ghost before = copy@;
        copy.push(statements[i].clone());
        proof {
            lemma_views_push(before, copy@[i as int]);
            lemma_views_push(statements@.take(i as int), statements@[i as int]);
            assert(statements@.take(i + 1) =~= statements@.take(i as int).push(statements@[i as int]));
        }
        i += 1;
    }
    assert(statements@.take(statements.len() as int) =~= statements@);
    copy
}

impl Clone for Statement {
    #[verifier::loop_isolation(false)]
    fn clone(&self) -> (copy: Statement)
        ensures
            copy@ == self@,
        decreases self,
    {
        match self {
            Statement::Plain(text) => Statement::Plain(text.clone()),
            Statement::Block { label, statements } => {
                let mut inner: Vec<Statement> = Vec::new();
                let mut i: usize = 0;
                while i < statements.len()
                    invariant
                        i <= statements.len(),
                        inner@.len() == i,
                        forall|k: int| 0 <= k < i ==> (#[trigger] inner@[k])@ == statements@[k]@,
                    decreases statements.len() - i,
                {
                    inner.push(statements[i].clone());
                    i += 1;
                }
                let copy = Statement::Block { label: label.clone(), statements: inner };
                proof {
                    lemma_block_view(copy);
                    lemma_block_view(*self);
                    assert(views(inner@) =~= views(statements@));
                }
                copy
            },
        }
    }
}

} // verus!
