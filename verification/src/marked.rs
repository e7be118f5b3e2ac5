//! Statements with the answer on each label that a prefix starts: a
//! section, or a malformed block. The tree builder reads these.

use crate::error::{Error, ErrorView};
use crate::kind::SectionType;
use crate::section::{
    classified, classify, get_section, label_kind, lemma_one_kind_per_label, Section,
};
use crate::statement::{clone_statements, lemma_block_view, views, Statement, StatementView};
use vstd::prelude::*;

verus! {

/// One statement of a block, with the verdict on it.
#[derive(Debug, PartialEq, Eq)]
pub enum Marked {
    /// A statement that is no section: it has no label, or no prefix
    /// starts its label.
    Ordinary(Statement),
    /// A block whose label is the prefix of `kind`, then `ident`; the
    /// statements of the block are marked in turn.
    Section { kind: SectionType, ident: String, statements: Vec<Marked> },
    /// A block whose label is the prefix of `kind`, then `payload`, which
    /// is no identifier; `block` holds the statements of the block as they
    /// are.
    Malformed { kind: SectionType, payload: String, block: Vec<Statement> },
}

/// The mathematical value of a [`Marked`].
pub enum MarkedView {
    Ordinary(StatementView),
    Section { kind: SectionType, ident: Seq<char>, statements: Seq<MarkedView> },
    Malformed { kind: SectionType, payload: Seq<char>, block: Seq<StatementView> },
}

/// The value of a marked statement.
pub open spec fn marked_view(marked: Marked) -> MarkedView
    decreases marked,
{
    match marked {
        Marked::Ordinary(statement) => MarkedView::Ordinary(statement@),
        Marked::Section { kind, ident, statements } => MarkedView::Section {
            kind,
            ident: ident@,
            statements: Seq::new(
                statements@.len(),
                |i: int|
                    if 0 <= i < statements@.len() {
                        marked_view(statements@[i])
                    } else {
                        arbitrary()
                    },
            ),
        },
        Marked::Malformed { kind, payload, block } => MarkedView::Malformed {
            kind,
            payload: payload@,
            block: views(block@),
        },
    }
}

impl View for Marked {
    type V = MarkedView;

    open spec fn view(&self) -> MarkedView {
        marked_view(*self)
    }
}

/// The values of a sequence of marked statements, one for one.
pub open spec fn marked_views(marked: Seq<Marked>) -> Seq<MarkedView> {
    Seq::new(marked.len(), |i: int| marked[i]@)
}

/// The value of a section holds the values of the section's statements.
pub proof fn lemma_section_view(marked: Marked)
    requires
        marked is Section,
    ensures
        marked@ is Section,
        marked@->statements == marked_views(marked->statements@),
        marked@->ident == marked->ident@,
        marked@ matches MarkedView::Section { kind, .. } && marked matches Marked::Section {
            kind: same,
            ..
        } && kind == same,
{
    assert(marked@->statements =~= marked_views(marked->statements@));
}

/// The statement that a marked statement was: a section and a malformed
/// block are blocks again, labelled with the prefix of the kind and what
/// followed it.
pub open spec fn unmark(marked: MarkedView) -> StatementView
    decreases marked,
{
    match marked {
        MarkedView::Ordinary(statement) => statement,
        MarkedView::Section { kind, ident, statements } => StatementView::Block {
            label: kind.spec_prefix() + ident,
            statements: Seq::new(
                statements.len(),
                |i: int|
                    if 0 <= i < statements.len() {
                        unmark(statements[i])
                    } else {
                        arbitrary()
                    },
            ),
        },
        MarkedView::Malformed { kind, payload, block } => StatementView::Block {
            label: kind.spec_prefix() + payload,
            statements: block,
        },
    }
}

/// The statements that marked statements were, one for one.
pub open spec fn unmark_all(marked: Seq<MarkedView>) -> Seq<StatementView> {
    Seq::new(marked.len(), |i: int| unmark(marked[i]))
}

/// Whether only what a prefix starts is marked as more than ordinary: an
/// ordinary statement has no label, or a label that no prefix starts, and
/// the statements of a section are marked so in turn.
pub open spec fn well_marked(marked: MarkedView) -> bool
    decreases marked,
{
    match marked {
        MarkedView::Ordinary(statement) => match statement {
            StatementView::Plain(_) => true,
            StatementView::Block { label, .. } => label_kind(label) is None,
        },
        MarkedView::Section { statements, .. } => forall|i: int|
            0 <= i < statements.len() ==> well_marked(#[trigger] statements[i]),
        MarkedView::Malformed { .. } => true,
    }
}

/// Whether `marked` is the block `statements` with a verdict on each
/// label that a prefix starts: the same statements with the same texts in
/// the same places, and nothing else marked.
pub open spec fn is_marking(marked: Seq<MarkedView>, statements: Seq<StatementView>) -> bool {
    &&& unmark_all(marked) == statements
    &&& forall|i: int| 0 <= i < marked.len() ==> well_marked(#[trigger] marked[i])
}

/// A section as the builder reads it from a marked statement.
pub struct MarkedSection {
    pub section_type: SectionType,
    pub ident: Seq<char>,
    pub statements: Seq<MarkedView>,
}

/// What a marked statement says: an ordinary statement (`None`), a
/// section, or the fault of a malformed label.
pub open spec fn verdict(marked: MarkedView) -> Result<Option<MarkedSection>, ErrorView> {
    match marked {
        MarkedView::Ordinary(_) => Ok(None),
        MarkedView::Section { kind, ident, statements } => Ok(
            Some(MarkedSection { section_type: kind, ident, statements }),
        ),
        MarkedView::Malformed { kind, payload, .. } => Err(
            ErrorView::MalformedSection { kind, payload, at: Seq::empty() },
        ),
    }
}

/// Marks a block: every statement is classified, and so are the
/// statements of every section found, at every depth. A label that a
/// prefix starts becomes a section or a malformed block as the classifier
/// says; nothing else changes.
#[verifier::loop_isolation(false)]
pub fn mark(statements: &Vec<Statement>) -> (marked: Vec<Marked>)
    ensures
        is_marking(marked_views(marked@), views(statements@)),
    decreases views(statements@),
{
    let mut marked: Vec<Marked> = Vec::new();
    let mut i: usize = 0;
    while i < statements.len()
        invariant
            i <= statements.len(),
            marked@.len() == i,
            forall|k: int|
                0 <= k < i ==> unmark((#[trigger] marked@[k])@) == statements@[k]@ && well_marked(
                    marked@[k]@,
                ),
        decreases statements.len() - i,
    {
        let statement = &statements[i];
        let found = get_section(statement);
        proof {
            if statement is Block {
                lemma_block_view(*statement);
                if label_kind(statement->label@) is Some {
                    let kind = label_kind(statement->label@)->Some_0;
                    lemma_one_kind_per_label(statement->label@, kind);
                    assert(kind.spec_prefix() + statement->label@.skip(
                        kind.spec_prefix().len() as int,
                    ) =~= statement->label@);
                }
            }
        }
        let one = match found {
            Ok(None) => Marked::Ordinary(statement.clone()),
            Ok(Some(section)) => {
                let Section { section_type, ident, statements: inner } = section;
                proof {
                    assert(views(statements@)[i as int] == statement@);
                    assert(views(inner@) == statement@->statements);
                }
                let below = mark(&inner);
                let one = Marked::Section { kind: section_type, ident, statements: below };
                proof {
                    lemma_section_view(one);
                    assert(unmark(one@)->statements =~= unmark_all(marked_views(below@)));
                }
                one
            },
            Err(fault) => match (fault, statement) {
                (
                    Error::MalformedSection { kind, payload, at },
                    Statement::Block { label, statements: inner },
                ) => Marked::Malformed { kind, payload, block: clone_statements(inner) },
                _ => {
                    proof {
                        assert(false);
                    }
                    Marked::Ordinary(statement.clone())
                },
            },
        };
        marked.push(one);
        i += 1;
    }
    proof {
        assert(unmark_all(marked_views(marked@)) =~= views(statements@));
    }
    marked
}

} // verus!
