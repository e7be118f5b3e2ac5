//! What stops the compilation of a scenario.

use crate::grammar::{allowed, allowed_sentence, Grammar, NodeKind};
use crate::kind::SectionType;
use vstd::prelude::*;
use vstd::string::*;

verus! {

/// A fault in a scenario's block. `at` leads to the offending statement: the
/// index of a statement in the scenario's block, then the index of a
/// statement in that section's block, and so on.
#[derive(Debug, PartialEq, Eq)]
pub enum Error {
    /// The label has the prefix of `kind`, and `payload`, the rest of it, is
    /// no identifier.
    MalformedSection { kind: SectionType, payload: String, at: Vec<usize> },
    /// A section of kind `kind` may not stand directly under `parent`.
    IllegalNesting {
        ident: String,
        kind: SectionType,
        parent: NodeKind,
        grammar: Grammar,
        at: Vec<usize>,
    },
    /// An earlier section under the same `parent` has this kind and
    /// identifier.
    DuplicateSibling { ident: String, kind: SectionType, parent: NodeKind, at: Vec<usize> },
}

/// The mathematical value of an [`Error`].
pub enum ErrorView {
    MalformedSection { kind: SectionType, payload: Seq<char>, at: Seq<usize> },
    IllegalNesting {
        ident: Seq<char>,
        kind: SectionType,
        parent: NodeKind,
        grammar: Grammar,
        at: Seq<usize>,
    },
    DuplicateSibling { ident: Seq<char>, kind: SectionType, parent: NodeKind, at: Seq<usize> },
}

impl ErrorView {
    /// Where the fault lies.
    pub open spec fn at(self) -> Seq<usize> {
        match self {
            ErrorView::MalformedSection { at, .. } => at,
            ErrorView::IllegalNesting { at, .. } => at,
            ErrorView::DuplicateSibling { at, .. } => at,
        }
    }

    /// The fault in words.
    pub open spec fn message(self) -> Seq<char> {
        match self {
            ErrorView::MalformedSection { kind, payload, .. } => "\""@ + payload
                + "\" is not a valid name for a \""@ + kind.spec_name() + "\" section"@,
            ErrorView::IllegalNesting { grammar, parent, .. } => allowed_sentence(grammar, parent),
            ErrorView::DuplicateSibling { ident, kind, parent, .. } => "Section \""@
                + kind.spec_prefix() + ident + "\" is already defined inside \""@
                + parent.spec_name() + "\" section"@,
        }
    }

    /// The same fault, found inside the statement at `index` of an enclosing
    /// block.
    pub open spec fn inside(self, index: usize) -> ErrorView {
        match self {
            ErrorView::MalformedSection { kind, payload, at } => ErrorView::MalformedSection {
                kind,
                payload,
                at: seq![index] + at,
            },
            ErrorView::IllegalNesting {
                ident,
                kind,
                parent,
                grammar,
                at,
            } => ErrorView::IllegalNesting { ident, kind, parent, grammar, at: seq![index] + at },
            ErrorView::DuplicateSibling { ident, kind, parent, at } => ErrorView::DuplicateSibling {
                ident,
                kind,
                parent,
                at: seq![index] + at,
            },
        }
    }
}

impl View for Error {
    type V = ErrorView;

    open spec fn view(&self) -> ErrorView {
        match self {
            Error::MalformedSection { kind, payload, at } => ErrorView::MalformedSection {
                kind: *kind,
                payload: payload@,
                at: at@,
            },
            Error::IllegalNesting { ident, kind, parent, grammar, at } => ErrorView::IllegalNesting {
                ident: ident@,
                kind: *kind,
                parent: *parent,
                grammar: *grammar,
                at: at@,
            },
            Error::DuplicateSibling { ident, kind, parent, at } => ErrorView::DuplicateSibling {
                ident: ident@,
                kind: *kind,
                parent: *parent,
                at: at@,
            },
        }
    }
}

/// `index` followed by the indices of `rest`.
fn prepend(index: usize, rest: Vec<usize>) -> (path: Vec<usize>)
    ensures
        path@ == seq![index] + rest@,
{
    let mut path: Vec<usize> = Vec::new();
    path.push(index);
    let mut i: usize = 0;
    while i < rest.len()
        invariant
            i <= rest.len(),
            path@ == seq![index] + rest@.take(i as int),
        decreases rest.len() - i,
    {
        path.push(rest[i]);
        assert(rest@.take(i + 1) =~= rest@.take(i as int).push(rest@[i as int]));
        assert(seq![index] + rest@.take(i as int).push(rest@[i as int]) =~= (seq![index]
            + rest@.take(i as int)).push(rest@[i as int]));
        i += 1;
    }
    assert(rest@.take(rest.len() as int) =~= rest@);
    path
}

impl Error {
    /// Where the fault lies.
    pub fn at(&self) -> (path: &Vec<usize>)
        ensures
            path@ == self@.at(),
    {
        match self {
            Error::MalformedSection { at, .. } => at,
            Error::IllegalNesting { at, .. } => at,
            Error::DuplicateSibling { at, .. } => at,
        }
    }

    /// The fault in words, as a diagnostic shows it.
    pub fn message(&self) -> (text: String)
        ensures
            text@ == self@.message(),
    {
        match self {
            Error::MalformedSection { kind, payload, .. } => {
                let mut text = String::from_str("\"");
                text.append(payload.as_str());
                text.append("\" is not a valid name for a \"");
                text.append(kind.name());
                text.append("\" section");
                text
            },
            Error::IllegalNesting { grammar, parent, .. } => String::from_str(
                allowed(*grammar, *parent),
            ),
            Error::DuplicateSibling { ident, kind, parent, .. } => {
                let mut text = String::from_str("Section \"");
                text.append(kind.prefix());
                text.append(ident.as_str());
                text.append("\" is already defined inside \"");
                text.append(parent.name());
                text.append("\" section");
                text
            },
        }
    }

    /// The same fault, as seen from the block whose statement at `index`
    /// holds it.
    pub fn inside(self, index: usize) -> (outer: Error)
        ensures
            outer@ == self@.inside(index),
    {
        match self {
            Error::MalformedSection { kind, payload, at } => Error::MalformedSection {
                kind,
                payload,
                at: prepend(index, at),
            },
            Error::IllegalNesting { ident, kind, parent, grammar, at } => Error::IllegalNesting {
                ident,
                kind,
                parent,
                grammar,
                at: prepend(index, at),
            },
            Error::DuplicateSibling { ident, kind, parent, at } => Error::DuplicateSibling {
                ident,
                kind,
                parent,
                at: prepend(index, at),
            },
        }
    }
}

} // verus!
