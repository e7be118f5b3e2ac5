//! The section classifier: which statements are labelled sections, of which
//! kind, and under which identifier.

use crate::error::{Error, ErrorView};
use crate::kind::SectionType;
use crate::statement::{clone_statements, lemma_block_view, views, Statement, StatementView};
use crate::text::{ident_to_string, strip_prefix, words};
use vstd::prelude::*;
use vstd::string::*;

verus! {

/// One labelled block, read as a section.
#[derive(Debug, PartialEq, Eq)]
pub struct Section {
    pub section_type: SectionType,
    /// The label without the prefix of the kind.
    pub ident: String,
    /// The block's statements, ordinary ones and nested sections alike.
    pub statements: Vec<Statement>,
}

/// The mathematical value of a [`Section`].
pub struct SectionView {
    pub section_type: SectionType,
    pub ident: Seq<char>,
    pub statements: Seq<StatementView>,
}

impl View for Section {
    type V = SectionView;

    open spec fn view(&self) -> SectionView {
        SectionView {
            section_type: self.section_type,
            ident: self.ident@,
            statements: views(self.statements@),
        }
    }
}

/// Whether a character opens a group of tokens.
pub open spec fn is_opening(c: char) -> bool {
    c == '(' || c == '[' || c == '{'
}

/// Whether one of the characters of `text` opens a group of tokens.
pub open spec fn opens_group(text: Seq<char>) -> bool {
    exists|i: int| 0 <= i < text.len() && is_opening(#[trigger] text[i])
}

/// Whether one of the characters of `text` opens a group of tokens.
pub fn has_opening(text: &str) -> (found: bool)
    ensures
        found == opens_group(text@),
{
    let n: usize = text.unicode_len();
    let mut i: usize = 0;
    while i < n
        invariant
            n == text@.len(),
            i <= n,
            forall|k: int| 0 <= k < i ==> !is_opening(#[trigger] text@[k]),
        decreases n - i,
    {
        let c = text.get_char(i);
        if c == '(' || c == '[' || c == '{' {
            return true;
        }
        i += 1;
    }
    false
}

/// Calls `syn::parse_str::<syn::Ident>` and reports whether it returned
/// `Ok`. Nothing is claimed of the answer: inside a macro expansion the
/// compiler has a say in how the text is split into tokens, elsewhere
/// proc-macro2 alone, so the answer is not a function of the text. syn
/// fills its token buffer by a recursion as deep as the groups in the
/// text are nested, so a text that opens a group is not handed over.
#[verifier::external_body]
fn is_identifier(text: &str) -> (ok: bool)
    requires
        !opens_group(text@),
{
    syn::parse_str::<syn::Ident>(text).is_ok()
}

/// The kind whose prefix starts `label`, if there is one. No prefix starts
/// another, so at most one kind fits.
pub open spec fn label_kind(label: Seq<char>) -> Option<SectionType> {
    if SectionType::Given.spec_prefix().is_prefix_of(label) {
        Some(SectionType::Given)
    } else if SectionType::When.spec_prefix().is_prefix_of(label) {
        Some(SectionType::When)
    } else if SectionType::Then.spec_prefix().is_prefix_of(label) {
        Some(SectionType::Then)
    } else if SectionType::AndGiven.spec_prefix().is_prefix_of(label) {
        Some(SectionType::AndGiven)
    } else if SectionType::AndWhen.spec_prefix().is_prefix_of(label) {
        Some(SectionType::AndWhen)
    } else if SectionType::AndThen.spec_prefix().is_prefix_of(label) {
        Some(SectionType::AndThen)
    } else {
        None
    }
}

/// No label starts with the prefixes of two kinds: a kind's prefix starts
/// the label exactly when the label is of that kind.
pub proof fn lemma_one_kind_per_label(label: Seq<char>, kind: SectionType)
    ensures
        kind.spec_prefix().is_prefix_of(label) <==> label_kind(label) == Some(kind),
{
    reveal_strlit("given_");
    reveal_strlit("when_");
    reveal_strlit("then_");
    reveal_strlit("and_given_");
    reveal_strlit("and_when_");
    reveal_strlit("and_then_");
    if kind.spec_prefix().is_prefix_of(label) {
        let prefix = kind.spec_prefix();
        assert(label.subrange(0, prefix.len() as int)[0] == label[0]);
        assert forall|other: SectionType|
            other != kind implies !(#[trigger] other.spec_prefix()).is_prefix_of(label) by {
            let theirs = other.spec_prefix();
            if theirs.is_prefix_of(label) {
                assert(label.subrange(0, theirs.len() as int)[0] == label[0]);
                assert(label.subrange(0, theirs.len() as int)[4] == label[4]);
                assert(label.subrange(0, prefix.len() as int)[4] == label[4]);
            }
        }
    }
}

/// What stands behind the prefix of `kind` in `label`.
pub open spec fn label_payload(kind: SectionType, label: Seq<char>) -> Seq<char> {
    label.skip(kind.spec_prefix().len() as int)
}

/// A label split into the kind that its prefix names and the rest.
pub fn split_label(label: &str) -> (parts: Option<(SectionType, String)>)
    ensures
        match parts {
            Some((kind, payload)) => label_kind(label@) == Some(kind) && payload@ == label_payload(
                kind,
                label@,
            ),
            None => label_kind(label@).is_none(),
        },
{
    let kinds = SectionType::all();
    let mut i: usize = 0;
    while i < 6
        invariant
            i <= 6,
            kinds@ == crate::kind::all_kinds(),
            forall|k: int| 0 <= k < i ==> !(#[trigger] kinds@[k]).spec_prefix().is_prefix_of(label@),
        decreases 6 - i,
    {
        let kind = kinds[i];
        match strip_prefix(label, kind.prefix()) {
            Some(payload) => {
                assert(forall|k: int| 0 <= k < i ==> kinds@[k] == crate::kind::all_kinds()[k]);
                return Some((kind, payload));
            },
            None => {},
        }
        i += 1;
    }
    assert(forall|k: int| 0 <= k < 6 ==> kinds@[k] == crate::kind::all_kinds()[k]);
    None
}

/// A section of kind `kind` named by `payload`, where `well_formed` says
/// whether `payload` is an identifier.
pub open spec fn section_or_fault(
    kind: SectionType,
    payload: Seq<char>,
    statements: Seq<StatementView>,
    well_formed: bool,
) -> Result<SectionView, ErrorView> {
    if well_formed {
        Ok(SectionView { section_type: kind, ident: payload, statements })
    } else {
        Err(ErrorView::MalformedSection { kind, payload, at: Seq::empty() })
    }
}

/// What a statement is, where `well_formed` says whether the payload of
/// its label is an identifier: an ordinary statement (`None`), a section,
/// or a label that marks a section and does not name it. A statement
/// without a label, or with a label that no prefix starts, is ordinary
/// whatever `well_formed` says.
pub open spec fn classify(statement: StatementView, well_formed: bool) -> Result<
    Option<SectionView>,
    ErrorView,
> {
    match statement {
        StatementView::Plain(_) => Ok(None),
        StatementView::Block { label, statements } => match label_kind(label) {
            None => Ok(None),
            Some(kind) => match section_or_fault(
                kind,
                label_payload(kind, label),
                statements,
                well_formed,
            ) {
                Ok(section) => Ok(Some(section)),
                Err(fault) => Err(fault),
            },
        },
    }
}

/// The payload of the label of a block that a prefix starts; empty for
/// every other statement.
pub open spec fn section_payload(statement: StatementView) -> Seq<char> {
    match statement {
        StatementView::Plain(_) => Seq::empty(),
        StatementView::Block { label, .. } => match label_kind(label) {
            None => Seq::empty(),
            Some(kind) => label_payload(kind, label),
        },
    }
}

/// The mathematical value of what the classifier returns.
pub open spec fn classified(found: Result<Option<Section>, Error>) -> Result<
    Option<SectionView>,
    ErrorView,
> {
    match found {
        Ok(Some(section)) => Ok(Some(section@)),
        Ok(None) => Ok(None),
        Err(fault) => Err(fault@),
    }
}

impl Section {
    /// Makes the section that a label of kind `kind` with the payload
    /// `payload` stands for, or the fault where the payload is no identifier.
    pub fn new(kind: SectionType, payload: String, statements: Vec<Statement>, well_formed: bool) -> (made:
        Result<Section, Error>)
        ensures
            match made {
                Ok(section) => section_or_fault(kind, payload@, views(statements@), well_formed)
                    == Ok::<SectionView, ErrorView>(section@),
                Err(fault) => section_or_fault(kind, payload@, views(statements@), well_formed)
                    == Err::<SectionView, ErrorView>(fault@),
            },
    {
        if well_formed {
            Ok(Section { section_type: kind, ident: payload, statements })
        } else {
            Err(Error::MalformedSection { kind, payload, at: Vec::new() })
        }
    }

    /// A copy of the block's statements.
    pub fn statements(&self) -> (copy: Vec<Statement>)
        ensures
            views(copy@) == self@.statements,
    {
        clone_statements(&self.statements)
    }

    /// The section's line in a narrative, without the line's end.
    pub fn line(&self) -> (text: String)
        ensures
            text@ == section_line(self@.section_type, self@.ident),
    {
        line_of(self.section_type, self.ident.as_str())
    }
}

/// The line of a section in a narrative, without the line's end: the label
/// of its kind, then its identifier in words.
pub open spec fn section_line(kind: SectionType, ident: Seq<char>) -> Seq<char> {
    kind.spec_narrative_label() + words(ident)
}

/// Renders the line of a section in a narrative, without the line's end.
pub fn line_of(kind: SectionType, ident: &str) -> (text: String)
    ensures
        text@ == section_line(kind, ident@),
{
    let mut text = String::from_str(kind.narrative_label());
    let ident = ident_to_string(ident);
    text.append(ident.as_str());
    text
}

/// Classifies one statement. A statement without a label, or with a label
/// that no prefix starts, is ordinary. For a label that a prefix starts,
/// syn is asked whether the payload is an identifier, and the statement is
/// a section or malformed as syn says; a payload that opens a group is
/// malformed without asking. The statements of a block are copied into the
/// section, not read: nested sections are found later.
pub fn get_section(statement: &Statement) -> (found: Result<Option<Section>, Error>)
    ensures
        classified(found) == classify(statement@, true) || classified(found) == classify(
            statement@,
            false,
        ),
        opens_group(section_payload(statement@)) ==> classified(found) == classify(
            statement@,
            false,
        ),
{
    match statement {
        Statement::Plain(_) => Ok(None),
        Statement::Block { label, statements } => {
            proof {
                lemma_block_view(*statement);
            }
            match split_label(label.as_str()) {
                None => Ok(None),
                Some((kind, payload)) => {
                    let well_formed = !has_opening(payload.as_str()) && is_identifier(
                        payload.as_str(),
                    );
                    match Section::new(kind, payload, clone_statements(statements), well_formed) {
                        Ok(section) => Ok(Some(section)),
                        Err(fault) => Err(fault),
                    }
                },
            }
        },
    }
}

} // verus!
