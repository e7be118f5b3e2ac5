//! The nesting grammar: which kinds of section may stand directly inside a
//! scenario or inside a section of a given kind.

use crate::kind::{all_kinds, Family, SectionType};
use vstd::prelude::*;

verus! {

/// What a node of a scenario's tree is: the scenario itself, or a section.
#[derive(Debug, Clone, Copy, PartialEq, Eq, Structural)]
pub enum NodeKind {
    Scenario,
    Section(SectionType),
}

/// Which nesting table is in force.
#[derive(Debug, Clone, Copy, PartialEq, Eq, Structural)]
pub enum Grammar {
    /// A `Then` may stand directly inside a `Given`.
    Permissive,
    /// A `Then` is reached through a `When` only.
    Strict,
}

/// The nesting table. A continuation has the children of the kind it
/// continues.
pub open spec fn legal(grammar: Grammar, parent: NodeKind, child: SectionType) -> bool {
    match parent {
        NodeKind::Scenario => child == SectionType::Given,
        NodeKind::Section(kind) => match kind.spec_family() {
            Family::Given => child == SectionType::AndGiven || child == SectionType::When || (child
                == SectionType::Then && grammar == Grammar::Permissive),
            Family::When => child == SectionType::AndWhen || child == SectionType::Then,
            Family::Then => child == SectionType::AndThen,
        },
    }
}

impl NodeKind {
    /// The node as a message calls it: `scenario`, or the family of the
    /// section.
    pub open spec fn spec_name(self) -> Seq<char> {
        match self {
            NodeKind::Scenario => "scenario"@,
            NodeKind::Section(kind) => kind.spec_family().spec_name(),
        }
    }

    pub fn name(&self) -> (name: &'static str)
        ensures
            name@ == self.spec_name(),
    {
        match self {
            NodeKind::Scenario => "scenario",
            NodeKind::Section(kind) => kind.family().name(),
        }
    }

    /// A terminal kind: a leaf of this kind is one generated procedure.
    pub open spec fn spec_is_assertion(self) -> bool {
        match self {
            NodeKind::Scenario => false,
            NodeKind::Section(kind) => kind.spec_family() == Family::Then,
        }
    }

    pub fn is_assertion(&self) -> (b: bool)
        ensures
            b == self.spec_is_assertion(),
    {
        match self {
            NodeKind::Scenario => false,
            NodeKind::Section(kind) => match kind.family() {
                Family::Then => true,
                _ => false,
            },
        }
    }
}

/// The sentence that names the kinds allowed under `parent`.
pub open spec fn allowed_sentence(grammar: Grammar, parent: NodeKind) -> Seq<char> {
    match parent {
        NodeKind::Scenario => "Only \"given\" is allowed inside \"scenario\" section"@,
        NodeKind::Section(kind) => match kind.spec_family() {
            Family::Given => match grammar {
                Grammar::Permissive =>
                    "Only \"when\", \"then\", or \"and_given\" are allowed inside \"given\" section"@,
                Grammar::Strict =>
                    "Only \"when\" or \"and_given\" are allowed inside \"given\" section"@,
            },
            Family::When => "Only \"then\" or \"and_when\" are allowed inside \"when\" section"@,
            Family::Then => "Only \"and_then\" is allowed inside \"then\" section"@,
        },
    }
}

/// The sentence that names the kinds allowed under `parent`.
pub fn allowed(grammar: Grammar, parent: NodeKind) -> (sentence: &'static str)
    ensures
        sentence@ == allowed_sentence(grammar, parent),
{
    match parent {
        NodeKind::Scenario => "Only \"given\" is allowed inside \"scenario\" section",
        NodeKind::Section(kind) => match kind.family() {
            Family::Given => match grammar {
                Grammar::Permissive =>
                    "Only \"when\", \"then\", or \"and_given\" are allowed inside \"given\" section",
                Grammar::Strict =>
                    "Only \"when\" or \"and_given\" are allowed inside \"given\" section",
            },
            Family::When => "Only \"then\" or \"and_when\" are allowed inside \"when\" section",
            Family::Then => "Only \"and_then\" is allowed inside \"then\" section",
        },
    }
}

/// Whether a section of kind `child` may stand directly under `parent`.
pub fn is_legal_child(grammar: Grammar, parent: NodeKind, child: SectionType) -> (ok: bool)
    ensures
        ok == legal(grammar, parent, child),
{
    match parent {
        NodeKind::Scenario => match child {
            SectionType::Given => true,
            _ => false,
        },
        NodeKind::Section(kind) => match kind.family() {
            Family::Given => match child {
                SectionType::AndGiven | SectionType::When => true,
                SectionType::Then => match grammar {
                    Grammar::Permissive => true,
                    Grammar::Strict => false,
                },
                _ => false,
            },
            Family::When => match child {
                SectionType::AndWhen | SectionType::Then => true,
                _ => false,
            },
            Family::Then => match child {
                SectionType::AndThen => true,
                _ => false,
            },
        },
    }
}

/// The kinds that may stand directly under `parent`, in the order of
/// [`SectionType::all`].
pub fn legal_children(grammar: Grammar, parent: NodeKind) -> (kinds: Vec<SectionType>)
    ensures
        kinds@ == all_kinds().filter(|child: SectionType| legal(grammar, parent, child)),
        forall|child: SectionType| kinds@.contains(child) <==> legal(grammar, parent, child),
{
    let all = SectionType::all();
    let mut kinds: Vec<SectionType> = Vec::new();
    let mut i: usize = 0;
    let ghost keep = |child: SectionType| legal(grammar, parent, child);
    while i < 6
        invariant
            i <= 6,
            all@ == all_kinds(),
            keep == (|child: SectionType| legal(grammar, parent, child)),
            kinds@ == all@.take(i as int).filter(keep),
        decreases 6 - i,
    {
        let kind = all[i];
        proof {
            all@.take(i as int).lemma_filter_push(kind, keep);
            assert(all@.take(i + 1) =~= all@.take(i as int).push(kind));
        }
        if is_legal_child(grammar, parent, kind) {
            kinds.push(kind);
        }
        i += 1;
    }
    proof {
        assert(all@.take(6) =~= all@);
        assert forall|child: SectionType| kinds@.contains(child) <==> legal(
            grammar,
            parent,
            child,
        ) by {
            if kinds@.contains(child) {
                let k = choose|k: int| 0 <= k < kinds@.len() && kinds@[k] == child;
                all@.lemma_filter_pred(keep, k);
            }
            if legal(grammar, parent, child) {
                let j = choose|j: int| 0 <= j < 6 && all_kinds()[j] == child;
                all@.lemma_filter_contains(keep, j);
            }
        }
    }
    kinds
}

} // verus!
