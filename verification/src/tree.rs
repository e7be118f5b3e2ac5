//! The scenario tree: each node owns the ordinary statements of its block
//! and one child per section that stands directly in it.

use crate::error::{Error, ErrorView};
use crate::grammar::{is_legal_child, legal, Grammar, NodeKind};
use crate::kind::SectionType;
use crate::marked::{lemma_section_view, marked_views, verdict, Marked, MarkedSection, MarkedView};
use crate::statement::{lemma_views_push, views, Statement, StatementView};
use vstd::prelude::*;

verus! {

/// A node of a scenario's tree: the scenario itself at the root, a section
/// everywhere else.
#[derive(Debug, PartialEq, Eq)]
pub struct ScenarioNode {
    pub kind: NodeKind,
    /// The section's identifier; at the root, the scenario's name.
    pub ident: String,
    /// The ordinary statements of the node's block, in source order.
    pub prologue: Vec<Statement>,
    /// The sections that stand directly in the node's block, in source order.
    pub children: Vec<ScenarioNode>,
}

/// The mathematical value of a [`ScenarioNode`].
pub struct NodeView {
    pub kind: NodeKind,
    pub ident: Seq<char>,
    pub prologue: Seq<StatementView>,
    pub children: Seq<NodeView>,
}

/// The value of a node: its kind, its identifier, and the values of its
/// statements and of its children.
pub open spec fn node_view(node: ScenarioNode) -> NodeView
    decreases node,
{
    NodeView {
        kind: node.kind,
        ident: node.ident@,
        prologue: views(node.prologue@),
        children: Seq::new(
            node.children@.len(),
            |i: int|
                if 0 <= i < node.children@.len() {
                    node_view(node.children@[i])
                } else {
                    arbitrary()
                },
        ),
    }
}

impl View for ScenarioNode {
    type V = NodeView;

    open spec fn view(&self) -> NodeView {
        node_view(*self)
    }
}

/// The values of a sequence of nodes, one for one.
pub open spec fn node_views(nodes: Seq<ScenarioNode>) -> Seq<NodeView> {
    Seq::new(nodes.len(), |i: int| nodes[i]@)
}

/// The value of a node holds the values of the node's children.
pub proof fn lemma_node_view(node: ScenarioNode)
    ensures
        node@.children == node_views(node.children@),
        node@.children.len() == node.children@.len(),
        forall|i: int| 0 <= i < node.children@.len() ==> node@.children[i] == node.children@[i]@,
{
    assert(node@.children =~= node_views(node.children@));
}

/// Appending a node appends its value.
pub proof fn lemma_node_views_push(nodes: Seq<ScenarioNode>, last: ScenarioNode)
    ensures
        node_views(nodes.push(last)) == node_views(nodes).push(last@),
{
    assert(node_views(nodes.push(last)) =~= node_views(nodes).push(last@));
}

/// An ordinary statement: one that is no section and no faulty label.
pub open spec fn is_ordinary(statement: MarkedView) -> bool {
    verdict(statement) == Ok::<Option<MarkedSection>, ErrorView>(None)
}

/// The ordinary statements among `statements`, in their order.
pub open spec fn prologue_of(statements: Seq<MarkedView>) -> Seq<StatementView>
    decreases statements.len(),
{
    if statements.len() == 0 {
        Seq::empty()
    } else {
        let before = prologue_of(statements.drop_last());
        match statements.last() {
            MarkedView::Ordinary(statement) => before.push(statement),
            _ => before,
        }
    }
}

/// The tree of a block: its ordinary statements, and the trees of the
/// sections in it. Nothing is checked here; see [`fault_in`].
pub open spec fn node_of(kind: NodeKind, ident: Seq<char>, statements: Seq<MarkedView>) -> NodeView
    decreases statements, 1nat,
{
    NodeView {
        kind,
        ident,
        prologue: prologue_of(statements),
        children: children_of(statements),
    }
}

/// The trees of the sections among `statements`, in their order.
pub open spec fn children_of(statements: Seq<MarkedView>) -> Seq<NodeView>
    decreases statements, 0nat,
{
    if statements.len() == 0 {
        Seq::empty()
    } else {
        let before = children_of(statements.drop_last());
        match verdict(statements.last()) {
            Ok(Some(section)) => before.push(
                node_of(
                    NodeKind::Section(section.section_type),
                    section.ident,
                    section.statements,
                ),
            ),
            _ => before,
        }
    }
}

/// Whether one of `statements` is a section of this kind and identifier.
pub open spec fn has_section(
    statements: Seq<MarkedView>,
    kind: SectionType,
    ident: Seq<char>,
) -> bool {
    exists|j: int|
        0 <= j < statements.len() && is_section_named(#[trigger] statements[j], kind, ident)
}

/// Whether `statement` is a section of this kind and identifier.
pub open spec fn is_section_named(statement: MarkedView, kind: SectionType, ident: Seq<char>) -> bool {
    match verdict(statement) {
        Ok(Some(section)) => section.section_type == kind && section.ident == ident,
        _ => false,
    }
}

/// The fault at which the build of a block under `parent` stops: that of the
/// first statement, in source order, that has one. A statement's fault is
/// its malformed label; else the illegal place of its kind under `parent`;
/// else an earlier sibling of its kind and identifier; else the fault in
/// its own block.
pub open spec fn fault_in(grammar: Grammar, parent: NodeKind, statements: Seq<MarkedView>) -> Option<
    ErrorView,
>
    decreases statements,
{
    if statements.len() == 0 {
        None
    } else {
        let index = (statements.len() - 1) as usize;
        match fault_in(grammar, parent, statements.drop_last()) {
            Some(fault) => Some(fault),
            None => match verdict(statements.last()) {
                Err(fault) => Some(fault.inside(index)),
                Ok(None) => None,
                Ok(Some(section)) => if !legal(grammar, parent, section.section_type) {
                    Some(
                        ErrorView::IllegalNesting {
                            ident: section.ident,
                            kind: section.section_type,
                            parent,
                            grammar,
                            at: seq![index],
                        },
                    )
                } else if has_section(
                    statements.drop_last(),
                    section.section_type,
                    section.ident,
                ) {
                    Some(
                        ErrorView::DuplicateSibling {
                            ident: section.ident,
                            kind: section.section_type,
                            parent,
                            at: seq![index],
                        },
                    )
                } else {
                    match fault_in(
                        grammar,
                        NodeKind::Section(section.section_type),
                        section.statements,
                    ) {
                        Some(fault) => Some(fault.inside(index)),
                        None => None,
                    }
                },
            },
        }
    }
}

/// The tree of a block, or the fault that stops its build.
pub open spec fn build_spec(
    grammar: Grammar,
    kind: NodeKind,
    ident: Seq<char>,
    statements: Seq<MarkedView>,
) -> Result<NodeView, ErrorView> {
    match fault_in(grammar, kind, statements) {
        Some(fault) => Err(fault),
        None => Ok(node_of(kind, ident, statements)),
    }
}

/// The invariant of a built tree: every child is a section whose kind the
/// grammar allows under its parent, no two children of a node share kind
/// and identifier, and every child is itself well formed.
pub open spec fn well_formed(grammar: Grammar, node: NodeView) -> bool
    decreases node,
{
    &&& forall|i: int|
        0 <= i < node.children.len() ==> match (#[trigger] node.children[i]).kind {
            NodeKind::Scenario => false,
            NodeKind::Section(kind) => legal(grammar, node.kind, kind),
        }
    &&& forall|i: int, j: int|
        0 <= i < j < node.children.len() ==> !same_name(
            #[trigger] node.children[i],
            #[trigger] node.children[j],
        )
    &&& forall|i: int|
        0 <= i < node.children.len() ==> well_formed(grammar, #[trigger] node.children[i])
}

/// Whether two nodes have the same kind and the same identifier.
pub open spec fn same_name(one: NodeView, other: NodeView) -> bool {
    one.kind == other.kind && one.ident == other.ident
}

/// Whether one of `children` is a section of this kind and identifier.
pub open spec fn has_child(children: Seq<NodeView>, kind: SectionType, ident: Seq<char>) -> bool {
    exists|k: int|
        0 <= k < children.len() && (#[trigger] children[k]).kind == NodeKind::Section(kind)
            && children[k].ident == ident
}

/// A fault found in the first `count` statements is the fault of the whole
/// block.
pub proof fn lemma_fault_in_prefix(
    grammar: Grammar,
    parent: NodeKind,
    statements: Seq<MarkedView>,
    count: int,
)
    requires
        0 <= count <= statements.len(),
        fault_in(grammar, parent, statements.take(count)) is Some,
    ensures
        fault_in(grammar, parent, statements) == fault_in(grammar, parent, statements.take(count)),
    decreases statements.len() - count,
{
    if count == statements.len() {
        assert(statements.take(count) =~= statements);
    } else {
        assert(statements.drop_last().take(count) =~= statements.take(count));
        lemma_fault_in_prefix(grammar, parent, statements.drop_last(), count);
    }
}

/// The children of a block are named as the sections among its statements.
pub proof fn lemma_children_names(statements: Seq<MarkedView>, kind: SectionType, ident: Seq<char>)
    ensures
        has_child(children_of(statements), kind, ident) == has_section(statements, kind, ident),
    decreases statements.len(),
{
    if statements.len() > 0 {
        let front = statements.drop_last();
        let last = statements.last();
        lemma_children_names(front, kind, ident);
        let children = children_of(statements);
        let before = children_of(front);
        match verdict(last) {
            Ok(Some(section)) => {
                let node = node_of(
                    NodeKind::Section(section.section_type),
                    section.ident,
                    section.statements,
                );
                assert(node.kind == NodeKind::Section(section.section_type));
                assert(node.ident == section.ident);
                assert(children == before.push(node));
            },
            _ => {
                assert(children == before);
            },
        }
        if has_child(children, kind, ident) {
            let k = choose|k: int|
                0 <= k < children.len() && (#[trigger] children[k]).kind == NodeKind::Section(kind)
                    && children[k].ident == ident;
            if k < before.len() {
                assert(before[k] == children[k]);
                assert(has_child(before, kind, ident));
                let j = choose|j: int|
                    0 <= j < front.len() && is_section_named(#[trigger] front[j], kind, ident);
                assert(is_section_named(statements[j], kind, ident));
            } else {
                assert(is_section_named(statements[statements.len() - 1], kind, ident));
            }
        }
        if has_section(statements, kind, ident) {
            let j = choose|j: int|
                0 <= j < statements.len() && is_section_named(#[trigger] statements[j], kind, ident);
            if j < front.len() {
                assert(is_section_named(front[j], kind, ident));
                let k = choose|k: int|
                    0 <= k < before.len() && (#[trigger] before[k]).kind == NodeKind::Section(kind)
                        && before[k].ident == ident;
                assert(children[k] == before[k]);
            } else {
                assert(children[children.len() - 1].kind == NodeKind::Section(kind));
            }
        }
    }
}

/// Whether `statement` is a section.
pub open spec fn is_section(statement: MarkedView) -> bool {
    verdict(statement) matches Ok(Some(_))
}

/// Whether `statement`, taken alone, may stand under `parent`: it is an
/// ordinary statement, or a section whose kind the grammar allows there
/// and whose own block has no fault.
pub open spec fn is_sound(grammar: Grammar, parent: NodeKind, statement: MarkedView) -> bool {
    match verdict(statement) {
        Err(_) => false,
        Ok(None) => true,
        Ok(Some(section)) => legal(grammar, parent, section.section_type) && fault_in(
            grammar,
            NodeKind::Section(section.section_type),
            section.statements,
        ) is None,
    }
}

/// Whether both statements are sections of one kind and identifier.
pub open spec fn same_section(one: MarkedView, other: MarkedView) -> bool {
    match verdict(one) {
        Ok(Some(section)) => is_section_named(other, section.section_type, section.ident),
        _ => false,
    }
}

/// A block in which every statement is sound and no two sections share
/// kind and identifier.
pub open spec fn fault_free(grammar: Grammar, parent: NodeKind, statements: Seq<MarkedView>) -> bool {
    &&& forall|i: int|
        0 <= i < statements.len() ==> is_sound(grammar, parent, #[trigger] statements[i])
    &&& forall|i: int, j: int|
        0 <= i < j < statements.len() ==> !same_section(
            #[trigger] statements[i],
            #[trigger] statements[j],
        )
}

/// When a build succeeds: exactly on the blocks in which every statement
/// is sound and no two sections share kind and identifier.
pub proof fn lemma_fault_free(grammar: Grammar, parent: NodeKind, statements: Seq<MarkedView>)
    ensures
        fault_in(grammar, parent, statements) is None <==> fault_free(grammar, parent, statements),
    decreases statements.len(),
{
    if statements.len() > 0 {
        let front = statements.drop_last();
        let last = statements.last();
        lemma_fault_free(grammar, parent, front);
        if fault_in(grammar, parent, statements) is None {
            assert(fault_free(grammar, parent, front));
            assert forall|i: int| 0 <= i < statements.len() implies is_sound(
                grammar,
                parent,
                #[trigger] statements[i],
            ) by {
                if i < front.len() {
                    assert(is_sound(grammar, parent, front[i]));
                }
            }
            assert forall|i: int, j: int| 0 <= i < j < statements.len() implies !same_section(
                #[trigger] statements[i],
                #[trigger] statements[j],
            ) by {
                if j < front.len() {
                    assert(!same_section(front[i], front[j]));
                } else if same_section(statements[i], last) {
                    let section = verdict(last)->Ok_0->Some_0;
                    assert(is_section_named(front[i], section.section_type, section.ident));
                }
            }
        }
        if fault_free(grammar, parent, statements) {
            assert forall|i: int| 0 <= i < front.len() implies is_sound(
                grammar,
                parent,
                #[trigger] front[i],
            ) by {
                assert(is_sound(grammar, parent, statements[i]));
            }
            assert forall|i: int, j: int| 0 <= i < j < front.len() implies !same_section(
                #[trigger] front[i],
                #[trigger] front[j],
            ) by {
                assert(!same_section(statements[i], statements[j]));
            }
            assert(is_sound(grammar, parent, statements[statements.len() - 1]));
            match verdict(last) {
                Ok(Some(section)) => {
                    if has_section(front, section.section_type, section.ident) {
                        let j = choose|j: int|
                            0 <= j < front.len() && is_section_named(
                                #[trigger] front[j],
                                section.section_type,
                                section.ident,
                            );
                        assert(same_section(statements[j], statements[statements.len() - 1]));
                    }
                },
                _ => {},
            }
        }
    }
}

/// A block without a fault has a well-formed tree.
pub proof fn lemma_built_well_formed(
    grammar: Grammar,
    kind: NodeKind,
    ident: Seq<char>,
    statements: Seq<MarkedView>,
)
    requires
        fault_in(grammar, kind, statements) is None,
    ensures
        well_formed(grammar, node_of(kind, ident, statements)),
    decreases statements,
{
    let node = node_of(kind, ident, statements);
    if statements.len() > 0 {
        let front = statements.drop_last();
        let before = children_of(front);
        lemma_built_well_formed(grammar, kind, ident, front);
        assert(node_of(kind, ident, front).children == before);
        match verdict(statements.last()) {
            Ok(Some(section)) => {
                let child = node_of(
                    NodeKind::Section(section.section_type),
                    section.ident,
                    section.statements,
                );
                assert(node.children == before.push(child));
                lemma_built_well_formed(
                    grammar,
                    NodeKind::Section(section.section_type),
                    section.ident,
                    section.statements,
                );
                lemma_children_names(front, section.section_type, section.ident);
                assert forall|i: int, j: int| 0 <= i < j < node.children.len() implies !same_name(
                    #[trigger] node.children[i],
                    #[trigger] node.children[j],
                ) by {
                    if j < before.len() {
                        assert(!same_name(before[i], before[j]));
                    } else {
                        assert(before[i] == node.children[i]);
                    }
                }
                assert forall|i: int| 0 <= i < node.children.len() implies well_formed(
                    grammar,
                    #[trigger] node.children[i],
                ) by {
                    if i < before.len() {
                        assert(well_formed(grammar, before[i]));
                    }
                }
                assert forall|i: int| 0 <= i < node.children.len() implies match (
                #[trigger] node.children[i]).kind {
                    NodeKind::Scenario => false,
                    NodeKind::Section(kind_i) => legal(grammar, node.kind, kind_i),
                } by {
                    if i < before.len() {
                        assert(before[i] == node.children[i]);
                    }
                }
            },
            _ => {
                assert(node.children == before);
            },
        }
    }
}

/// Whether one of `children` is a section of this kind and identifier.
fn names_child(children: &Vec<ScenarioNode>, kind: SectionType, ident: &String) -> (found: bool)
    ensures
        found == has_child(node_views(children@), kind, ident@),
{
    let mut k: usize = 0;
    while k < children.len()
        invariant
            k <= children.len(),
            !has_child(node_views(children@).take(k as int), kind, ident@),
        decreases children.len() - k,
    {
        let child = &children[k];
        if child.kind == NodeKind::Section(kind) && child.ident == *ident {
            assert(node_views(children@)[k as int].kind == NodeKind::Section(kind));
            return true;
        }
        proof {
            let seen = node_views(children@).take(k + 1);
            if has_child(seen, kind, ident@) {
                let w = choose|w: int|
                    0 <= w < seen.len() && (#[trigger] seen[w]).kind == NodeKind::Section(kind)
                        && seen[w].ident == ident@;
                assert(node_views(children@).take(k as int)[w] == seen[w]);
            }
        }
        k += 1;
    }
    assert(node_views(children@).take(children.len() as int) =~= node_views(children@));
    false
}

impl ScenarioNode {
    /// Builds the tree of the block `statements` of a node of kind `kind`
    /// named `ident`: an ordinary statement joins the prologue; a section
    /// is checked against the grammar and against its earlier siblings,
    /// and its own block is built as a child. The first fault stops the
    /// build.
    #[verifier::loop_isolation(false)]
    pub fn build(grammar: Grammar, kind: NodeKind, ident: String, statements: &Vec<Marked>) -> (built:
        Result<ScenarioNode, Error>)
        ensures
            match built {
                Ok(node) => build_spec(grammar, kind, ident@, marked_views(statements@)) == Ok::<
                    NodeView,
                    ErrorView,
                >(node@) && well_formed(grammar, node@),
                Err(fault) => build_spec(grammar, kind, ident@, marked_views(statements@)) == Err::<
                    NodeView,
                    ErrorView,
                >(fault@),
            },
        decreases statements,
    {
        let ghost all = marked_views(statements@);
        let mut prologue: Vec<Statement> = Vec::new();
        let mut children: Vec<ScenarioNode> = Vec::new();
        let mut i: usize = 0;
        while i < statements.len()
            invariant
                i <= statements.len(),
                all == marked_views(statements@),
                fault_in(grammar, kind, all.take(i as int)) is None,
                views(prologue@) == prologue_of(all.take(i as int)),
                node_views(children@) == children_of(all.take(i as int)),
            decreases statements.len() - i,
        {
            let ghost seen = all.take(i as int);
            let ghost next = all.take(i + 1);
            proof {
                assert(next.drop_last() =~= seen);
                assert(next.last() == statements@[i as int]@);
            }
            match &statements[i] {
                Marked::Malformed { kind: marker, payload, .. } => {
                    proof {
                        lemma_fault_in_prefix(grammar, kind, all, i + 1);
                    }
                    let mut at: Vec<usize> = Vec::new();
                    at.push(i);
                    let fault = Error::MalformedSection {
                        kind: *marker,
                        payload: payload.clone(),
                        at,
                    };
                    assert(fault@.at() =~= seq![i] + Seq::<usize>::empty());
                    return Err(fault);
                },
                Marked::Ordinary(statement) => {
                    let ghost before = prologue@;
                    prologue.push(statement.clone());
                    proof {
                        lemma_views_push(before, prologue@[prologue@.len() - 1]);
                    }
                },
                Marked::Section { kind: section_type, ident: name, statements: inner } => {
                    proof {
                        lemma_section_view(statements@[i as int]);
                    }
                    if !is_legal_child(grammar, kind, *section_type) {
                        proof {
                            lemma_fault_in_prefix(grammar, kind, all, i + 1);
                        }
                        let mut at: Vec<usize> = Vec::new();
                        at.push(i);
                        return Err(
                            Error::IllegalNesting {
                                ident: name.clone(),
                                kind: *section_type,
                                parent: kind,
                                grammar,
                                at,
                            },
                        );
                    }
                    proof {
                        lemma_children_names(seen, *section_type, name@);
                    }
                    if names_child(&children, *section_type, name) {
                        proof {
                            lemma_fault_in_prefix(grammar, kind, all, i + 1);
                        }
                        let mut at: Vec<usize> = Vec::new();
                        at.push(i);
                        return Err(
                            Error::DuplicateSibling {
                                ident: name.clone(),
                                kind: *section_type,
                                parent: kind,
                                at,
                            },
                        );
                    }
                    let built = ScenarioNode::build(
                        grammar,
                        NodeKind::Section(*section_type),
                        name.clone(),
                        inner,
                    );
                    match built {
                        Err(fault) => {
                            proof {
                                lemma_fault_in_prefix(grammar, kind, all, i + 1);
                            }
                            return Err(fault.inside(i));
                        },
                        Ok(child) => {
                            let ghost before = children@;
                            children.push(child);
                            proof {
                                lemma_node_views_push(before, child);
                            }
                        },
                    }
                },
            }
            i += 1;
        }
        proof {
            assert(all.take(statements.len() as int) =~= all);
        }
        let node = ScenarioNode { kind, ident, prologue, children };
        proof {
            lemma_node_view(node);
            lemma_built_well_formed(grammar, kind, ident@, all);
        }
        Ok(node)
    }
}

} // verus!
