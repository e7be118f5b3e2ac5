//! The order of sibling sections is immaterial: wherever two of them change
//! places, every procedure keeps its name, its scope, its statements and
//! its narrative.

use crate::grammar::{Grammar, NodeKind};
use crate::procedure::{
    lemma_paths_through_next, paths, paths_through, procedures_along, procedures_of, step_of, Path,
    ProcedureView,
};
use crate::scenario_spec;
use crate::marked::{verdict, MarkedView};
use crate::tree::{
    children_of, fault_free, fault_in, is_ordinary, is_section, is_sound, lemma_fault_free, node_of,
    prologue_of, same_section, NodeView,
};
use vstd::multiset::Multiset;
use vstd::prelude::*;
use vstd::seq_lib::lemma_multiset_commutative;

verus! {

/// The same node with other children.
pub open spec fn with_children(node: NodeView, children: Seq<NodeView>) -> NodeView {
    NodeView { kind: node.kind, ident: node.ident, prologue: node.prologue, children }
}

/// The children with those at `i` and `j` in each other's place.
pub open spec fn swapped(children: Seq<NodeView>, i: int, j: int) -> Seq<NodeView> {
    if 0 <= i < children.len() && 0 <= j < children.len() {
        children.update(i, children[j]).update(j, children[i])
    } else {
        children
    }
}

/// The tree in which two children of one node have changed places. The
/// node is reached from the root along `route`, a list of child indices;
/// a route that leads nowhere leaves the tree as it is.
pub open spec fn swap_at(tree: NodeView, route: Seq<int>, i: int, j: int) -> NodeView
    decreases route.len(),
{
    if route.len() == 0 {
        with_children(tree, swapped(tree.children, i, j))
    } else if 0 <= route[0] < tree.children.len() {
        with_children(
            tree,
            tree.children.update(
                route[0],
                swap_at(tree.children[route[0]], route.skip(1), i, j),
            ),
        )
    } else {
        tree
    }
}

/// The procedures of the paths through `node`, continued from `above`, as
/// a collection without order.
pub open spec fn procedure_bag(above: Path, node: NodeView) -> Multiset<ProcedureView> {
    procedures_along(above, paths(node)).to_multiset()
}

/// The procedures below `children`, continued from `here`, child after
/// child, as a collection without order.
pub open spec fn children_bag(here: Path, children: Seq<NodeView>) -> Multiset<ProcedureView>
    decreases children.len(),
{
    if children.len() == 0 {
        Multiset::empty()
    } else {
        children_bag(here, children.drop_last()).add(procedure_bag(here, children.last()))
    }
}

proof fn lemma_through_bag(above: Path, node: NodeView, count: nat)
    requires
        count <= node.children.len(),
    ensures
        procedures_along(above, paths_through(node, count)).to_multiset() == children_bag(
            above.push(step_of(node)),
            node.children.take(count as int),
        ),
    decreases count,
{
    broadcast use vstd::multiset::group_multiset_axioms;

    let here = above.push(step_of(node));
    if count == 0 {
        let nothing = procedures_along(above, paths_through(node, 0));
        assert(nothing + nothing =~= nothing);
        lemma_multiset_commutative(nothing, nothing);
        assert(nothing.to_multiset() =~= Multiset::empty());
    } else {
        let fewer = (count - 1) as nat;
        lemma_through_bag(above, node, fewer);
        lemma_paths_through_next(above, node, fewer);
        lemma_multiset_commutative(
            procedures_along(above, paths_through(node, fewer)),
            procedures_along(here, paths(node.children[fewer as int])),
        );
        assert(node.children.take(count as int).drop_last() =~= node.children.take(fewer as int));
    }
}

/// The procedures of a node that has children are those below its
/// children.
proof fn lemma_node_bag(above: Path, node: NodeView)
    requires
        node.children.len() > 0,
    ensures
        procedure_bag(above, node) == children_bag(above.push(step_of(node)), node.children),
{
    lemma_through_bag(above, node, node.children.len());
    assert(node.children.take(node.children.len() as int) =~= node.children);
}

/// Putting another child at `k` takes the old child's procedures out and
/// puts the new child's in.
proof fn lemma_bag_update(here: Path, children: Seq<NodeView>, k: int, child: NodeView)
    requires
        0 <= k < children.len(),
    ensures
        children_bag(here, children.update(k, child)).add(procedure_bag(here, children[k]))
            == children_bag(here, children).add(procedure_bag(here, child)),
    decreases children.len(),
{
    broadcast use vstd::multiset::group_multiset_axioms;

    let changed = children.update(k, child);
    let old_bag = procedure_bag(here, children[k]);
    let new_bag = procedure_bag(here, child);
    let front = children_bag(here, children.drop_last());
    let last_bag = procedure_bag(here, children.last());
    assert(children_bag(here, children) == front.add(last_bag));
    if k == children.len() - 1 {
        assert(changed.drop_last() =~= children.drop_last());
        assert(children_bag(here, changed) == front.add(new_bag));
        assert(front.add(new_bag).add(old_bag) =~= front.add(old_bag).add(new_bag));
    } else {
        assert(changed.drop_last() =~= children.drop_last().update(k, child));
        lemma_bag_update(here, children.drop_last(), k, child);
        let changed_front = children_bag(here, changed.drop_last());
        assert(children_bag(here, changed) == changed_front.add(last_bag));
        assert(changed_front.add(old_bag) == front.add(new_bag));
        assert forall|p: ProcedureView|
            changed_front.add(last_bag).add(old_bag).count(p) == front.add(last_bag).add(
                new_bag,
            ).count(p) by {
            assert(changed_front.add(old_bag).count(p) == front.add(new_bag).count(p));
        }
        assert(changed_front.add(last_bag).add(old_bag) =~= front.add(last_bag).add(new_bag));
    }
}

/// A node whose children at `i` and `j` change places keeps its
/// procedures.
proof fn lemma_swap_children(above: Path, node: NodeView, i: int, j: int)
    ensures
        procedure_bag(above, with_children(node, swapped(node.children, i, j))) == procedure_bag(
            above,
            node,
        ),
{
    broadcast use vstd::multiset::group_multiset_axioms;

    let children = node.children;
    let after = with_children(node, swapped(children, i, j));
    if 0 <= i < children.len() && 0 <= j < children.len() && i != j {
        let here = above.push(step_of(node));
        let first = children.update(i, children[j]);
        lemma_node_bag(above, node);
        lemma_node_bag(above, after);
        lemma_bag_update(here, children, i, children[j]);
        lemma_bag_update(here, first, j, children[i]);
        let one = procedure_bag(here, children[i]);
        let other = procedure_bag(here, children[j]);
        let before = children_bag(here, children);
        let between = children_bag(here, first);
        let at_last = children_bag(here, swapped(children, i, j));
        assert(between.add(one) == before.add(other));
        assert(at_last.add(other) == between.add(one));
        assert forall|p: ProcedureView| at_last.count(p) == before.count(p) by {
            assert(at_last.add(other).count(p) == before.add(other).count(p));
        }
        assert(at_last =~= before);
    } else {
        assert(swapped(children, i, j) =~= children);
    }
}

/// Wherever in a tree two sibling sections change places, the procedures of
/// the tree stay the same: each keeps its name, its scope, its statements
/// and its narrative. Only the order in which they are listed follows the
/// sections.
pub proof fn lemma_sibling_order_is_immaterial(
    above: Path,
    tree: NodeView,
    route: Seq<int>,
    i: int,
    j: int,
)
    ensures
        procedure_bag(above, swap_at(tree, route, i, j)) == procedure_bag(above, tree),
    decreases route.len(),
{
    broadcast use vstd::multiset::group_multiset_axioms;

    if route.len() == 0 {
        lemma_swap_children(above, tree, i, j);
    } else if 0 <= route[0] < tree.children.len() {
        let k = route[0];
        let here = above.push(step_of(tree));
        let child = swap_at(tree.children[k], route.skip(1), i, j);
        let after = with_children(tree, tree.children.update(k, child));
        lemma_sibling_order_is_immaterial(here, tree.children[k], route.skip(1), i, j);
        lemma_node_bag(above, tree);
        lemma_node_bag(above, after);
        lemma_bag_update(here, tree.children, k, child);
        let old_bag = procedure_bag(here, tree.children[k]);
        let before = children_bag(here, tree.children);
        let changed = children_bag(here, tree.children.update(k, child));
        assert(changed.add(old_bag) == before.add(old_bag));
        assert forall|p: ProcedureView| changed.count(p) == before.count(p) by {
            assert(changed.add(old_bag).count(p) == before.add(old_bag).count(p));
        }
        assert(changed =~= before);
    }
}

/// The law for a whole scenario: its procedures, as a collection without
/// order, do not depend on the order of sibling sections.
pub proof fn lemma_sibling_swap(tree: NodeView, route: Seq<int>, i: int, j: int)
    ensures
        procedures_of(swap_at(tree, route, i, j)).to_multiset() == procedures_of(
            tree,
        ).to_multiset(),
{
    let none: Path = Seq::empty();
    lemma_sibling_order_is_immaterial(none, tree, route, i, j);
    lemma_procedures_from_root(tree);
    lemma_procedures_from_root(swap_at(tree, route, i, j));
}

/// The procedures of a tree are those of its paths, continued from
/// nothing.
proof fn lemma_procedures_from_root(tree: NodeView)
    ensures
        procedures_of(tree) == procedures_along(Seq::empty(), paths(tree)),
{
    let none: Path = Seq::empty();
    assert forall|i: int| 0 <= i < paths(tree).len() implies none + #[trigger] paths(tree)[i]
        == paths(tree)[i] by {
        assert(none + paths(tree)[i] =~= paths(tree)[i]);
    }
    assert(procedures_of(tree) =~= procedures_along(none, paths(tree)));
}

/// The statements with the sections at `a` and `b` in each other's place.
/// Where one of the two is no section, nothing changes.
pub open spec fn swap_statements(statements: Seq<MarkedView>, a: int, b: int) -> Seq<
    MarkedView,
> {
    if 0 <= a < statements.len() && 0 <= b < statements.len() && is_section(statements[a])
        && is_section(statements[b]) {
        statements.update(a, statements[b]).update(b, statements[a])
    } else {
        statements
    }
}

/// The block in which two sibling sections have changed places. Their
/// parent is reached along `route`, a list of statement indices that leads
/// from section to nested section; a route that leaves the sections
/// changes nothing.
pub open spec fn swap_sections(statements: Seq<MarkedView>, route: Seq<int>, a: int, b: int) -> Seq<
    MarkedView,
>
    decreases route.len(),
{
    if route.len() == 0 {
        swap_statements(statements, a, b)
    } else if 0 <= route[0] < statements.len() && is_section(statements[route[0]]) {
        match statements[route[0]] {
            MarkedView::Section { kind, ident, statements: inner } => statements.update(
                route[0],
                MarkedView::Section {
                    kind,
                    ident,
                    statements: swap_sections(inner, route.skip(1), a, b),
                },
            ),
            _ => statements,
        }
    } else {
        statements
    }
}

/// The procedures below a statement, continued from `here`: those of its
/// tree if it is a section, none otherwise.
pub open spec fn section_bag(here: Path, statement: MarkedView) -> Multiset<ProcedureView> {
    match verdict(statement) {
        Ok(Some(section)) => procedure_bag(
            here,
            node_of(NodeKind::Section(section.section_type), section.ident, section.statements),
        ),
        _ => Multiset::empty(),
    }
}

/// Putting one statement that is not ordinary in the place of another
/// leaves the prologue as it is.
proof fn lemma_prologue_update(statements: Seq<MarkedView>, k: int, other: MarkedView)
    requires
        0 <= k < statements.len(),
        !is_ordinary(statements[k]),
        !is_ordinary(other),
    ensures
        prologue_of(statements.update(k, other)) == prologue_of(statements),
    decreases statements.len(),
{
    let front = statements.drop_last();
    let changed = statements.update(k, other);
    if k == statements.len() - 1 {
        assert(changed.drop_last() =~= front);
    } else {
        assert(changed.drop_last() =~= front.update(k, other));
        lemma_prologue_update(front, k, other);
    }
}

/// A block with a section in it has a child.
proof fn lemma_has_children(statements: Seq<MarkedView>, k: int)
    requires
        0 <= k < statements.len(),
        is_section(statements[k]),
    ensures
        children_of(statements).len() > 0,
    decreases statements.len(),
{
    if k < statements.len() - 1 {
        lemma_has_children(statements.drop_last(), k);
    }
}

/// The procedures below a block are those below the statements before the
/// last, and those below the last.
proof fn lemma_block_bag(here: Path, statements: Seq<MarkedView>)
    requires
        statements.len() > 0,
    ensures
        children_bag(here, children_of(statements)) == children_bag(
            here,
            children_of(statements.drop_last()),
        ).add(section_bag(here, statements.last())),
{
    broadcast use vstd::multiset::group_multiset_axioms;

    let before = children_of(statements.drop_last());
    match verdict(statements.last()) {
        Ok(Some(section)) => {
            let node = node_of(
                NodeKind::Section(section.section_type),
                section.ident,
                section.statements,
            );
            assert(children_of(statements) == before.push(node));
            assert(before.push(node).drop_last() =~= before);
        },
        _ => {
            assert(children_of(statements) == before);
            assert(children_bag(here, before).add(Multiset::empty()) =~= children_bag(
                here,
                before,
            ));
        },
    }
}

/// Putting another statement at `k` takes the old statement's procedures
/// out and puts the new one's in.
proof fn lemma_block_bag_update(
    here: Path,
    statements: Seq<MarkedView>,
    k: int,
    other: MarkedView,
)
    requires
        0 <= k < statements.len(),
    ensures
        children_bag(here, children_of(statements.update(k, other))).add(
            section_bag(here, statements[k]),
        ) == children_bag(here, children_of(statements)).add(section_bag(here, other)),
    decreases statements.len(),
{
    broadcast use vstd::multiset::group_multiset_axioms;

    let changed = statements.update(k, other);
    let old_bag = section_bag(here, statements[k]);
    let new_bag = section_bag(here, other);
    let front = children_bag(here, children_of(statements.drop_last()));
    let last_bag = section_bag(here, statements.last());
    lemma_block_bag(here, statements);
    lemma_block_bag(here, changed);
    if k == statements.len() - 1 {
        assert(changed.drop_last() =~= statements.drop_last());
        assert(front.add(new_bag).add(old_bag) =~= front.add(old_bag).add(new_bag));
    } else {
        assert(changed.drop_last() =~= statements.drop_last().update(k, other));
        lemma_block_bag_update(here, statements.drop_last(), k, other);
        let changed_front = children_bag(here, children_of(changed.drop_last()));
        assert(changed_front.add(old_bag) == front.add(new_bag));
        assert forall|p: ProcedureView|
            changed_front.add(last_bag).add(old_bag).count(p) == front.add(last_bag).add(
                new_bag,
            ).count(p) by {
            assert(changed_front.add(old_bag).count(p) == front.add(new_bag).count(p));
        }
        assert(changed_front.add(last_bag).add(old_bag) =~= front.add(last_bag).add(new_bag));
    }
}

/// Two blocks with the same prologue and, below them, the same procedures
/// have trees with the same procedures.
proof fn lemma_same_bag(
    above: Path,
    kind: NodeKind,
    ident: Seq<char>,
    one: Seq<MarkedView>,
    other: Seq<MarkedView>,
)
    requires
        prologue_of(one) == prologue_of(other),
        children_of(one).len() > 0,
        children_of(other).len() > 0,
        forall|here: Path| #[trigger]
            children_bag(here, children_of(one)) == children_bag(here, children_of(other)),
    ensures
        procedure_bag(above, node_of(kind, ident, one)) == procedure_bag(
            above,
            node_of(kind, ident, other),
        ),
{
    lemma_node_bag(above, node_of(kind, ident, one));
    lemma_node_bag(above, node_of(kind, ident, other));
    assert(step_of(node_of(kind, ident, one)) == step_of(node_of(kind, ident, other)));
}

/// A block stays free of faults when two of its sections change places.
proof fn lemma_fault_free_swap(
    grammar: Grammar,
    parent: NodeKind,
    statements: Seq<MarkedView>,
    a: int,
    b: int,
)
    requires
        fault_free(grammar, parent, statements),
    ensures
        fault_free(grammar, parent, swap_statements(statements, a, b)),
{
    let after = swap_statements(statements, a, b);
    if after != statements {
        let place = |i: int|
            if i == a {
                b
            } else if i == b {
                a
            } else {
                i
            };
        assert forall|i: int| 0 <= i < after.len() implies is_sound(
            grammar,
            parent,
            #[trigger] after[i],
        ) by {
            assert(after[i] == statements[place(i)]);
        }
        assert forall|i: int, j: int| 0 <= i < j < after.len() implies !same_section(
            #[trigger] after[i],
            #[trigger] after[j],
        ) by {
            assert(after[i] == statements[place(i)]);
            assert(after[j] == statements[place(j)]);
            if place(i) < place(j) {
                assert(!same_section(statements[place(i)], statements[place(j)]));
            } else {
                assert(!same_section(statements[place(j)], statements[place(i)]));
            }
        }
    }
}

/// A block stays free of faults when one of its sections gets another
/// block that is free of faults exactly when the old one is.
proof fn lemma_fault_free_inner(
    grammar: Grammar,
    parent: NodeKind,
    statements: Seq<MarkedView>,
    k: int,
    inner: Seq<MarkedView>,
)
    requires
        0 <= k < statements.len(),
        verdict(statements[k]) matches Ok(Some(section)) && (fault_in(
            grammar,
            NodeKind::Section(section.section_type),
            section.statements,
        ) is None <==> fault_in(grammar, NodeKind::Section(section.section_type), inner) is None),
    ensures
        fault_free(grammar, parent, statements) <==> fault_free(
            grammar,
            parent,
            statements.update(k, with_block(statements[k], inner)),
        ),
{
    let other = with_block(statements[k], inner);
    let after = statements.update(k, other);
    assert(is_sound(grammar, parent, other) == is_sound(grammar, parent, statements[k]));
    assert forall|x: MarkedView|
        same_section(x, other) == same_section(x, statements[k]) && same_section(other, x)
            == same_section(statements[k], x) by {}
    if fault_free(grammar, parent, statements) {
        assert forall|i: int| 0 <= i < after.len() implies is_sound(
            grammar,
            parent,
            #[trigger] after[i],
        ) by {
            assert(is_sound(grammar, parent, statements[i]));
        }
        assert forall|i: int, j: int| 0 <= i < j < after.len() implies !same_section(
            #[trigger] after[i],
            #[trigger] after[j],
        ) by {
            assert(!same_section(statements[i], statements[j]));
        }
    }
    if fault_free(grammar, parent, after) {
        assert forall|i: int| 0 <= i < statements.len() implies is_sound(
            grammar,
            parent,
            #[trigger] statements[i],
        ) by {
            assert(is_sound(grammar, parent, after[i]));
        }
        assert forall|i: int, j: int| 0 <= i < j < statements.len() implies !same_section(
            #[trigger] statements[i],
            #[trigger] statements[j],
        ) by {
            assert(!same_section(after[i], after[j]));
        }
    }
}

/// The section `statement` with `inner` as its statements.
pub open spec fn with_block(statement: MarkedView, inner: Seq<MarkedView>) -> MarkedView {
    match statement {
        MarkedView::Section { kind, ident, .. } => MarkedView::Section {
            kind,
            ident,
            statements: inner,
        },
        _ => statement,
    }
}

/// Wherever in a block two sibling sections change places, the block
/// builds exactly when it did before, and the procedures of its tree stay
/// the same.
proof fn lemma_swap_sections(
    grammar: Grammar,
    kind: NodeKind,
    ident: Seq<char>,
    above: Path,
    statements: Seq<MarkedView>,
    route: Seq<int>,
    a: int,
    b: int,
)
    ensures
        fault_in(grammar, kind, swap_sections(statements, route, a, b)) is None <==> fault_in(
            grammar,
            kind,
            statements,
        ) is None,
        procedure_bag(above, node_of(kind, ident, swap_sections(statements, route, a, b)))
            == procedure_bag(above, node_of(kind, ident, statements)),
    decreases route.len(),
{
    broadcast use vstd::multiset::group_multiset_axioms;

    let after = swap_sections(statements, route, a, b);
    lemma_fault_free(grammar, kind, statements);
    lemma_fault_free(grammar, kind, after);
    if after == statements {
    } else if route.len() == 0 {
        let first = statements.update(a, statements[b]);
        assert(after == first.update(b, statements[a]));
        if a == b {
            assert(after =~= statements);
        } else {
            if fault_free(grammar, kind, statements) {
                lemma_fault_free_swap(grammar, kind, statements, a, b);
            }
            if fault_free(grammar, kind, after) {
                lemma_fault_free_swap(grammar, kind, after, a, b);
                assert(swap_statements(after, a, b) =~= statements);
            }
            lemma_prologue_update(statements, a, statements[b]);
            lemma_prologue_update(first, b, statements[a]);
            lemma_has_children(statements, a);
            lemma_has_children(after, a);
            assert forall|here: Path| #[trigger]
                children_bag(here, children_of(after)) == children_bag(
                    here,
                    children_of(statements),
                ) by {
                lemma_block_bag_update(here, statements, a, statements[b]);
                lemma_block_bag_update(here, first, b, statements[a]);
                let one = section_bag(here, statements[a]);
                let other = section_bag(here, statements[b]);
                let before = children_bag(here, children_of(statements));
                let between = children_bag(here, children_of(first));
                let at_last = children_bag(here, children_of(after));
                assert(between.add(one) == before.add(other));
                assert(at_last.add(other) == between.add(one));
                assert forall|p: ProcedureView| at_last.count(p) == before.count(p) by {
                    assert(at_last.add(other).count(p) == before.add(other).count(p));
                }
                assert(at_last =~= before);
            }
            lemma_same_bag(above, kind, ident, after, statements);
        }
    } else {
        let k = route[0];
        let section = verdict(statements[k])->Ok_0->Some_0;
        let inner = swap_sections(section.statements, route.skip(1), a, b);
        let below = NodeKind::Section(section.section_type);
        assert(after == statements.update(k, with_block(statements[k], inner)));
        lemma_swap_sections(grammar, below, section.ident, above, section.statements, route.skip(1), a, b);
        lemma_fault_free_inner(grammar, kind, statements, k, inner);
        lemma_prologue_update(statements, k, after[k]);
        lemma_has_children(statements, k);
        lemma_has_children(after, k);
        assert forall|here: Path| #[trigger]
            children_bag(here, children_of(after)) == children_bag(
                here,
                children_of(statements),
            ) by {
            lemma_swap_sections(
                grammar,
                below,
                section.ident,
                here,
                section.statements,
                route.skip(1),
                a,
                b,
            );
            lemma_block_bag_update(here, statements, k, after[k]);
            let old_bag = section_bag(here, statements[k]);
            let before = children_bag(here, children_of(statements));
            let changed = children_bag(here, children_of(after));
            assert(section_bag(here, after[k]) == old_bag);
            assert(changed.add(old_bag) == before.add(old_bag));
            assert forall|p: ProcedureView| changed.count(p) == before.count(p) by {
                assert(changed.add(old_bag).count(p) == before.add(old_bag).count(p));
            }
            assert(changed =~= before);
        }
        lemma_same_bag(above, kind, ident, after, statements);
    }
}

/// The law for a scenario's block: wherever in it two sibling sections
/// change places, the scenario compiles exactly when it did before, and to
/// the same procedures. Each keeps its name, its scope, its statements and
/// its narrative, so no procedure holds a statement of a sibling branch.
pub proof fn lemma_section_order_is_immaterial(
    grammar: Grammar,
    name: Seq<char>,
    statements: Seq<MarkedView>,
    route: Seq<int>,
    a: int,
    b: int,
)
    ensures
        scenario_spec(grammar, name, swap_sections(statements, route, a, b)) is Ok
            <==> scenario_spec(grammar, name, statements) is Ok,
        scenario_spec(grammar, name, statements) is Ok ==> scenario_spec(
            grammar,
            name,
            swap_sections(statements, route, a, b),
        )->Ok_0.to_multiset() == scenario_spec(grammar, name, statements)->Ok_0.to_multiset(),
{
    let none: Path = Seq::empty();
    let after = swap_sections(statements, route, a, b);
    lemma_swap_sections(grammar, NodeKind::Scenario, name, none, statements, route, a, b);
    lemma_procedures_from_root(node_of(NodeKind::Scenario, name, statements));
    lemma_procedures_from_root(node_of(NodeKind::Scenario, name, after));
}

} // verus!
