//! What holds of every scenario: how many procedures a tree has, which
//! trees have none, that a procedure's full name is its own, that
//! compiling a marked block is a function of it, and that a block without
//! sections compiles to nothing.

use crate::compiled_view;
use crate::error::{Error, ErrorView};
use crate::grammar::{legal, Grammar, NodeKind};
use crate::kind::SectionType;
use crate::marked::{is_marking, unmark, unmark_all, MarkedView};
use crate::procedure::{
    names_of, paths, paths_through, procedure_of, procedures_of, step_names, step_of, Path,
    Procedure, ProcedureView, Step,
};
use crate::scenario_spec;
use crate::section::{label_kind, lemma_one_kind_per_label};
use crate::statement::StatementView;
use crate::tree::{children_of, fault_in, node_of, same_name, well_formed, NodeView};
use vstd::prelude::*;

verus! {

/// The number of terminal nodes in a tree, counted leaf by leaf.
pub open spec fn terminal_count(node: NodeView) -> nat
    decreases node, 1nat, 0nat,
{
    if node.children.len() == 0 {
        if node.kind.spec_is_assertion() {
            1
        } else {
            0
        }
    } else {
        terminal_count_through(node, node.children.len())
    }
}

/// The number of terminal nodes below the first `count` children of `node`.
pub open spec fn terminal_count_through(node: NodeView, count: nat) -> nat
    decreases node, 0nat, count,
{
    if count == 0 || count > node.children.len() {
        0
    } else {
        terminal_count_through(node, (count - 1) as nat) + terminal_count(node.children[count - 1])
    }
}

/// The number of leaves in a tree, of whatever kind.
pub open spec fn leaf_count(node: NodeView) -> nat
    decreases node, 1nat, 0nat,
{
    if node.children.len() == 0 {
        1
    } else {
        leaf_count_through(node, node.children.len())
    }
}

/// The number of leaves below the first `count` children of `node`.
pub open spec fn leaf_count_through(node: NodeView, count: nat) -> nat
    decreases node, 0nat, count,
{
    if count == 0 || count > node.children.len() {
        0
    } else {
        leaf_count_through(node, (count - 1) as nat) + leaf_count(node.children[count - 1])
    }
}

/// A tree without a dead end: every leaf is of the `Then` family.
pub open spec fn no_dead_end(node: NodeView) -> bool
    decreases node,
{
    if node.children.len() == 0 {
        node.kind.spec_is_assertion()
    } else {
        forall|i: int| 0 <= i < node.children.len() ==> no_dead_end(#[trigger] node.children[i])
    }
}

/// Whether the tree holds a node of the `Then` family.
pub open spec fn has_assertion(node: NodeView) -> bool
    decreases node,
{
    node.kind.spec_is_assertion() || exists|i: int|
        0 <= i < node.children.len() && has_assertion(#[trigger] node.children[i])
}

proof fn lemma_paths_through_len(node: NodeView, count: nat)
    requires
        count <= node.children.len(),
    ensures
        paths_through(node, count).len() == terminal_count_through(node, count),
    decreases node, 0nat, count,
{
    if count > 0 {
        lemma_paths_through_len(node, (count - 1) as nat);
        lemma_paths_len(node.children[count - 1]);
    }
}

proof fn lemma_paths_len(node: NodeView)
    ensures
        paths(node).len() == terminal_count(node),
    decreases node, 1nat, 0nat,
{
    if node.children.len() > 0 {
        lemma_paths_through_len(node, node.children.len());
    }
}

/// A tree has as many procedures as it has terminal nodes.
pub proof fn lemma_procedure_count(tree: NodeView)
    ensures
        procedures_of(tree).len() == terminal_count(tree),
{
    lemma_paths_len(tree);
}

proof fn lemma_leaves_through(node: NodeView, count: nat)
    requires
        count <= node.children.len(),
        node.children.len() > 0,
        no_dead_end(node),
    ensures
        terminal_count_through(node, count) == leaf_count_through(node, count),
    decreases node, 0nat, count,
{
    if count > 0 {
        lemma_leaves_through(node, (count - 1) as nat);
        lemma_leaves(node.children[count - 1]);
    }
}

proof fn lemma_leaves(node: NodeView)
    requires
        no_dead_end(node),
    ensures
        terminal_count(node) == leaf_count(node),
    decreases node, 1nat, 0nat,
{
    if node.children.len() > 0 {
        lemma_leaves_through(node, node.children.len());
    }
}

/// In a tree without a dead end there is one procedure for each leaf.
pub proof fn lemma_one_procedure_per_leaf(tree: NodeView)
    requires
        no_dead_end(tree),
    ensures
        procedures_of(tree).len() == leaf_count(tree),
{
    lemma_paths_len(tree);
    lemma_leaves(tree);
}

proof fn lemma_inert_through(node: NodeView, count: nat)
    requires
        count <= node.children.len(),
        !has_assertion(node),
    ensures
        paths_through(node, count).len() == 0,
    decreases node, 0nat, count,
{
    if count > 0 {
        lemma_inert_through(node, (count - 1) as nat);
        lemma_inert_paths(node.children[count - 1]);
    }
}

proof fn lemma_inert_paths(node: NodeView)
    requires
        !has_assertion(node),
    ensures
        paths(node).len() == 0,
    decreases node, 1nat, 0nat,
{
    if node.children.len() > 0 {
        lemma_inert_through(node, node.children.len());
    }
}

/// A tree without a node of the `Then` family has no procedure.
pub proof fn lemma_inert_branch(tree: NodeView)
    requires
        !has_assertion(tree),
    ensures
        procedures_of(tree).len() == 0,
{
    lemma_inert_paths(tree);
}

/// Compiling a marked block is a function of its input: two runs on the
/// same marked scenario end in the same names, scopes, statements and
/// narratives, character by character, or in the same fault.
pub proof fn lemma_compiling_is_repeatable(
    grammar: Grammar,
    name: Seq<char>,
    statements: Seq<MarkedView>,
    first: Result<Vec<Procedure>, Error>,
    second: Result<Vec<Procedure>, Error>,
)
    requires
        compiled_view(first) == scenario_spec(grammar, name, statements),
        compiled_view(second) == scenario_spec(grammar, name, statements),
    ensures
        compiled_view(first) == compiled_view(second),
        first is Ok == second is Ok,
{
}

/// The full name of a procedure: its scope, then its own name.
pub open spec fn full_name(procedure: ProcedureView) -> Seq<Seq<char>> {
    procedure.scope.push(procedure.name)
}

/// Two kinds that may stand under the same parent are declared in scopes
/// of different names.
pub proof fn lemma_sibling_scopes_differ(
    grammar: Grammar,
    parent: NodeKind,
    one: SectionType,
    other: SectionType,
)
    requires
        legal(grammar, parent, one),
        legal(grammar, parent, other),
        one != other,
    ensures
        one.spec_namespace() != other.spec_namespace(),
{
    reveal_strlit("given");
    reveal_strlit("when");
    reveal_strlit("then");
    reveal_strlit("and");
    assert("given"@[0] == 'g');
    assert("when"@[0] == 'w');
    assert("then"@[0] == 't');
    assert("and"@[0] == 'a');
}

/// The names of a path that is made of two parts are the names of the
/// first part, then those of the second.
pub proof fn lemma_names_concat(head: Path, tail: Path)
    ensures
        names_of(head + tail) == names_of(head) + names_of(tail),
    decreases tail.len(),
{
    if tail.len() == 0 {
        assert(head + tail =~= head);
        assert(names_of(head) + names_of(tail) =~= names_of(head));
    } else {
        assert((head + tail).drop_last() =~= head + tail.drop_last());
        lemma_names_concat(head, tail.drop_last());
        assert(names_of(head + tail) =~= names_of(head) + names_of(tail));
    }
}

/// Every path of a node starts at the node.
proof fn lemma_paths_start(node: NodeView, i: int)
    requires
        0 <= i < paths(node).len(),
    ensures
        paths(node)[i].len() >= 1,
        paths(node)[i][0] == step_of(node),
    decreases node, 1nat, 0nat,
{
    if node.children.len() > 0 {
        let k = lemma_through_start(node, node.children.len(), i);
    }
}

/// Every path through the first `count` children starts at the node and
/// goes on to one of those children, whose index is returned.
proof fn lemma_through_start(node: NodeView, count: nat, i: int) -> (k: int)
    requires
        count <= node.children.len(),
        0 <= i < paths_through(node, count).len(),
    ensures
        0 <= k < count,
        paths_through(node, count)[i].len() >= 2,
        paths_through(node, count)[i][0] == step_of(node),
        paths_through(node, count)[i][1] == step_of(node.children[k]),
    decreases node, 0nat, count,
{
    let before = paths_through(node, (count - 1) as nat);
    if i < before.len() {
        lemma_through_start(node, (count - 1) as nat, i)
    } else {
        lemma_paths_start(node.children[count - 1], i - before.len());
        count - 1
    }
}

/// The names of a path of two or more steps: those of its first two steps,
/// then the rest.
proof fn lemma_names_front(path: Path)
    requires
        path.len() >= 2,
    ensures
        names_of(path) == step_names(path[0]) + step_names(path[1]) + names_of(path.skip(2)),
{
    let front = path.take(2);
    assert(path =~= front + path.skip(2));
    lemma_names_concat(front, path.skip(2));
    assert(front.drop_last() =~= seq![path[0]]);
    assert(seq![path[0]].drop_last() =~= Seq::<Step>::empty());
    assert(names_of(Seq::<Step>::empty()) =~= Seq::<Seq<char>>::empty());
    assert(names_of(seq![path[0]]) =~= step_names(path[0]));
    assert(names_of(front) =~= step_names(path[0]) + step_names(path[1]));
}

/// Two paths that part at children of different names have different
/// names.
proof fn lemma_names_part(
    grammar: Grammar,
    above: Path,
    parent: NodeKind,
    one: Path,
    other: Path,
)
    requires
        one.len() >= 2,
        other.len() >= 2,
        one[0] == other[0],
        one[1].kind matches NodeKind::Section(kind) && legal(grammar, parent, kind),
        other[1].kind matches NodeKind::Section(kind) && legal(grammar, parent, kind),
        !(one[1].kind == other[1].kind && one[1].ident == other[1].ident),
    ensures
        names_of(above + one) != names_of(above + other),
{
    lemma_names_concat(above, one);
    lemma_names_concat(above, other);
    lemma_names_front(one);
    lemma_names_front(other);
    let start = names_of(above) + step_names(one[0]);
    let at = start.len() as int;
    let left = names_of(above + one);
    let right = names_of(above + other);
    assert(left =~= start + step_names(one[1]) + names_of(one.skip(2)));
    assert(right =~= start + step_names(other[1]) + names_of(other.skip(2)));
    assert(left[at] == step_names(one[1])[0]);
    assert(left[at + 1] == step_names(one[1])[1]);
    assert(right[at] == step_names(other[1])[0]);
    assert(right[at + 1] == step_names(other[1])[1]);
    if one[1].ident == other[1].ident {
        lemma_sibling_scopes_differ(
            grammar,
            parent,
            one[1].kind->Section_0,
            other[1].kind->Section_0,
        );
    }
}

/// No two paths through the first `count` children of a node have the same
/// names.
proof fn lemma_unique_through(
    grammar: Grammar,
    above: Path,
    node: NodeView,
    count: nat,
    i: int,
    j: int,
)
    requires
        well_formed(grammar, node),
        count <= node.children.len(),
        0 <= i < j < paths_through(node, count).len(),
    ensures
        names_of(above + paths_through(node, count)[i]) != names_of(
            above + paths_through(node, count)[j],
        ),
    decreases node, 0nat, count,
{
    let before = paths_through(node, (count - 1) as nat);
    let child = node.children[count - 1];
    let all = paths_through(node, count);
    if j < before.len() {
        lemma_unique_through(grammar, above, node, (count - 1) as nat, i, j);
    } else if i >= before.len() {
        let here = above.push(step_of(node));
        lemma_unique_paths(grammar, here, child, i - before.len(), j - before.len());
        assert(above + all[i] =~= here + paths(child)[i - before.len()]);
        assert(above + all[j] =~= here + paths(child)[j - before.len()]);
    } else {
        let k = lemma_through_start(node, (count - 1) as nat, i);
        let m = lemma_through_start(node, count, j);
        lemma_paths_start(child, j - before.len());
        assert(all[j][1] == step_of(child));
        assert(all[i] == before[i]);
        assert(!same_name(node.children[k], node.children[count - 1]));
        lemma_names_part(grammar, above, node.kind, all[i], all[j]);
    }
}

/// No two paths of a well-formed tree have the same names.
proof fn lemma_unique_paths(grammar: Grammar, above: Path, node: NodeView, i: int, j: int)
    requires
        well_formed(grammar, node),
        0 <= i < j < paths(node).len(),
    ensures
        names_of(above + paths(node)[i]) != names_of(above + paths(node)[j]),
    decreases node, 1nat, 0nat,
{
    if node.children.len() > 0 {
        lemma_unique_through(grammar, above, node, node.children.len(), i, j);
    }
}

/// The full name of a path's procedure is the names of the path.
proof fn lemma_full_name(path: Path)
    requires
        path.len() >= 1,
    ensures
        full_name(procedure_of(path)) == names_of(path),
{
    let names = names_of(path);
    assert(names =~= names_of(path.drop_last()) + step_names(path.last()));
    assert(names.last() == path.last().ident);
    assert(names.drop_last().push(names.last()) =~= names);
}

/// No two procedures of a well-formed tree have the same full name: the
/// nesting of the scopes tells them apart, whatever their own names are.
pub proof fn lemma_names_are_unique(grammar: Grammar, tree: NodeView, i: int, j: int)
    requires
        well_formed(grammar, tree),
        0 <= i < procedures_of(tree).len(),
        0 <= j < procedures_of(tree).len(),
        i != j,
    ensures
        full_name(procedures_of(tree)[i]) != full_name(procedures_of(tree)[j]),
{
    let none: Path = Seq::empty();
    lemma_paths_start(tree, i);
    lemma_paths_start(tree, j);
    lemma_full_name(paths(tree)[i]);
    lemma_full_name(paths(tree)[j]);
    assert(none + paths(tree)[i] =~= paths(tree)[i]);
    assert(none + paths(tree)[j] =~= paths(tree)[j]);
    if i < j {
        lemma_unique_paths(grammar, none, tree, i, j);
    } else {
        lemma_unique_paths(grammar, none, tree, j, i);
    }
}

/// A statement on which the classifier asks nobody: it has no label, or no
/// prefix starts its label.
pub open spec fn is_plainly_ordinary(statement: StatementView) -> bool {
    match statement {
        StatementView::Plain(_) => true,
        StatementView::Block { label, .. } => label_kind(label) is None,
    }
}

/// A block of such statements can be marked in one way only: each
/// statement is ordinary.
pub proof fn lemma_one_marking(marked: Seq<MarkedView>, statements: Seq<StatementView>, i: int)
    requires
        is_marking(marked, statements),
        0 <= i < statements.len(),
        is_plainly_ordinary(statements[i]),
    ensures
        marked.len() == statements.len(),
        marked[i] == MarkedView::Ordinary(statements[i]),
{
    assert(unmark_all(marked).len() == marked.len());
    assert(unmark_all(marked)[i] == unmark(marked[i]));
    match marked[i] {
        MarkedView::Ordinary(_) => {},
        MarkedView::Section { kind, ident, .. } => {
            let label = kind.spec_prefix() + ident;
            assert(label.subrange(0, kind.spec_prefix().len() as int) =~= kind.spec_prefix());
            lemma_one_kind_per_label(label, kind);
        },
        MarkedView::Malformed { kind, payload, .. } => {
            let label = kind.spec_prefix() + payload;
            assert(label.subrange(0, kind.spec_prefix().len() as int) =~= kind.spec_prefix());
            lemma_one_kind_per_label(label, kind);
        },
    }
}

proof fn lemma_all_ordinary(grammar: Grammar, kind: NodeKind, marked: Seq<MarkedView>)
    requires
        forall|i: int| 0 <= i < marked.len() ==> (#[trigger] marked[i]) is Ordinary,
    ensures
        fault_in(grammar, kind, marked) is None,
        children_of(marked).len() == 0,
    decreases marked.len(),
{
    if marked.len() > 0 {
        assert(marked[marked.len() - 1] is Ordinary);
        lemma_all_ordinary(grammar, kind, marked.drop_last());
    }
}

/// Where no prefix starts any label of a block, compiling asks nobody and
/// does not fail: there is no fault and no procedure, however the block is
/// marked.
pub proof fn lemma_no_sections(
    grammar: Grammar,
    name: Seq<char>,
    marked: Seq<MarkedView>,
    statements: Seq<StatementView>,
)
    requires
        is_marking(marked, statements),
        forall|i: int| 0 <= i < statements.len() ==> is_plainly_ordinary(#[trigger] statements[i]),
    ensures
        scenario_spec(grammar, name, marked) == Ok::<Seq<ProcedureView>, ErrorView>(Seq::empty()),
{
    assert(unmark_all(marked).len() == marked.len());
    assert forall|i: int| 0 <= i < marked.len() implies (#[trigger] marked[i]) is Ordinary by {
        lemma_one_marking(marked, statements, i);
    }
    lemma_all_ordinary(grammar, NodeKind::Scenario, marked);
    let tree = node_of(NodeKind::Scenario, name, marked);
    assert(procedures_of(tree) =~= Seq::<ProcedureView>::empty());
}

} // verus!
