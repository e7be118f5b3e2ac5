//! The path materialiser: one procedure for each path from the root of a
//! scenario's tree to a terminal node.

use crate::grammar::NodeKind;
use crate::section::{line_of, section_line};
use crate::statement::{lemma_views_push, views, Statement, StatementView};
use crate::text::{ident_to_string, words};
use crate::tree::{lemma_node_view, NodeView, ScenarioNode};
use vstd::prelude::*;
use vstd::string::*;

verus! {

/// One generated procedure.
#[derive(Debug, PartialEq, Eq)]
pub struct Procedure {
    /// The identifier of the terminal section.
    pub name: String,
    /// The nested scopes in which `name` is declared, outermost first.
    pub scope: Vec<String>,
    /// The statements to run, in order.
    pub body: Vec<Statement>,
    /// The text to show when the procedure starts.
    pub narrative: String,
}

/// The mathematical value of a [`Procedure`].
pub struct ProcedureView {
    pub name: Seq<char>,
    pub scope: Seq<Seq<char>>,
    pub body: Seq<StatementView>,
    pub narrative: Seq<char>,
}

/// The values of a sequence of strings, one for one.
pub open spec fn texts(strings: Seq<String>) -> Seq<Seq<char>> {
    Seq::new(strings.len(), |i: int| strings[i]@)
}

impl View for Procedure {
    type V = ProcedureView;

    open spec fn view(&self) -> ProcedureView {
        ProcedureView {
            name: self.name@,
            scope: texts(self.scope@),
            body: views(self.body@),
            narrative: self.narrative@,
        }
    }
}

/// The values of a sequence of procedures, one for one.
pub open spec fn procedure_views(procedures: Seq<Procedure>) -> Seq<ProcedureView> {
    Seq::new(procedures.len(), |i: int| procedures[i]@)
}

/// What a path takes from one node: everything but the node's children.
pub struct Step {
    pub kind: NodeKind,
    pub ident: Seq<char>,
    pub prologue: Seq<StatementView>,
}

/// A path: the steps from the root down to a node.
pub type Path = Seq<Step>;

pub open spec fn step_of(node: NodeView) -> Step {
    Step { kind: node.kind, ident: node.ident, prologue: node.prologue }
}

/// A terminal node: a leaf of the `Then` family.
pub open spec fn is_terminal(node: NodeView) -> bool {
    node.children.len() == 0 && node.kind.spec_is_assertion()
}

/// The paths from `node` to the terminal nodes below it, in source order.
/// A leaf is its own path if it is terminal, and has none otherwise.
pub open spec fn paths(node: NodeView) -> Seq<Path>
    decreases node, 1nat, 0nat,
{
    if node.children.len() == 0 {
        if node.kind.spec_is_assertion() {
            seq![seq![step_of(node)]]
        } else {
            Seq::empty()
        }
    } else {
        paths_through(node, node.children.len())
    }
}

/// The paths from `node` that lead through one of its first `count`
/// children.
pub open spec fn paths_through(node: NodeView, count: nat) -> Seq<Path>
    decreases node, 0nat, count,
{
    if count == 0 || count > node.children.len() {
        Seq::empty()
    } else {
        paths_through(node, (count - 1) as nat) + paths(node.children[count - 1]).map_values(
            |below: Path| seq![step_of(node)] + below,
        )
    }
}

/// The statements of a path: the prologues of its steps, root first.
pub open spec fn body_of(path: Path) -> Seq<StatementView>
    decreases path.len(),
{
    if path.len() == 0 {
        Seq::empty()
    } else {
        body_of(path.drop_last()) + path.last().prologue
    }
}

/// The line of one step in a narrative, with the line's end.
pub open spec fn step_line(step: Step) -> Seq<char> {
    match step.kind {
        NodeKind::Scenario => "Scenario: "@ + words(step.ident) + "\n"@,
        NodeKind::Section(kind) => section_line(kind, step.ident) + "\n"@,
    }
}

/// The narrative of a path: one line for each step, root first.
pub open spec fn narrative_of(path: Path) -> Seq<char>
    decreases path.len(),
{
    if path.len() == 0 {
        Seq::empty()
    } else {
        narrative_of(path.drop_last()) + step_line(path.last())
    }
}

/// The names that one step adds to the scope: the scenario's name; for a
/// section, the name of its kind's scope and then its identifier.
pub open spec fn step_names(step: Step) -> Seq<Seq<char>> {
    match step.kind {
        NodeKind::Scenario => seq![step.ident],
        NodeKind::Section(kind) => seq![kind.spec_namespace(), step.ident],
    }
}

/// The nested names of a path, root first.
pub open spec fn names_of(path: Path) -> Seq<Seq<char>>
    decreases path.len(),
{
    if path.len() == 0 {
        Seq::empty()
    } else {
        names_of(path.drop_last()) + step_names(path.last())
    }
}

/// The procedure of a path: named by the last step's identifier, in the
/// scope of all the names before it.
pub open spec fn procedure_of(path: Path) -> ProcedureView {
    ProcedureView {
        name: path.last().ident,
        scope: names_of(path).drop_last(),
        body: body_of(path),
        narrative: narrative_of(path),
    }
}

/// The procedures of `paths`, each continued from the path `above`.
pub open spec fn procedures_along(above: Path, paths: Seq<Path>) -> Seq<ProcedureView> {
    Seq::new(paths.len(), |i: int| procedure_of(above + paths[i]))
}

/// The procedures of a tree: one for each path to a terminal node, in source
/// order.
pub open spec fn procedures_of(tree: NodeView) -> Seq<ProcedureView> {
    paths(tree).map_values(|path: Path| procedure_of(path))
}

/// Appending a string appends its value.
proof fn lemma_texts_push(strings: Seq<String>, last: String)
    ensures
        texts(strings.push(last)) == texts(strings).push(last@),
{
    assert(texts(strings.push(last)) =~= texts(strings).push(last@));
}

/// Appending a procedure appends its value.
proof fn lemma_procedure_views_push(procedures: Seq<Procedure>, last: Procedure)
    ensures
        procedure_views(procedures.push(last)) == procedure_views(procedures).push(last@),
{
    assert(procedure_views(procedures.push(last)) =~= procedure_views(procedures).push(last@));
}

/// One more step adds its prologue, its line and its names at the end.
proof fn lemma_path_push(above: Path, step: Step)
    ensures
        body_of(above.push(step)) == body_of(above) + step.prologue,
        narrative_of(above.push(step)) == narrative_of(above) + step_line(step),
        names_of(above.push(step)) == names_of(above) + step_names(step),
{
    assert(above.push(step).drop_last() =~= above);
}

/// The paths through one more child are those through the children before
/// it, and then those of that child.
pub proof fn lemma_paths_through_next(above: Path, node: NodeView, count: nat)
    requires
        count < node.children.len(),
    ensures
        procedures_along(above, paths_through(node, count + 1)) == procedures_along(
            above,
            paths_through(node, count),
        ) + procedures_along(above.push(step_of(node)), paths(node.children[count as int])),
{
    let before = paths_through(node, count);
    let below = paths(node.children[count as int]);
    let lifted = below.map_values(|tail: Path| seq![step_of(node)] + tail);
    assert(paths_through(node, count + 1) == before + lifted);
    assert forall|i: int| 0 <= i < below.len() implies above + #[trigger] lifted[i] == above.push(
        step_of(node),
    ) + below[i] by {
        assert(above + lifted[i] =~= above.push(step_of(node)) + below[i]);
    }
    assert(procedures_along(above, before + lifted) =~= procedures_along(above, before)
        + procedures_along(above.push(step_of(node)), below));
}

/// A copy of a list of strings.
fn clone_strings(strings: &Vec<String>) -> (copy: Vec<String>)
    ensures
        texts(copy@) == texts(strings@),
{
    let mut copy: Vec<String> = Vec::new();
    let mut i: usize = 0;
    while i < strings.len()
        invariant
            i <= strings.len(),
            copy@.len() == i,
            forall|k: int| 0 <= k < i ==> (#[trigger] copy@[k])@ == strings@[k]@,
        decreases strings.len() - i,
    {
        copy.push(strings[i].clone());
        i += 1;
    }
    assert(texts(copy@) =~= texts(strings@));
    copy
}

/// A copy of `head` followed by a copy of `tail`.
fn concat_statements(head: &Vec<Statement>, tail: &Vec<Statement>) -> (joined: Vec<Statement>)
    ensures
        views(joined@) == views(head@) + views(tail@),
{
    let mut joined = crate::statement::clone_statements(head);
    let mut i: usize = 0;
    while i < tail.len()
        invariant
            i <= tail.len(),
            views(joined@) == views(head@) + views(tail@.take(i as int)),
        decreases tail.len() - i,
    {
        let ghost before = joined@;
        joined.push(tail[i].clone());
        proof {
            lemma_views_push(before, joined@[joined@.len() - 1]);
            lemma_views_push(tail@.take(i as int), tail@[i as int]);
            assert(tail@.take(i + 1) =~= tail@.take(i as int).push(tail@[i as int]));
            assert(views(joined@) =~= views(head@) + views(tail@.take(i + 1)));
        }
        i += 1;
    }
    assert(tail@.take(tail.len() as int) =~= tail@);
    joined
}

/// Renders the line of one node in a narrative, with the line's end.
fn line_with_end(kind: NodeKind, ident: &str) -> (text: String)
    ensures
        text@ == step_line(Step { kind, ident: ident@, prologue: Seq::empty() }),
{
    match kind {
        NodeKind::Scenario => {
            let mut text = String::from_str("Scenario: ");
            let name = ident_to_string(ident);
            text.append(name.as_str());
            text.append("\n");
            text
        },
        NodeKind::Section(section_type) => {
            let mut text = line_of(section_type, ident);
            text.append("\n");
            text
        },
    }
}

/// What a path has gathered on its way down from the root.
#[derive(Debug, PartialEq, Eq)]
pub struct Context {
    /// The nested names of the path, outermost first.
    pub names: Vec<String>,
    /// The prologues of the path, root first.
    pub body: Vec<Statement>,
    /// The lines of the path, root first.
    pub narrative: String,
}

/// The mathematical value of a [`Context`].
pub struct ContextView {
    pub names: Seq<Seq<char>>,
    pub body: Seq<StatementView>,
    pub narrative: Seq<char>,
}

impl View for Context {
    type V = ContextView;

    open spec fn view(&self) -> ContextView {
        ContextView { names: texts(self.names@), body: views(self.body@), narrative: self.narrative@ }
    }
}

/// What the path `path` gathers.
pub open spec fn context_of(path: Path) -> ContextView {
    ContextView { names: names_of(path), body: body_of(path), narrative: narrative_of(path) }
}

impl ContextView {
    /// The context one step further down.
    pub open spec fn append(self, step: Step) -> ContextView {
        ContextView {
            names: self.names + step_names(step),
            body: self.body + step.prologue,
            narrative: self.narrative + step_line(step),
        }
    }

    /// The procedure that ends here: the last name is its own.
    pub open spec fn procedure(self) -> ProcedureView {
        ProcedureView {
            name: self.names.last(),
            scope: self.names.drop_last(),
            body: self.body,
            narrative: self.narrative,
        }
    }
}

impl Context {
    /// The context above the root: nothing gathered yet.
    pub fn new() -> (context: Context)
        ensures
            context@ == context_of(Seq::empty()),
    {
        let context = Context { names: Vec::new(), body: Vec::new(), narrative: String::new() };
        assert(context@.names =~= names_of(Seq::empty()));
        assert(context@.body =~= body_of(Seq::empty()));
        context
    }

    /// The context one node further down: a copy of this one, with the
    /// node's names, prologue and line added at the end.
    pub fn append_section(&self, node: &ScenarioNode) -> (below: Context)
        ensures
            below@ == self@.append(step_of(node@)),
    {
        let mut names = clone_strings(&self.names);
        match node.kind {
            NodeKind::Scenario => {},
            NodeKind::Section(section_type) => {
                let ghost before = names@;
                let namespace = String::from_str(section_type.namespace());
                names.push(namespace);
                proof {
                    lemma_texts_push(before, namespace);
                }
            },
        }
        let ghost before = names@;
        let ident = node.ident.clone();
        names.push(ident);
        let body = concat_statements(&self.body, &node.prologue);
        let mut narrative = self.narrative.clone();
        let line = line_with_end(node.kind, node.ident.as_str());
        narrative.append(line.as_str());
        let below = Context { names, body, narrative };
        proof {
            lemma_texts_push(before, ident);
            assert(below@.names =~= self@.names + step_names(step_of(node@)));
        }
        below
    }

    /// The procedure of a path that ends here.
    pub fn into_procedure(self) -> (procedure: Procedure)
        requires
            self@.names.len() > 0,
        ensures
            procedure@ == self@.procedure(),
    {
        let Context { mut names, body, narrative } = self;
        let ghost all = names@;
        let name = names.pop().unwrap();
        let procedure = Procedure { name, scope: names, body, narrative };
        proof {
            assert(texts(names@) =~= texts(all).drop_last());
        }
        procedure
    }
}

/// The procedure of a path is what its context ends in.
pub proof fn lemma_procedure_of_context(path: Path)
    requires
        path.len() > 0,
    ensures
        context_of(path).procedure() == procedure_of(path),
{
    assert(names_of(path) =~= names_of(path.drop_last()) + step_names(path.last()));
}

/// Adds to `out` the procedures of the paths that lead through `node`, where
/// `context` is what the path `above` has gathered.
#[verifier::loop_isolation(false)]
fn collect(node: &ScenarioNode, context: &Context, out: &mut Vec<Procedure>, Ghost(above): Ghost<Path>)
    requires
        context@ == context_of(above),
    ensures
        procedure_views(final(out)@) == procedure_views(old(out)@) + procedures_along(
            above,
            paths(node@),
        ),
    decreases node,
{
    let ghost step = step_of(node@);
    let ghost here = above.push(step);
    proof {
        lemma_path_push(above, step);
        lemma_node_view(*node);
    }
    let below = context.append_section(node);
    if node.children.len() == 0 {
        if node.kind.is_assertion() {
            let ghost before = out@;
            let procedure = below.into_procedure();
            out.push(procedure);
            proof {
                lemma_procedure_views_push(before, procedure);
                lemma_procedure_of_context(here);
                assert(above + seq![step] =~= here);
                assert(procedure_views(out@) =~= procedure_views(before) + procedures_along(
                    above,
                    paths(node@),
                ));
            }
        } else {
            assert(procedure_views(out@) =~= procedure_views(out@) + procedures_along(
                above,
                paths(node@),
            ));
        }
    } else {
        let ghost start = procedure_views(out@);
        let mut k: usize = 0;
        assert(start =~= start + procedures_along(above, paths_through(node@, 0)));
        while k < node.children.len()
            invariant
                k <= node.children.len(),
                procedure_views(out@) == start + procedures_along(
                    above,
                    paths_through(node@, k as nat),
                ),
            decreases node.children.len() - k,
        {
            collect(&node.children[k], &below, out, Ghost(here));
            proof {
                lemma_paths_through_next(above, node@, k as nat);
                assert(procedure_views(out@) =~= start + procedures_along(
                    above,
                    paths_through(node@, (k + 1) as nat),
                ));
            }
            k += 1;
        }
    }
}

impl ScenarioNode {
    /// The procedures of the tree: one for each path from this node to a
    /// terminal node, in source order. A procedure runs the prologues of the
    /// nodes on its path, root first, and nothing of any other branch.
    pub fn procedures(&self) -> (out: Vec<Procedure>)
        ensures
            procedure_views(out@) == procedures_of(self@),
    {
        let mut out: Vec<Procedure> = Vec::new();
        let context = Context::new();
        let ghost root: Path = Seq::empty();
        collect(self, &context, &mut out, Ghost(root));
        proof {
            assert forall|i: int| 0 <= i < paths(self@).len() implies root + #[trigger] paths(
                self@,
            )[i] == paths(self@)[i] by {
                assert(root + paths(self@)[i] =~= paths(self@)[i]);
            }
            assert(procedure_views(out@) =~= procedures_of(self@));
        }
        out
    }
}

} // verus!
