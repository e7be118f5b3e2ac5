//! A behaviour-specification test compiler: a nested block of statements whose
//! labelled sub-blocks read `given_..`, `when_..`, `then_..` is turned into one
//! independent test procedure per narrative path.

pub mod error;
pub mod grammar;
pub mod kind;
pub mod laws;
pub mod marked;
pub mod order;
pub mod procedure;
pub mod section;
pub mod statement;
pub mod text;
pub mod tree;

use crate::error::{Error, ErrorView};
use crate::grammar::{Grammar, NodeKind};
use crate::laws::{is_plainly_ordinary, lemma_no_sections};
use crate::marked::{is_marking, mark, marked_views, Marked, MarkedView};
use crate::procedure::{procedure_views, procedures_of, Procedure, ProcedureView};
use crate::statement::{views, Statement};
use crate::tree::{build_spec, ScenarioNode};
use vstd::prelude::*;
use vstd::string::*;

verus! {

/// What a marked scenario compiles to: the procedures of its tree, or the
/// fault that stops the build of the tree. A fault leaves no procedure.
pub open spec fn scenario_spec(
    grammar: Grammar,
    name: Seq<char>,
    statements: Seq<MarkedView>,
) -> Result<Seq<ProcedureView>, ErrorView> {
    match build_spec(grammar, NodeKind::Scenario, name, statements) {
        Ok(tree) => Ok(procedures_of(tree)),
        Err(fault) => Err(fault),
    }
}

/// The mathematical value of what a compilation returns.
pub open spec fn compiled_view(compiled: Result<Vec<Procedure>, Error>) -> Result<
    Seq<ProcedureView>,
    ErrorView,
> {
    match compiled {
        Ok(procedures) => Ok(procedure_views(procedures@)),
        Err(fault) => Err(fault@),
    }
}

/// Compiles the scenario `name` whose block has been marked: one procedure
/// for each narrative path, or the first fault in the block.
pub fn compile(grammar: Grammar, name: &str, statements: &Vec<Marked>) -> (compiled: Result<
    Vec<Procedure>,
    Error,
>)
    ensures
        compiled_view(compiled) == scenario_spec(grammar, name@, marked_views(statements@)),
{
    match ScenarioNode::build(grammar, NodeKind::Scenario, String::from_str(name), statements) {
        Ok(tree) => Ok(tree.procedures()),
        Err(fault) => Err(fault),
    }
}

/// Compiles the scenario `name` with the block `statements` under the given
/// grammar: marks the block, then compiles it. Which labels name a section
/// and which are malformed is the verdict of syn, which this crate does
/// not state, so two runs on one block agree only as far as syn does. The
/// result is what [`scenario_spec`] gives for the block marked in one of
/// the ways that [`is_marking`] admits. Where no prefix starts any label,
/// syn is not asked, and the result is no procedure and no fault.
pub fn scenario_with(grammar: Grammar, name: &str, statements: &Vec<Statement>) -> (compiled: Result<
    Vec<Procedure>,
    Error,
>)
    ensures
        exists|marked: Seq<MarkedView>| #[trigger]
            is_marking(marked, views(statements@)) && compiled_view(compiled) == scenario_spec(
                grammar,
                name@,
                marked,
            ),
        (forall|i: int|
            0 <= i < statements@.len() ==> is_plainly_ordinary(#[trigger] views(statements@)[i]))
            ==> compiled_view(compiled) == Ok::<Seq<ProcedureView>, ErrorView>(Seq::empty()),
{
    let marked = mark(statements);
    let compiled = compile(grammar, name, &marked);
    proof {
        assert(is_marking(marked_views(marked@), views(statements@)));
        if forall|i: int|
            0 <= i < statements@.len() ==> is_plainly_ordinary(#[trigger] views(statements@)[i]) {
            lemma_no_sections(grammar, name@, marked_views(marked@), views(statements@));
        }
    }
    compiled
}

/// Compiles the scenario `name` with the block `statements` under the
/// permissive grammar, in which a `then` may stand directly in a `given`.
/// As with [`scenario_with`], which labels name a section is for syn to
/// say.
pub fn scenario(name: &str, statements: &Vec<Statement>) -> (compiled: Result<Vec<Procedure>, Error>)
    ensures
        exists|marked: Seq<MarkedView>| #[trigger]
            is_marking(marked, views(statements@)) && compiled_view(compiled) == scenario_spec(
                Grammar::Permissive,
                name@,
                marked,
            ),
        (forall|i: int|
            0 <= i < statements@.len() ==> is_plainly_ordinary(#[trigger] views(statements@)[i]))
            ==> compiled_view(compiled) == Ok::<Seq<ProcedureView>, ErrorView>(Seq::empty()),
{
    scenario_with(Grammar::Permissive, name, statements)
}

} // verus!
