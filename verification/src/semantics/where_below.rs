//! What the optimizer makes of a filter above a projection: it reads the table.

use vstd::prelude::*;
use crate::executor::batch::{Cell, Outcome};
use crate::executor::physical::built;
use crate::executor::sums::Sums;
use crate::executor::Stream;
use crate::optimizer::optimized;
use crate::optimizer::predicate_pushdown::{
    bindings, lemma_push_down_keeps, push_down, push_filter, substitute,
};
use crate::optimizer::projection_pruning::pruned;
use crate::planner::logical_plan::PlanView;
use crate::semantics::execution::{flat_rows, good};
use crate::semantics::folding::law_folding_keeps_meaning;
use crate::semantics::laws::{law_operators_give_meaning, lemma_some_rows, serves};
use crate::semantics::pruning::{law_pruning_keeps_meaning, lemma_pruned_inner};
use crate::semantics::pushdown::{lemma_push_down_means, lemma_push_down_passes};
use crate::semantics::sensible::{fitting, lemma_sensible_inner, sensible};
use crate::semantics::{fields_of, meaning};
use crate::types::names;

verus! {

/// The plan with a filter above its projection put below it, reading the selected expressions under
/// their output names and everything else as it is below.
pub open spec fn where_below(p: PlanView) -> PlanView
    decreases p,
{
    match p {
        PlanView::Filter { predicate, input } => match *input {
            PlanView::Projection { exprs, schema, input: below } => PlanView::Projection {
                exprs,
                schema,
                input: Box::new(
                    PlanView::Filter {
                        predicate: substitute(predicate, bindings(exprs, names(schema))),
                        input: below,
                    },
                ),
            },
            _ => p,
        },
        PlanView::Sort { exprs, input } => PlanView::Sort {
            exprs,
            input: Box::new(where_below(*input)),
        },
        PlanView::Limit { n, input } => PlanView::Limit { n, input: Box::new(where_below(*input)) },
        _ => p,
    }
}

/// Where the filter stands makes no difference to the fields and the schema of a plan.
pub proof fn lemma_where_below_fields(p: PlanView)
    ensures
        fields_of(where_below(p)) == fields_of(p),
        where_below(p).schema() == p.schema(),
    decreases p,
{
    match p {
        PlanView::Filter { input, .. } => match *input {
            PlanView::Projection { exprs, schema, input: below } => {
                let s = substitute(p->Filter_predicate, bindings(exprs, names(schema)));
                let filter = PlanView::Filter { predicate: s, input: below };
                assert(fields_of(filter) == fields_of(*below));
                assert(fields_of(p) == fields_of(*input));
                assert(fields_of(where_below(p)) =~= fields_of(*input));
                assert(p.schema() == input.schema());
            },
            _ => {},
        },
        PlanView::Sort { input, .. } => { lemma_where_below_fields(*input); },
        PlanView::Limit { input, .. } => { lemma_where_below_fields(*input); },
        _ => {},
    }
}

/// Predicate pushdown makes a plan mean what it means with its filter below the projection.
proof fn lemma_where_below_means(p: PlanView, t: Map<Seq<char>, Seq<Seq<Cell>>>, o: Sums)
    requires
        sensible(where_below(p)),
        fitting(where_below(p), t),
    ensures
        meaning(push_down(p), t, o) == meaning(where_below(p), t, o),
        fields_of(push_down(p)) == fields_of(p),
        sensible(push_down(p)),
        fitting(push_down(p), t),
    decreases p,
{
    match p {
        PlanView::Filter { predicate, input } => match *input {
            PlanView::Projection { exprs, schema, input: below } => {
                let s = substitute(predicate, bindings(exprs, names(schema)));
                let filter = PlanView::Filter { predicate: s, input: below };
                assert(sensible(filter) && fitting(filter, t));
                assert(fields_of(filter) == fields_of(*below));
                assert(fields_of(p) == fields_of(*input));
                lemma_push_down_means(*below, t, o);
                lemma_push_down_keeps(*input);
                lemma_push_down_passes(s, *below, t, o);
                let pushed = PlanView::Filter { predicate: s, input: Box::new(push_down(*below)) };
                assert(push_down(*input) == PlanView::Projection {
                    exprs,
                    schema,
                    input: Box::new(push_down(*below)),
                });
                assert(exprs.len() == schema.len());
                assert(push_filter(predicate, push_down(*input)) == PlanView::Projection {
                    exprs,
                    schema,
                    input: Box::new(pushed),
                });
                assert(push_down(p) == push_filter(predicate, push_down(*input)));
                assert(fields_of(pushed) == fields_of(*below));
                assert(meaning(pushed, t, o) == meaning(filter, t, o));
                assert(sensible(pushed) && fitting(pushed, t));
                assert(fields_of(push_down(p)) =~= fields_of(p));
            },
            _ => { lemma_push_down_means(p, t, o); },
        },
        PlanView::Sort { input, .. } => {
            lemma_where_below_means(*input, t, o);
            lemma_where_below_fields(*input);
        },
        PlanView::Limit { input, .. } => {
            lemma_where_below_means(*input, t, o);
            lemma_where_below_fields(*input);
        },
        _ => { lemma_push_down_means(p, t, o); },
    }
}

/// Law: the optimized plan means what the plan means with its filter below the projection.
pub proof fn law_filter_reads_below(p: PlanView, t: Map<Seq<char>, Seq<Seq<Cell>>>, o: Sums)
    requires
        sensible(where_below(p)),
        fitting(where_below(p), t),
    ensures
        meaning(optimized(p), t, o) == meaning(where_below(p), t, o),
        meaning(where_below(p), t, o).len() > 0 ==> fields_of(optimized(p)) == fields_of(p),
{
    lemma_where_below_means(p, t, o);
    law_pruning_keeps_meaning(push_down(p), t, o);
    lemma_sensible_inner(push_down(p));
    lemma_pruned_inner(push_down(p));
    law_folding_keeps_meaning(pruned(push_down(p)), t, o);
}

/// Law: the optimized plan, run to the end, gives the rows that the plan means with its filter below
/// the projection, with the fields of the plan.
pub proof fn law_optimized_plans_read_below(
    p: PlanView,
    files: Seq<spec_fn(Sums) -> Stream>,
    t: Map<Seq<char>, Seq<Seq<Cell>>>,
    o: Sums,
    s: Stream,
)
    requires
        sensible(where_below(p)),
        fitting(where_below(p), t),
        serves(optimized(p), files, t, o),
        built(optimized(p), files, o) == Outcome::Value(s),
        s.end is Done,
    ensures
        flat_rows(s.batches) == meaning(where_below(p), t, o),
        forall|i: int| 0 <= i < s.batches.len() ==> (#[trigger] s.batches[i]).fields == fields_of(p),
{
    law_filter_reads_below(p, t, o);
    law_operators_give_meaning(optimized(p), files, t, o);
    assert forall|i: int| 0 <= i < s.batches.len() implies (#[trigger] s.batches[i]).fields
        == fields_of(p) by {
        assert(good(s.batches[i], fields_of(optimized(p))));
        lemma_some_rows(s.batches, fields_of(optimized(p)));
    }
}

} // verus!
