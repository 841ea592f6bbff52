//! What running a plan gives, and that the optimizer does not change it.

use vstd::prelude::*;
use crate::executor::batch::{normal_fields, sound, well_typed, Cell, Outcome};
use crate::executor::physical::{built, fielded, output_fields, scans};
use crate::executor::scan::{remapped, scan_fields, scan_stream};
use crate::executor::{End, Stream};
use crate::optimizer::optimized;
use crate::optimizer::predicate_pushdown::push_down;
use crate::optimizer::projection_pruning::pruned;
use crate::planner::logical_plan::{AggFunc, PlanView};
use crate::executor::aggregate::agg_funcs;
use crate::semantics::blocking::{lemma_aggregate_shows, lemma_join_shows, lemma_sort_shows};
use crate::semantics::execution::{
    batch_rows, begins_with, flat_rows, good, lemma_assembled, lemma_filter_shows,
    lemma_flat_rows_front, lemma_limit_shows, lemma_project_shows, lemma_shows_after,
    lemma_shows_nothing, row_of, shows,
};
use crate::semantics::folding::law_folding_keeps_meaning;
use crate::semantics::pruning::{law_pruning_keeps_meaning, lemma_pruned_inner};
use crate::semantics::pushdown::{lemma_push_down_means, projection_fields};
use crate::semantics::sensible::{fitting, lemma_sensible_inner, sensible};
use crate::semantics::values::lemma_names_concat;
use crate::semantics::{argument_columns, fields_of, meaning, rows_where, total_value};
use crate::executor::sums::Sums;
use crate::types::{names, FieldView};

verus! {

/// The batches of a file hold the first of the rows; all of them, where the file is done.
pub open spec fn delivers(s: Stream, rows: Seq<Seq<Cell>>) -> bool {
    &&& forall|i: int|
        0 <= i < s.batches.len() ==> sound(#[trigger] s.batches[i]) && s.batches[i].rows > 0
    &&& begins_with(rows, flat_rows(s.batches))
    &&& s.end is Done ==> flat_rows(s.batches) == rows
}

/// The files deliver the rows of the tables that the plan scans. Where a filter stands on a scan,
/// rows may be missing that it rejects. No table has more rows than can be counted.
pub open spec fn serves(
    p: PlanView,
    files: Seq<spec_fn(Sums) -> Stream>,
    t: Map<Seq<char>, Seq<Seq<Cell>>>,
    o: Sums,
) -> bool
    decreases p,
{
    &&& meaning(p, t, o).len() <= usize::MAX
    &&& match p {
        PlanView::Scan { .. } => delivers(files[0](o), meaning(p, t, o)),
        PlanView::Filter { predicate, input } => if *input is Scan {
            exists|rows: Seq<Seq<Cell>>| #[trigger]
                delivers(files[0](o), rows) && rows_where(predicate, fields_of(*input), rows)
                    == meaning(p, t, o)
        } else {
            serves(*input, files, t, o)
        },
        PlanView::Projection { input, .. } => serves(*input, files, t, o),
        PlanView::Aggregate { input, .. } => serves(*input, files, t, o.first()),
        PlanView::Sort { input, .. } => serves(*input, files, t, o),
        PlanView::Join { left, right, .. } => serves(
            *left,
            files.take(scans(*left) as int),
            t,
            o.first(),
        ) && serves(*right, files.skip(scans(*left) as int), t, o.second()),
        PlanView::Limit { input, .. } => serves(*input, files, t, o),
        PlanView::Empty { .. } => true,
    }
}

/// The fields of output batches have the names of the rows' fields.
proof fn lemma_output_names(p: PlanView)
    ensures
        names(output_fields(p)) == names(fields_of(p)),
    decreases p,
{
    match p {
        PlanView::Filter { input, .. } => { lemma_output_names(*input); },
        PlanView::Sort { input, .. } => { lemma_output_names(*input); },
        PlanView::Limit { input, .. } => { lemma_output_names(*input); },
        PlanView::Join { left, right, .. } => {
            lemma_output_names(*left);
            lemma_output_names(*right);
            lemma_names_concat(output_fields(*left), output_fields(*right));
            lemma_names_concat(fields_of(*left), fields_of(*right));
        },
        _ => {},
    }
    assert(names(output_fields(p)) =~= names(fields_of(p)));
}

/// A scan shows the rows that its file delivers.
proof fn lemma_scan_shows(fields: Seq<FieldView>, s: Stream, rows: Seq<Seq<Cell>>)
    requires
        delivers(s, rows),
    ensures
        shows(scan_stream(fields, s), normal_fields(fields), rows),
    decreases s.batches.len(),
{
    let f = normal_fields(fields);
    if s.batches.len() == 0 {
        assert(flat_rows(s.batches) =~= Seq::empty());
        lemma_shows_nothing(s.end, f, rows);
    } else {
        let b = s.batches[0];
        let rest = s.rest();
        assert(s.batches =~= seq![b] + rest.batches);
        lemma_flat_rows_front(b, rest.batches);
        let flat = flat_rows(s.batches);
        let tail = rows.skip(b.rows as int);
        assert(rows.take(b.rows as int) =~= flat.take(b.rows as int));
        assert(flat.take(b.rows as int) =~= batch_rows(b));
        assert(flat_rows(rest.batches) =~= flat.skip(b.rows as int));
        assert(tail.take(flat_rows(rest.batches).len() as int) =~= rows.take(
            flat.len() as int,
        ).skip(b.rows as int));
        assert(rows =~= batch_rows(b) + tail);
        assert forall|i: int| 0 <= i < rest.batches.len() implies sound(#[trigger] rest.batches[i])
            && rest.batches[i].rows > 0 by {
            assert(rest.batches[i] == s.batches[i + 1]);
        }
        if s.end is Done {
            assert(flat_rows(rest.batches) =~= tail);
        }
        lemma_scan_shows(fields, rest, tail);
        match remapped(fields, b) {
            Outcome::Value(x) => {
                assert(sound(b));
                assert forall|i: int| 0 <= i < b.columns.len() implies well_typed(
                    #[trigger] b.columns[i],
                ) by {}
                lemma_assembled(fields, b.columns, Some(b.rows), x);
                assert(batch_rows(x) =~= batch_rows(b)) by {
                    assert forall|i: int| 0 <= i < b.rows implies batch_rows(x)[i] == batch_rows(
                        b,
                    )[i] by {
                        assert(row_of(x, i) =~= row_of(b, i));
                    }
                }
                lemma_shows_after(x, scan_stream(fields, rest), f, rows, tail);
            },
            Outcome::Fault(x) => {
                lemma_shows_nothing(End::Failed(x), f, rows);
            },
            Outcome::Open => {
                lemma_shows_nothing(End::Open, f, rows);
            },
        }
    }
}

/// Law: what the operators of a plan give are the rows that the plan means, from the first on and
/// with its fields; all of them, where they get to the end.
pub proof fn law_operators_give_meaning(
    p: PlanView,
    files: Seq<spec_fn(Sums) -> Stream>,
    t: Map<Seq<char>, Seq<Seq<Cell>>>,
    o: Sums,
)
    requires
        serves(p, files, t, o),
    ensures
        built(p, files, o) matches Outcome::Value(s) ==> shows(s, fields_of(p), meaning(p, t, o)),
    decreases p,
{
    let f = fields_of(p);
    match p {
        PlanView::Empty { .. } => {
            lemma_shows_nothing(End::Done, f, meaning(p, t, o));
        },
        PlanView::Scan { schema, projection, .. } => {
            lemma_scan_shows(scan_fields(schema, projection), files[0](o), meaning(p, t, o));
        },
        PlanView::Filter { predicate, input } => {
            if *input is Scan {
                let rows = choose|rows: Seq<Seq<Cell>>| #[trigger]
                    delivers(files[0](o), rows) && rows_where(predicate, fields_of(*input), rows)
                        == meaning(p, t, o);
                match *input {
                    PlanView::Scan { schema, projection, .. } => {
                        let fields = scan_fields(schema, projection);
                        lemma_scan_shows(fields, files[0](o), rows);
                        lemma_filter_shows(predicate, scan_stream(fields, files[0](o)), f, rows);
                    },
                    _ => {},
                }
            } else {
                law_operators_give_meaning(*input, files, t, o);
                match built(*input, files, o) {
                    Outcome::Value(s) => {
                        lemma_filter_shows(predicate, s, f, meaning(*input, t, o));
                    },
                    _ => {},
                }
            }
        },
        PlanView::Projection { exprs, schema, input } => {
            law_operators_give_meaning(*input, files, t, o);
            match built(*input, files, o) {
                Outcome::Value(s) => {
                    let used = fielded(exprs, schema);
                    let g = fields_of(*input);
                    lemma_project_shows(used, schema, s, g, meaning(*input, t, o));
                    assert(projection_fields(used, schema, g) =~= f);
                },
                _ => {},
            }
        },
        PlanView::Aggregate { group_by, aggr_exprs, schema, input } => {
            law_operators_give_meaning(*input, files, t, o.first());
            match built(*input, files, o.first()) {
                Outcome::Value(s) => {
                    lemma_aggregate_shows(
                        group_by,
                        aggr_exprs,
                        schema,
                        s,
                        fields_of(*input),
                        meaning(*input, t, o.first()),
                        o.totals(aggr_exprs.len()),
                    );
                },
                _ => {},
            }
        },
        PlanView::Sort { exprs, input } => {
            law_operators_give_meaning(*input, files, t, o);
            lemma_output_names(*input);
            match built(*input, files, o) {
                Outcome::Value(s) => {
                    lemma_sort_shows(exprs, output_fields(*input), s, f, meaning(*input, t, o));
                },
                _ => {},
            }
        },
        PlanView::Join { left, right, on, join_type, .. } => {
            let k = scans(*left) as int;
            law_operators_give_meaning(*left, files.take(k), t, o.first());
            law_operators_give_meaning(*right, files.skip(k), t, o.second());
            lemma_output_names(*left);
            lemma_output_names(*right);
            lemma_names_concat(output_fields(*left), output_fields(*right));
            lemma_names_concat(fields_of(*left), fields_of(*right));
            lemma_served_len(*left, files.take(k), t, o.first());
            lemma_served_len(*right, files.skip(k), t, o.second());
            match (built(*left, files.take(k), o.first()), built(*right, files.skip(k), o.second())) {
                (Outcome::Value(l), Outcome::Value(r)) => {
                    lemma_join_shows(
                        l,
                        r,
                        on,
                        join_type,
                        output_fields(*left) + output_fields(*right),
                        fields_of(*left),
                        meaning(*left, t, o.first()),
                        fields_of(*right),
                        meaning(*right, t, o.second()),
                    );
                },
                _ => {},
            }
        },
        PlanView::Limit { n, input } => {
            law_operators_give_meaning(*input, files, t, o);
            match built(*input, files, o) {
                Outcome::Value(s) => {
                    lemma_limit_shows(n as nat, s, f, meaning(*input, t, o));
                },
                _ => {},
            }
        },
    }
}

proof fn lemma_served_len(
    p: PlanView,
    files: Seq<spec_fn(Sums) -> Stream>,
    t: Map<Seq<char>, Seq<Seq<Cell>>>,
    o: Sums,
)
    requires
        serves(p, files, t, o),
    ensures
        meaning(p, t, o).len() <= usize::MAX,
{
}

/// No sum or mean of a whole table is asked for.
pub open spec fn sums_nothing(p: PlanView) -> bool
    decreases p,
{
    match p {
        PlanView::Filter { input, .. } => sums_nothing(*input),
        PlanView::Projection { input, .. } => sums_nothing(*input),
        PlanView::Aggregate { group_by, aggr_exprs, input, .. } => {
            &&& sums_nothing(*input)
            &&& group_by.len() > 0 || forall|i: int|
                0 <= i < aggr_exprs.len() ==> (#[trigger] agg_funcs(aggr_exprs)[i]) != AggFunc::Sum
                    && agg_funcs(aggr_exprs)[i] != AggFunc::Avg
        },
        PlanView::Sort { input, .. } => sums_nothing(*input),
        PlanView::Join { left, right, .. } => sums_nothing(*left) && sums_nothing(*right),
        PlanView::Limit { input, .. } => sums_nothing(*input),
        _ => true,
    }
}

/// Law: how sums of floats come out makes no difference to a plan that asks for no sum or mean of a
/// whole table.
pub proof fn law_only_sums_differ(
    p: PlanView,
    t: Map<Seq<char>, Seq<Seq<Cell>>>,
    o: Sums,
    q: Sums,
)
    requires
        sums_nothing(p),
    ensures
        meaning(p, t, o) == meaning(p, t, q),
    decreases p,
{
    match p {
        PlanView::Filter { input, .. } => { law_only_sums_differ(*input, t, o, q); },
        PlanView::Projection { input, .. } => { law_only_sums_differ(*input, t, o, q); },
        PlanView::Aggregate { group_by, aggr_exprs, schema, input } => {
            law_only_sums_differ(*input, t, o.first(), q.first());
            if group_by.len() == 0 {
                let funcs = agg_funcs(aggr_exprs);
                let args = argument_columns(
                    aggr_exprs,
                    fields_of(*input),
                    meaning(*input, t, o.first()),
                );
                let a = o.totals(aggr_exprs.len());
                let b = q.totals(aggr_exprs.len());
                assert forall|i: int| 0 <= i < funcs.len() implies total_value(
                    funcs[i],
                    args[i],
                    a[i],
                ) == total_value(funcs[i], args[i], b[i]) by {
                    assert(agg_funcs(aggr_exprs)[i] != AggFunc::Sum);
                }
                assert(Seq::new(funcs.len(), |i: int| total_value(funcs[i], args[i], a[i]))
                    =~= Seq::new(funcs.len(), |i: int| total_value(funcs[i], args[i], b[i])));
            }
        },
        PlanView::Sort { input, .. } => { law_only_sums_differ(*input, t, o, q); },
        PlanView::Join { left, right, .. } => {
            law_only_sums_differ(*left, t, o.first(), q.first());
            law_only_sums_differ(*right, t, o.second(), q.second());
        },
        PlanView::Limit { input, .. } => { law_only_sums_differ(*input, t, o, q); },
        _ => {},
    }
}

/// Law: the optimizer keeps what a plan means, and the fields of its rows where it has any.
pub proof fn law_optimizer_keeps_meaning(p: PlanView, t: Map<Seq<char>, Seq<Seq<Cell>>>, o: Sums)
    requires
        sensible(p),
        fitting(p, t),
    ensures
        meaning(optimized(p), t, o) == meaning(p, t, o),
        meaning(p, t, o).len() > 0 ==> fields_of(optimized(p)) == fields_of(p),
{
    lemma_push_down_means(p, t, o);
    law_pruning_keeps_meaning(push_down(p), t, o);
    lemma_sensible_inner(push_down(p));
    lemma_pruned_inner(push_down(p));
    law_folding_keeps_meaning(pruned(push_down(p)), t, o);
}

/// Law: a plan and the optimized plan, both run to the end over the same tables, give the same rows
/// with the same fields, where sums of floats come out the same in both.
pub proof fn law_optimizer_equivalence(
    p: PlanView,
    files: Seq<spec_fn(Sums) -> Stream>,
    optimized_files: Seq<spec_fn(Sums) -> Stream>,
    t: Map<Seq<char>, Seq<Seq<Cell>>>,
    o: Sums,
    a: Stream,
    b: Stream,
)
    requires
        sensible(p),
        fitting(p, t),
        serves(p, files, t, o),
        serves(optimized(p), optimized_files, t, o),
        built(p, files, o) == Outcome::Value(a),
        built(optimized(p), optimized_files, o) == Outcome::Value(b),
        a.end is Done,
        b.end is Done,
    ensures
        flat_rows(a.batches) == flat_rows(b.batches),
        forall|i: int| 0 <= i < a.batches.len() ==> (#[trigger] a.batches[i]).fields == fields_of(p),
        forall|i: int| 0 <= i < b.batches.len() ==> (#[trigger] b.batches[i]).fields == fields_of(p),
{
    law_optimizer_keeps_meaning(p, t, o);
    law_operators_give_meaning(p, files, t, o);
    law_operators_give_meaning(optimized(p), optimized_files, t, o);
    assert forall|i: int| 0 <= i < b.batches.len() implies (#[trigger] b.batches[i]).fields
        == fields_of(p) by {
        assert(good(b.batches[i], fields_of(optimized(p))));
        lemma_some_rows(b.batches, fields_of(optimized(p)));
    }
    assert forall|i: int| 0 <= i < a.batches.len() implies (#[trigger] a.batches[i]).fields
        == fields_of(p) by {
        assert(good(a.batches[i], fields_of(p)));
    }
}

/// Good batches have rows.
pub proof fn lemma_some_rows(bs: Seq<crate::executor::batch::BatchView>, f: Seq<FieldView>)
    requires
        bs.len() > 0,
        forall|i: int| 0 <= i < bs.len() ==> good(#[trigger] bs[i], f),
    ensures
        flat_rows(bs).len() > 0,
{
    assert(good(bs[bs.len() - 1], f));
}

} // verus!
