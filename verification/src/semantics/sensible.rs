//! Plans whose expressions read what their inputs have, and tables that fit them.

use vstd::prelude::*;
use crate::executor::batch::Cell;
use crate::executor::scan::fields_at;
use crate::executor::expr_eval::column_at;
use crate::optimizer::columns::columns;
use crate::optimizer::predicate_pushdown::{
    bindings, conjunction, flatten, names_after, names_before, side_of, strip_alias, substitute,
    Side,
};
use crate::optimizer::projection_pruning::{left_keys, right_keys, sort_exprs};
use crate::planner::logical_plan::{key_of, BinaryOp, ExprView, JoinType, PlanView};
use crate::semantics::values::{
    found, lemma_names_concat, lemma_reads_found, lemma_rows_where_within, reads_within,
};
use crate::semantics::{cells_at, fields_of, join_rows, matches_of, meaning, row_key, sort_columns};
use crate::executor::batch::kernels::sort_order;
use crate::executor::batch::ordering::is_permutation;
use crate::executor::sums::Sums;
use crate::types::{names, position, FieldView, ScalarView};

verus! {

/// Every expression reads only columns that the fields name.
pub open spec fn all_read_within(es: Seq<ExprView>, fields: Seq<FieldView>) -> bool {
    forall|i: int| 0 <= i < es.len() ==> reads_within(#[trigger] es[i], fields)
}

/// Every expression finds the columns that it reads.
pub open spec fn all_found(es: Seq<ExprView>, fields: Seq<FieldView>) -> bool {
    forall|i: int| 0 <= i < es.len() ==> found(#[trigger] es[i], fields)
}

/// No name is in both lists.
pub open spec fn apart(a: Seq<Seq<char>>, b: Seq<Seq<char>>) -> bool {
    forall|k: Seq<char>| #[trigger] a.contains(k) ==> !b.contains(k)
}

/// Above a projection the expression reads what it would read below it. A column that has the name of
/// outputs reads one expression; another one, under a qualifier, reads by its bare name an output
/// that is the very column which it reads below.
pub open spec fn seen(
    e: ExprView,
    exprs: Seq<ExprView>,
    outputs: Seq<Seq<char>>,
    fields: Seq<FieldView>,
) -> bool
    decreases e,
{
    match e {
        ExprView::Column { name, relation } => match position(outputs, key_of(name, relation)) {
            Some(i) => forall|j: int|
                0 <= j < outputs.len() && #[trigger] outputs[j] == outputs[i] ==> strip_alias(
                    exprs[j],
                ) == strip_alias(exprs[i]),
            None => {
                &&& relation is Some
                &&& position(outputs, name) matches Some(i)
                &&& strip_alias(exprs[i]) matches ExprView::Column { name: n, relation: r }
                &&& column_at(fields, name, relation) is Some
                &&& column_at(fields, n, r) == column_at(fields, name, relation)
            },
        },
        ExprView::Binary { left, right, .. } => seen(*left, exprs, outputs, fields) && seen(
            *right,
            exprs,
            outputs,
            fields,
        ),
        ExprView::Aggregate { arg, .. } => seen(*arg, exprs, outputs, fields),
        ExprView::Alias { expr, .. } => seen(*expr, exprs, outputs, fields),
        _ => true,
    }
}

/// The predicate reads the same above the plan and wherever in it a filter can stand: it finds its
/// columns, through a projection it is seen, and on a join it finds them under their own names, a
/// conjunct that reads one input passing through that input.
pub open spec fn passes(e: ExprView, p: PlanView) -> bool
    decreases p,
{
    match p {
        PlanView::Filter { input, .. } => passes(e, *input),
        PlanView::Projection { exprs, schema, input } => {
            &&& seen(e, exprs, names(schema), fields_of(*input))
            &&& passes(substitute(e, bindings(exprs, names(schema))), *input)
        },
        PlanView::Join { left, right, join_type, schema, .. } => {
            let l = names_before(schema, left.schema().len());
            let r = names_after(schema, left.schema().len());
            let cs = flatten(e);
            &&& reads_within(e, fields_of(p))
            &&& forall|i: int|
                0 <= i < cs.len() && side_of(#[trigger] cs[i], l, r, join_type) == Side::Left
                    ==> passes(cs[i], *left)
            &&& forall|i: int|
                0 <= i < cs.len() && side_of(#[trigger] cs[i], l, r, join_type) == Side::Right
                    ==> passes(cs[i], *right)
        },
        _ => found(e, fields_of(p)),
    }
}

/// The plan reads whole tables; each expression finds the columns that it reads; a predicate passes
/// through its input; a projection has a field for each expression; a join is an inner one and has
/// the columns of its inputs, which share no name.
pub open spec fn sensible(p: PlanView) -> bool
    decreases p,
{
    match p {
        PlanView::Scan { projection, .. } => projection is None,
        PlanView::Filter { predicate, input } => sensible(*input) && passes(
            predicate,
            *input,
        ),
        PlanView::Projection { exprs, schema, input } => {
            &&& sensible(*input)
            &&& exprs.len() == schema.len()
            &&& all_found(exprs, fields_of(*input))
        },
        PlanView::Aggregate { group_by, aggr_exprs, input, .. } => sensible(*input)
            && all_found(group_by, fields_of(*input)) && all_found(aggr_exprs, fields_of(*input)),
        PlanView::Sort { exprs, input } => sensible(*input) && all_found(
            sort_exprs(exprs),
            fields_of(*input),
        ),
        PlanView::Join { left, right, on, join_type, schema } => {
            &&& join_type == JoinType::Inner
            &&& sensible(*left)
            &&& sensible(*right)
            &&& names(schema) == names(fields_of(*left)) + names(fields_of(*right))
            &&& apart(names(fields_of(*left)), names(fields_of(*right)))
            &&& all_found(left_keys(on), fields_of(*left))
            &&& all_found(right_keys(on), fields_of(*right))
        },
        PlanView::Limit { input, .. } => sensible(*input),
        PlanView::Empty { .. } => true,
    }
}

/// Every join is an inner join.
pub open spec fn inner_only(p: PlanView) -> bool
    decreases p,
{
    match p {
        PlanView::Filter { input, .. } => inner_only(*input),
        PlanView::Projection { input, .. } => inner_only(*input),
        PlanView::Aggregate { input, .. } => inner_only(*input),
        PlanView::Sort { input, .. } => inner_only(*input),
        PlanView::Join { left, right, join_type, .. } => join_type == JoinType::Inner && inner_only(
            *left,
        ) && inner_only(*right),
        PlanView::Limit { input, .. } => inner_only(*input),
        _ => true,
    }
}

/// What is seen above a projection is found there.
proof fn lemma_seen_found(
    e: ExprView,
    exprs: Seq<ExprView>,
    outputs: Seq<FieldView>,
    fields: Seq<FieldView>,
)
    requires
        seen(e, exprs, names(outputs), fields),
    ensures
        found(e, outputs),
    decreases e,
{
    match e {
        ExprView::Binary { left, right, .. } => {
            lemma_seen_found(*left, exprs, outputs, fields);
            lemma_seen_found(*right, exprs, outputs, fields);
        },
        ExprView::Aggregate { arg, .. } => { lemma_seen_found(*arg, exprs, outputs, fields); },
        ExprView::Alias { expr, .. } => { lemma_seen_found(*expr, exprs, outputs, fields); },
        _ => {},
    }
}

/// A predicate that passes finds its columns.
pub proof fn lemma_passes_found(e: ExprView, p: PlanView)
    requires
        passes(e, p),
    ensures
        found(e, fields_of(p)),
    decreases p,
{
    match p {
        PlanView::Filter { input, .. } => { lemma_passes_found(e, *input); },
        PlanView::Projection { exprs, schema, input } => {
            assert(names(fields_of(p)) =~= names(schema));
            lemma_seen_found(e, exprs, fields_of(p), fields_of(*input));
        },
        PlanView::Join { .. } => { lemma_reads_found(e, fields_of(p)); },
        _ => {},
    }
}

/// Two predicates that pass do so together.
pub proof fn lemma_passes_and(a: ExprView, b: ExprView, p: PlanView)
    requires
        passes(a, p),
        passes(b, p),
    ensures
        passes(
            ExprView::Binary { left: Box::new(a), op: BinaryOp::And, right: Box::new(b) },
            p,
        ),
    decreases p,
{
    let both = ExprView::Binary { left: Box::new(a), op: BinaryOp::And, right: Box::new(b) };
    match p {
        PlanView::Filter { input, .. } => { lemma_passes_and(a, b, *input); },
        PlanView::Projection { exprs, schema, input } => {
            let m = bindings(exprs, names(schema));
            lemma_passes_and(substitute(a, m), substitute(b, m), *input);
            assert(substitute(both, m) == (ExprView::Binary {
                left: Box::new(substitute(a, m)),
                op: BinaryOp::And,
                right: Box::new(substitute(b, m)),
            }));
        },
        PlanView::Join { left, right, join_type, schema, .. } => {
            assert forall|k: Seq<char>| #[trigger] columns(both).contains(k) implies names(
                fields_of(p),
            ).contains(k) by {
                assert(columns(a).contains(k) || columns(b).contains(k));
            }
            let l = names_before(schema, left.schema().len());
            let r = names_after(schema, left.schema().len());
            let x = flatten(a);
            let y = flatten(b);
            let cs = flatten(both);
            assert(cs == x + y);
            assert forall|i: int| 0 <= i < cs.len() implies {
                let side = side_of(#[trigger] cs[i], l, r, join_type);
                (side == Side::Left ==> passes(cs[i], *left)) && (side == Side::Right ==> passes(
                    cs[i],
                    *right,
                ))
            } by {
                if i < x.len() {
                    assert(cs[i] == x[i]);
                } else {
                    assert(cs[i] == y[i - x.len()]);
                }
            }
        },
        _ => {},
    }
}

/// TRUE passes through every plan.
proof fn lemma_true_passes(p: PlanView)
    ensures
        passes(ExprView::Literal(ScalarView::Boolean(true)), p),
    decreases p,
{
    let e = ExprView::Literal(ScalarView::Boolean(true));
    match p {
        PlanView::Filter { input, .. } => { lemma_true_passes(*input); },
        PlanView::Projection { exprs, schema, input } => {
            assert(substitute(e, bindings(exprs, names(schema))) == e);
            lemma_true_passes(*input);
        },
        PlanView::Join { left, right, .. } => {
            assert(flatten(e) =~= seq![e]);
            lemma_true_passes(*left);
            lemma_true_passes(*right);
        },
        _ => {},
    }
}

/// The conjunction of predicates that pass does so.
pub proof fn lemma_passes_all(es: Seq<ExprView>, p: PlanView)
    requires
        forall|i: int| 0 <= i < es.len() ==> passes(#[trigger] es[i], p),
    ensures
        passes(conjunction(es), p),
    decreases es.len(),
{
    if es.len() == 0 {
        lemma_true_passes(p);
    } else if es.len() == 1 {
        assert(passes(es[0], p));
    } else {
        let rest = es.drop_last();
        assert forall|i: int| 0 <= i < rest.len() implies passes(#[trigger] rest[i], p) by {
            assert(rest[i] == es[i]);
        }
        lemma_passes_all(rest, p);
        assert(passes(es[es.len() - 1], p));
        lemma_passes_and(conjunction(rest), es.last(), p);
    }
}

/// A sensible plan has inner joins only.
pub proof fn lemma_sensible_inner(p: PlanView)
    requires
        sensible(p),
    ensures
        inner_only(p),
    decreases p,
{
    match p {
        PlanView::Filter { input, .. } => { lemma_sensible_inner(*input); },
        PlanView::Projection { input, .. } => { lemma_sensible_inner(*input); },
        PlanView::Aggregate { input, .. } => { lemma_sensible_inner(*input); },
        PlanView::Sort { input, .. } => { lemma_sensible_inner(*input); },
        PlanView::Join { left, right, .. } => {
            lemma_sensible_inner(*left);
            lemma_sensible_inner(*right);
        },
        PlanView::Limit { input, .. } => { lemma_sensible_inner(*input); },
        _ => {},
    }
}

/// Every row of a table that the plan scans has a cell for each field, no more than can be counted,
/// and every field of a projection has its expression.
pub open spec fn fitting(p: PlanView, t: Map<Seq<char>, Seq<Seq<Cell>>>) -> bool
    decreases p,
{
    match p {
        PlanView::Scan { table, schema, .. } => schema.len() <= usize::MAX && forall|i: int|
            0 <= i < t[table].len() ==> (#[trigger] t[table][i]).len() == schema.len(),
        PlanView::Filter { input, .. } => fitting(*input, t),
        PlanView::Projection { exprs, schema, input } => exprs.len() >= schema.len() && fitting(
            *input,
            t,
        ),
        PlanView::Aggregate { input, .. } => fitting(*input, t),
        PlanView::Sort { input, .. } => fitting(*input, t),
        PlanView::Join { left, right, .. } => fitting(*left, t) && fitting(*right, t),
        PlanView::Limit { input, .. } => fitting(*input, t),
        PlanView::Empty { .. } => true,
    }
}

/// A sensible plan's schema names the columns that its rows have.
pub proof fn lemma_schema_names(p: PlanView)
    requires
        sensible(p),
    ensures
        names(p.schema()) == names(fields_of(p)),
    decreases p,
{
    match p {
        PlanView::Filter { input, .. } => { lemma_schema_names(*input); },
        PlanView::Sort { input, .. } => { lemma_schema_names(*input); },
        PlanView::Limit { input, .. } => { lemma_schema_names(*input); },
        PlanView::Join { left, right, .. } => {
            lemma_names_concat(fields_of(*left), fields_of(*right));
        },
        _ => {},
    }
    assert(names(p.schema()) =~= names(fields_of(p)));
}

proof fn lemma_cells_at_len(row: Seq<Cell>, schema: Seq<FieldView>, idxs: Seq<usize>)
    ensures
        cells_at(row, schema.len(), idxs).len() == fields_at(schema, idxs).len(),
    decreases idxs.len(),
{
    if idxs.len() > 0 {
        lemma_cells_at_len(row, schema, idxs.drop_last());
    }
}

proof fn lemma_matches_len(
    left: Seq<Cell>,
    key: Seq<Cell>,
    rk: Seq<ExprView>,
    rf: Seq<FieldView>,
    rows: Seq<Seq<Cell>>,
    n: nat,
)
    requires
        forall|i: int| 0 <= i < rows.len() ==> (#[trigger] rows[i]).len() == n,
    ensures
        forall|i: int|
            0 <= i < matches_of(left, key, rk, rf, rows).len() ==> (#[trigger] matches_of(
                left,
                key,
                rk,
                rf,
                rows,
            )[i]).len() == left.len() + n,
    decreases rows.len(),
{
    if rows.len() > 0 {
        let rest = rows.drop_last();
        assert forall|i: int| 0 <= i < rest.len() implies (#[trigger] rest[i]).len() == n by {
            assert(rest[i] == rows[i]);
        }
        lemma_matches_len(left, key, rk, rf, rest, n);
        assert(rows[rows.len() - 1].len() == n);
        let a = matches_of(left, key, rk, rf, rest);
        let b = matches_of(left, key, rk, rf, rows);
        assert forall|i: int| 0 <= i < b.len() implies (#[trigger] b[i]).len() == left.len() + n by {
            if i < a.len() {
                assert(b[i] == a[i]);
            }
        }
    }
}

proof fn lemma_join_len(
    lk: Seq<ExprView>,
    lf: Seq<FieldView>,
    lrows: Seq<Seq<Cell>>,
    rk: Seq<ExprView>,
    rf: Seq<FieldView>,
    rrows: Seq<Seq<Cell>>,
    m: nat,
    n: nat,
)
    requires
        forall|i: int| 0 <= i < lrows.len() ==> (#[trigger] lrows[i]).len() == m,
        forall|i: int| 0 <= i < rrows.len() ==> (#[trigger] rrows[i]).len() == n,
    ensures
        forall|i: int|
            0 <= i < join_rows(lk, lf, lrows, rk, rf, rrows).len() ==> (#[trigger] join_rows(
                lk,
                lf,
                lrows,
                rk,
                rf,
                rrows,
            )[i]).len() == m + n,
    decreases lrows.len(),
{
    if lrows.len() > 0 {
        let rest = lrows.drop_last();
        assert forall|i: int| 0 <= i < rest.len() implies (#[trigger] rest[i]).len() == m by {
            assert(rest[i] == lrows[i]);
        }
        lemma_join_len(lk, lf, rest, rk, rf, rrows, m, n);
        let l = lrows[lrows.len() - 1];
        lemma_matches_len(l, row_key(lk, lf, l), rk, rf, rrows, n);
        let a = join_rows(lk, lf, rest, rk, rf, rrows);
        let b = matches_of(l, row_key(lk, lf, l), rk, rf, rrows);
        assert forall|i: int|
            0 <= i < join_rows(lk, lf, lrows, rk, rf, rrows).len() implies (#[trigger] join_rows(
            lk,
            lf,
            lrows,
            rk,
            rf,
            rrows,
        )[i]).len() == m + n by {
            if i < a.len() {
                assert(a[i].len() == m + n);
            } else {
                assert(b[i - a.len()].len() == m + n);
            }
        }
    }
}

/// Every row that a plan means has a cell for each of its fields.
pub proof fn lemma_row_width(p: PlanView, t: Map<Seq<char>, Seq<Seq<Cell>>>, o: Sums)
    requires
        inner_only(p),
        fitting(p, t),
    ensures
        forall|i: int|
            0 <= i < meaning(p, t, o).len() ==> (#[trigger] meaning(p, t, o)[i]).len() == fields_of(
                p,
            ).len(),
    decreases p,
{
    match p {
        PlanView::Scan { table, schema, projection } => {
            assert forall|i: int| 0 <= i < meaning(p, t, o).len() implies (#[trigger] meaning(
                p,
                t, o,
            )[i]).len() == fields_of(p).len() by {
                assert(t[table][i].len() == schema.len());
                match projection {
                    Some(idxs) => {
                        lemma_cells_at_len(t[table][i], schema, idxs);
                    },
                    None => {},
                }
            }
        },
        PlanView::Filter { predicate, input } => {
            lemma_row_width(*input, t, o);
            let rows = meaning(*input, t, o);
            lemma_rows_where_within(predicate, fields_of(*input), rows);
            assert forall|i: int| 0 <= i < meaning(p, t, o).len() implies (#[trigger] meaning(
                p,
                t, o,
            )[i]).len() == fields_of(p).len() by {
                let r = meaning(p, t, o)[i];
                assert(rows.contains(r));
                let k = choose|k: int| 0 <= k < rows.len() && rows[k] == r;
                assert(rows[k].len() == fields_of(*input).len());
            }
        },
        PlanView::Projection { .. } => {},
        PlanView::Aggregate { .. } => {
            assert forall|i: int| 0 <= i < meaning(p, t, o).len() implies (#[trigger] meaning(
                p,
                t, o,
            )[i]).len() == fields_of(p).len() by {}
        },
        PlanView::Sort { exprs, input } => {
            lemma_row_width(*input, t, o);
            let rows = meaning(*input, t, o);
            let order = sort_order(sort_columns(exprs, fields_of(*input), rows));
            assert forall|i: int| 0 <= i < meaning(p, t, o).len() implies (#[trigger] meaning(
                p,
                t, o,
            )[i]).len() == fields_of(p).len() by {
                if rows.len() > 0 && is_permutation(order, rows.len()) {
                    assert(order[i] < rows.len());
                    assert(rows[order[i] as int].len() == fields_of(*input).len());
                } else {
                    assert(rows[i].len() == fields_of(*input).len());
                }
            }
        },
        PlanView::Join { left, right, on, .. } => {
            lemma_row_width(*left, t, o.first());
            lemma_row_width(*right, t, o.second());
            lemma_join_len(
                left_keys(on),
                fields_of(*left),
                meaning(*left, t, o.first()),
                right_keys(on),
                fields_of(*right),
                meaning(*right, t, o.second()),
                fields_of(*left).len(),
                fields_of(*right).len(),
            );
        },
        PlanView::Limit { n, input } => {
            lemma_row_width(*input, t, o);
            let rows = meaning(*input, t, o);
            assert forall|i: int| 0 <= i < meaning(p, t, o).len() implies (#[trigger] meaning(
                p,
                t, o,
            )[i]).len() == fields_of(p).len() by {
                assert(rows[i].len() == fields_of(*input).len());
            }
        },
        PlanView::Empty { .. } => {},
    }
}

} // verus!
