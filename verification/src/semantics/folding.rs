//! Constant folding keeps what a plan means.

use vstd::prelude::*;
use crate::executor::aggregate::{agg_funcs, agg_parts};
use crate::executor::batch::Cell;
use crate::executor::expr_eval::literal_type;
use crate::float::{is_zero, lemma_total_place};
use crate::optimizer::constant_folding::{
    fold, fold_all, fold_down, fold_pairs, fold_sorts, folded, is_arithmetic,
};
use crate::optimizer::projection_pruning::{left_keys, right_keys};
use crate::planner::logical_plan::{BinaryOp, ExprView, PlanView, SortView};
use crate::semantics::{
    argument_column, argument_columns, expr_type, fields_of, holds, meaning, operator_value,
    projected_row, projected_rows, row_key, rows_where, sort_columns, sorted_of, value_column,
    value_columns, value_in,
};
use crate::semantics::sensible::inner_only;
use crate::semantics::values::{
    lemma_join_same_keys, lemma_join_without_right, lemma_rows_where_same, lemma_rows_where_within,
};
use crate::executor::sums::Sums;
use crate::types::{FieldView, ScalarView};

verus! {

/// Two constants fold to what the operator makes of them.
proof fn lemma_folded_value(a: ScalarView, op: BinaryOp, b: ScalarView)
    ensures
        folded(a, op, b) matches Some(v) ==> operator_value(
            op,
            literal_type(a),
            Cell::Scalar(a),
            literal_type(b),
            Cell::Scalar(b),
        ) == Cell::Scalar(v),
{
    match (a, b) {
        (ScalarView::Float64(x), ScalarView::Float64(y)) => {
            if !(is_zero(x) && is_zero(y) && x != y) {
                lemma_total_place(x, y);
            }
        },
        (ScalarView::Utf8(x), ScalarView::Utf8(y)) => {
            crate::order::lemma_text_order(x, y);
        },
        _ => {},
    }
}

/// The type of two constants' folded result is that of the operation.
proof fn lemma_folded_type(a: ScalarView, op: BinaryOp, b: ScalarView)
    ensures
        folded(a, op, b) matches Some(v) ==> literal_type(v) == if is_arithmetic(op) {
            if literal_type(b) == crate::types::DataType::Float64 {
                crate::types::DataType::Float64
            } else {
                literal_type(a)
            }
        } else {
            crate::types::DataType::Boolean
        },
{
}

/// A folded expression has the value and the type of the expression.
pub proof fn lemma_fold_value(e: ExprView, f: Seq<FieldView>, row: Seq<Cell>)
    ensures
        value_in(fold(e), f, row) == value_in(e, f, row),
        expr_type(fold(e), f) == expr_type(e, f),
    decreases e,
{
    match e {
        ExprView::Binary { left, op, right } => {
            lemma_fold_value(*left, f, row);
            lemma_fold_value(*right, f, row);
            match (fold(*left), fold(*right)) {
                (ExprView::Literal(a), ExprView::Literal(b)) => {
                    lemma_folded_value(a, op, b);
                    lemma_folded_type(a, op, b);
                },
                _ => {},
            }
        },
        ExprView::Alias { expr, .. } => {
            lemma_fold_value(*expr, f, row);
        },
        _ => {},
    }
}

/// Folded expressions have the values of the expressions.
proof fn lemma_fold_row(es: Seq<ExprView>, f: Seq<FieldView>, row: Seq<Cell>)
    ensures
        projected_row(fold_all(es), f, row) == projected_row(es, f, row),
{
    assert forall|i: int| 0 <= i < es.len() implies value_in(fold_all(es)[i], f, row) == value_in(
        es[i],
        f,
        row,
    ) by {
        lemma_fold_value(es[i], f, row);
    }
    assert(projected_row(fold_all(es), f, row) =~= projected_row(es, f, row));
}

/// A folded expression fills the column that the expression fills.
proof fn lemma_fold_column(e: ExprView, f: Seq<FieldView>, rows: Seq<Seq<Cell>>)
    ensures
        value_column(fold(e), f, rows) == value_column(e, f, rows),
{
    lemma_fold_value(e, f, Seq::empty());
    assert forall|i: int| 0 <= i < rows.len() implies value_in(fold(e), f, rows[i]) == value_in(
        e,
        f,
        rows[i],
    ) by {
        lemma_fold_value(e, f, rows[i]);
    }
    assert(value_column(fold(e), f, rows).cells =~= value_column(e, f, rows).cells);
}

/// Folding keeps the function of an aggregate and folds its argument.
proof fn lemma_fold_aggregate(e: ExprView)
    ensures
        match agg_parts(e) {
            Some(p) => agg_parts(fold(e)) == Some((p.0, fold(p.1))) && (fold(p.1)
                == ExprView::Wildcard <==> p.1 == ExprView::Wildcard),
            None => agg_parts(fold(e)) is None,
        },
    decreases e,
{
    match e {
        ExprView::Alias { expr, .. } => {
            lemma_fold_aggregate(*expr);
        },
        ExprView::Aggregate { arg, .. } => {},
        _ => {},
    }
}

/// Folded aggregates have the functions and the argument columns of the aggregates.
proof fn lemma_fold_aggregates(es: Seq<ExprView>, f: Seq<FieldView>, rows: Seq<Seq<Cell>>)
    ensures
        agg_funcs(fold_all(es)) == agg_funcs(es),
        argument_columns(fold_all(es), f, rows) == argument_columns(es, f, rows),
{
    assert forall|i: int| 0 <= i < es.len() implies agg_parts(fold_all(es)[i])->Some_0.0
        == agg_parts(es[i])->Some_0.0 && argument_column(fold_all(es)[i], f, rows)
        == argument_column(es[i], f, rows) by {
        lemma_fold_aggregate(es[i]);
        match agg_parts(es[i]) {
            Some(p) => {
                lemma_fold_column(p.1, f, rows);
            },
            None => {},
        }
    }
    assert(agg_funcs(fold_all(es)) =~= agg_funcs(es));
    assert(argument_columns(fold_all(es), f, rows) =~= argument_columns(es, f, rows));
}

/// Folded sort keys have the values of the sort keys.
proof fn lemma_fold_sorts(es: Seq<SortView>, f: Seq<FieldView>, rows: Seq<Seq<Cell>>)
    ensures
        sort_columns(fold_sorts(es), f, rows) == sort_columns(es, f, rows),
{
    assert forall|i: int| 0 <= i < es.len() implies value_column(fold_sorts(es)[i].expr, f, rows)
        == value_column(es[i].expr, f, rows) by {
        lemma_fold_column(es[i].expr, f, rows);
    }
    assert(sort_columns(fold_sorts(es), f, rows) =~= sort_columns(es, f, rows));
}

/// Law: constant folding keeps what a plan means, and the fields of its rows where it has any.
pub proof fn law_folding_keeps_meaning(p: PlanView, t: Map<Seq<char>, Seq<Seq<Cell>>>, o: Sums)
    requires
        inner_only(p),
    ensures
        meaning(fold_down(p), t, o) == meaning(p, t, o),
        meaning(p, t, o).len() > 0 ==> fields_of(fold_down(p)) == fields_of(p),
    decreases p,
{
    match p {
        PlanView::Filter { predicate, input } => {
            law_folding_keeps_meaning(*input, t, o);
            let f = fields_of(*input);
            let rows = meaning(*input, t, o);
            lemma_rows_where_within(predicate, f, rows);
            let q = fold(predicate);
            assert forall|i: int| 0 <= i < rows.len() implies holds(q, f, #[trigger] rows[i])
                == holds(predicate, f, rows[i]) by {
                lemma_fold_value(predicate, f, rows[i]);
            }
            lemma_rows_where_same(q, f, predicate, f, rows);
            if q == ExprView::Literal(ScalarView::Boolean(true)) {
                lemma_rows_where_all(q, f, rows);
            } else if q == ExprView::Literal(ScalarView::Boolean(false)) {
                lemma_rows_where_none(q, f, rows);
            }
        },
        PlanView::Projection { exprs, schema, input } => {
            law_folding_keeps_meaning(*input, t, o);
            let f = fields_of(*input);
            let rows = meaning(*input, t, o);
            let used = if exprs.len() <= schema.len() {
                exprs
            } else {
                exprs.take(schema.len() as int)
            };
            assert(fold_all(used) =~= if exprs.len() <= schema.len() {
                fold_all(exprs)
            } else {
                fold_all(exprs).take(schema.len() as int)
            });
            assert forall|i: int| 0 <= i < rows.len() implies projected_row(
                fold_all(used),
                f,
                rows[i],
            ) == projected_row(used, f, rows[i]) by {
                lemma_fold_row(used, f, rows[i]);
            }
            assert(projected_rows(fold_all(used), f, rows) =~= projected_rows(used, f, rows));
            assert(meaning(fold_down(p), t, o) =~= meaning(p, t, o));
            if rows.len() > 0 {
                assert forall|i: int| 0 <= i < schema.len() implies #[trigger] fields_of(
                    fold_down(p),
                )[i] == fields_of(p)[i] by {
                    if i < exprs.len() {
                        lemma_fold_value(exprs[i], f, Seq::empty());
                    }
                }
                assert(fields_of(fold_down(p)) =~= fields_of(p));
            }
        },
        PlanView::Aggregate { group_by, aggr_exprs, schema, input } => {
            law_folding_keeps_meaning(*input, t, o.first());
            let f = fields_of(*input);
            let rows = meaning(*input, t, o.first());
            assert forall|i: int| 0 <= i < group_by.len() implies value_column(
                fold_all(group_by)[i],
                f,
                rows,
            ) == value_column(group_by[i], f, rows) by {
                lemma_fold_column(group_by[i], f, rows);
            }
            assert(value_columns(fold_all(group_by), f, rows) =~= value_columns(group_by, f, rows));
            lemma_fold_aggregates(aggr_exprs, f, rows);
        },
        PlanView::Sort { exprs, input } => {
            law_folding_keeps_meaning(*input, t, o);
            lemma_fold_sorts(exprs, fields_of(*input), meaning(*input, t, o));
            lemma_sorted_len(exprs, fields_of(*input), meaning(*input, t, o));
        },
        PlanView::Join { left, right, on, .. } => {
            law_folding_keeps_meaning(*left, t, o.first());
            law_folding_keeps_meaning(*right, t, o.second());
            let lf = fields_of(*left);
            let rf = fields_of(*right);
            let lrows = meaning(*left, t, o.first());
            let rrows = meaning(*right, t, o.second());
            assert(left_keys(fold_pairs(on)) =~= fold_all(left_keys(on)));
            assert(right_keys(fold_pairs(on)) =~= fold_all(right_keys(on)));
            if rrows.len() == 0 {
                assert(rrows =~= Seq::empty());
                lemma_join_without_right(left_keys(on), lf, lrows, right_keys(on), rf);
                lemma_join_without_right(
                    fold_all(left_keys(on)),
                    fields_of(fold_down(*left)),
                    lrows,
                    fold_all(right_keys(on)),
                    fields_of(fold_down(*right)),
                );
            } else if lrows.len() > 0 {
                assert forall|i: int| 0 <= i < lrows.len() implies row_key(
                    fold_all(left_keys(on)),
                    lf,
                    #[trigger] lrows[i],
                ) == row_key(left_keys(on), lf, lrows[i]) by {
                    lemma_fold_row(left_keys(on), lf, lrows[i]);
                }
                assert forall|i: int| 0 <= i < rrows.len() implies row_key(
                    fold_all(right_keys(on)),
                    rf,
                    #[trigger] rrows[i],
                ) == row_key(right_keys(on), rf, rrows[i]) by {
                    lemma_fold_row(right_keys(on), rf, rrows[i]);
                }
                lemma_join_same_keys(
                    fold_all(left_keys(on)),
                    lf,
                    left_keys(on),
                    lf,
                    lrows,
                    fold_all(right_keys(on)),
                    rf,
                    right_keys(on),
                    rf,
                    rrows,
                );
            }
        },
        PlanView::Limit { n, input } => {
            law_folding_keeps_meaning(*input, t, o);
        },
        _ => {},
    }
}

/// TRUE selects every row.
proof fn lemma_rows_where_all(e: ExprView, f: Seq<FieldView>, rows: Seq<Seq<Cell>>)
    requires
        e == ExprView::Literal(ScalarView::Boolean(true)),
    ensures
        rows_where(e, f, rows) == rows,
    decreases rows.len(),
{
    if rows.len() > 0 {
        lemma_rows_where_all(e, f, rows.drop_last());
        assert(rows.drop_last().push(rows.last()) =~= rows);
    } else {
        assert(rows =~= Seq::empty());
    }
}

/// FALSE selects no row.
proof fn lemma_rows_where_none(e: ExprView, f: Seq<FieldView>, rows: Seq<Seq<Cell>>)
    requires
        e == ExprView::Literal(ScalarView::Boolean(false)),
    ensures
        rows_where(e, f, rows) == Seq::<Seq<Cell>>::empty(),
    decreases rows.len(),
{
    if rows.len() > 0 {
        lemma_rows_where_none(e, f, rows.drop_last());
    }
}

/// Nothing sorted is nothing.
proof fn lemma_sorted_len(es: Seq<SortView>, f: Seq<FieldView>, rows: Seq<Seq<Cell>>)
    ensures
        rows.len() == 0 ==> sorted_of(es, f, rows).len() == 0,
{
}

} // verus!
