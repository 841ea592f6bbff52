//! Aggregation of a whole table to one row.

use vstd::prelude::*;
use crate::error::ArborError;
use crate::executor::aggregate::{
    agg_arg_expr, agg_func, agg_funcs, agg_parts, execution_fault, output_columns, rows_to_columns,
};
use crate::executor::batch::kernels::{
    all_null, float_column_sum, float_max, float_min, int_max, int_min, int_sum, int_total,
    value_order, wrapped,
};
use crate::executor::sums::float_total;
use crate::executor::batch::{
    agrees, assembled, carried, carries, fits, lemma_null_count, marked_nulls, normal_type,
    null_cell, null_count, well_typed, Batch, BatchView, Cell, Column, ColumnView, Fault, Outcome,
};
use crate::executor::expr_eval::{evaluate_expr, evaluated};
use crate::executor::keys::key_views;
use crate::float::{float_of_int, float_over, float_quotient, int_to_float, settle, settled};
use crate::order::Order;
use crate::planner::logical_plan::{AggFunc, Expr, ExprView};
use crate::types::{
    lemma_views_push, views, DataType, Field, FieldView, ScalarValue, ScalarView, Schema,
};

verus! {

/// The first of the cells, NULLs aside, that none of the others stands to as `want`.
pub open spec fn best(cells: Seq<Cell>, want: Order) -> Cell
    decreases cells.len(),
{
    if cells.len() == 0 {
        null_cell()
    } else {
        let b = best(cells.drop_last(), want);
        let c = cells.last();
        if b == null_cell() || value_order(c, b) == Some(want) { c } else { b }
    }
}

/// The cells are those of one numeric column.
pub open spec fn numeric(t: DataType, cells: Seq<Cell>) -> bool {
    &&& t == DataType::Int64 || t == DataType::Float64
    &&& forall|i: int| 0 <= i < cells.len() ==> fits(t, #[trigger] cells[i])
}

/// `best` finds a cell of the column that none stands to as `want`, unless all are NULL.
pub proof fn lemma_best(t: DataType, cells: Seq<Cell>, want: Order)
    requires
        numeric(t, cells),
        want != Order::Equal,
    ensures
        all_null(cells) ==> best(cells, want) == null_cell(),
        !all_null(cells) ==> best(cells, want) != null_cell() && cells.contains(best(cells, want)),
        forall|i: int|
            0 <= i < cells.len() ==> value_order(#[trigger] cells[i], best(cells, want)) != Some(
                want,
            ),
        fits(t, best(cells, want)),
    decreases cells.len(),
{
    if cells.len() > 0 {
        let rest = cells.drop_last();
        let c = cells.last();
        assert(numeric(t, rest)) by {
            assert forall|i: int| 0 <= i < rest.len() implies fits(t, #[trigger] rest[i]) by {
                assert(rest[i] == cells[i]);
            }
        }
        lemma_best(t, rest, want);
        let b = best(rest, want);
        let r = best(cells, want);
        assert(fits(t, cells[cells.len() - 1]));
        if all_null(cells) {
            assert forall|i: int| 0 <= i < rest.len() implies #[trigger] rest[i] == null_cell() by {
                assert(rest[i] == cells[i]);
            }
            assert(cells[cells.len() - 1] == null_cell());
        } else if all_null(rest) {
            assert(c != null_cell()) by {
                if c == null_cell() {
                    assert forall|i: int| 0 <= i < cells.len() implies #[trigger] cells[i]
                        == null_cell() by {
                        if i < rest.len() {
                            assert(rest[i] == cells[i]);
                        }
                    }
                }
            }
            assert(cells[cells.len() - 1] == r);
        } else {
            if r == b {
                let k = choose|k: int| 0 <= k < rest.len() && rest[k] == b;
                assert(cells[k] == r);
            } else {
                assert(cells[cells.len() - 1] == r);
            }
        }
        assert forall|i: int| 0 <= i < cells.len() implies value_order(#[trigger] cells[i], r) != Some(
            want,
        ) by {
            if i < rest.len() {
                assert(rest[i] == cells[i]);
                assert(value_order(rest[i], b) != Some(want));
                assert(fits(t, cells[i]));
            }
        }
    }
}

/// A cell of a numeric column that none stands to as `want` is the best one.
pub proof fn lemma_best_is(t: DataType, cells: Seq<Cell>, want: Order, c: Cell)
    requires
        numeric(t, cells),
        want != Order::Equal,
        c != null_cell(),
        cells.contains(c),
        forall|i: int| 0 <= i < cells.len() ==> value_order(#[trigger] cells[i], c) != Some(want),
    ensures
        best(cells, want) == c,
        !all_null(cells),
{
    lemma_best(t, cells, want);
    let k = choose|k: int| 0 <= k < cells.len() && cells[k] == c;
    assert(cells[k] != null_cell());
    let b = best(cells, want);
    let j = choose|j: int| 0 <= j < cells.len() && cells[j] == b;
    assert(value_order(cells[j], c) != Some(want));
    assert(value_order(cells[k], b) != Some(want));
    assert(fits(t, cells[k]));
}

/// The scalar that a cell holds.
pub open spec fn cell_scalar(c: Cell) -> ScalarView {
    match c {
        Cell::Scalar(s) => s,
        Cell::Opaque(_) => ScalarView::Null,
    }
}

/// The number of values that are not marked NULL.
pub open spec fn valid_count(c: ColumnView) -> int {
    c.cells.len() - marked_nulls(c)
}

/// What an aggregate function makes of a column, `guess` being the sum of a float column where it is
/// one.
pub open spec fn full_value(func: AggFunc, c: ColumnView, guess: u64) -> Outcome<ScalarView> {
    let total = float_total(c.cells, guess);
    let whole = c.data_type == DataType::Int64;
    let float = c.data_type == DataType::Float64;
    let n = valid_count(c);
    match func {
        AggFunc::Count => Outcome::Value(ScalarView::Int64(wrapped(n) as i64)),
        AggFunc::Sum => if whole {
            Outcome::Value(ScalarView::Int64(wrapped(int_total(c.cells)) as i64))
        } else if float {
            Outcome::Value(ScalarView::Float64(if all_null(c.cells) { 0 } else { total }))
        } else {
            execution_fault("SUM type"@)
        },
        AggFunc::Min => if whole || float {
            Outcome::Value(cell_scalar(best(c.cells, Order::Less)))
        } else {
            execution_fault("MIN type"@)
        },
        AggFunc::Max => if whole || float {
            Outcome::Value(cell_scalar(best(c.cells, Order::Greater)))
        } else {
            execution_fault("MAX type"@)
        },
        AggFunc::Avg => if whole {
            Outcome::Value(
                ScalarView::Float64(
                    if n > 0 {
                        settled(
                            float_quotient(
                                float_of_int(wrapped(int_total(c.cells)) as i64),
                                float_of_int(wrapped(n) as i64),
                            ),
                        )
                    } else {
                        0
                    },
                ),
            )
        } else if float {
            Outcome::Value(
                ScalarView::Float64(
                    if n > 0 {
                        settled(float_quotient(total, float_of_int(wrapped(n) as i64)))
                    } else {
                        0
                    },
                ),
            )
        } else {
            execution_fault("AVG type"@)
        },
    }
}

/// How one aggregate of a whole table comes out, `total` being the sum of a float column where it is
/// one.
pub open spec fn full_scalar(e: ExprView, b: BatchView, total: u64) -> Outcome<ScalarView> {
    match agg_parts(e) {
        None => execution_fault("expected aggregate func"@),
        Some(p) => if p.0 == AggFunc::Count && p.1 == ExprView::Wildcard {
            Outcome::Value(ScalarView::Int64(wrapped(b.rows as int) as i64))
        } else {
            match evaluated(p.1, b) {
                Outcome::Value(c) => full_value(p.0, c, total),
                Outcome::Fault(f) => Outcome::Fault(f),
                Outcome::Open => Outcome::Open,
            }
        },
    }
}

/// How some aggregates of a whole table come out; the first that gives no value decides.
pub open spec fn full_scalars(es: Seq<ExprView>, b: BatchView, totals: Seq<u64>) -> Outcome<
    Seq<ScalarView>,
>
    decreases es.len(),
{
    if es.len() == 0 {
        Outcome::Value(Seq::empty())
    } else {
        match full_scalar(es[0], b, totals[0]) {
            Outcome::Value(s) => match full_scalars(es.skip(1), b, totals.skip(1)) {
                Outcome::Value(rest) => Outcome::Value(seq![s] + rest),
                other => other,
            },
            Outcome::Fault(f) => Outcome::Fault(f),
            Outcome::Open => Outcome::Open,
        }
    }
}

/// The fields that there is a scalar for.
pub open spec fn filled_fields(fields: Seq<FieldView>, n: nat) -> Seq<FieldView> {
    if fields.len() <= n { fields } else { fields.take(n as int) }
}

/// How aggregating a whole table comes out, `totals` being the sums of float columns where
/// they are such.
pub open spec fn full_batch(
    es: Seq<ExprView>,
    fields: Seq<FieldView>,
    b: BatchView,
    totals: Seq<u64>,
) -> Outcome<BatchView> {
    match full_scalars(es, b, totals) {
        Outcome::Value(vals) => written(vals, fields),
        Outcome::Fault(f) => Outcome::Fault(f),
        Outcome::Open => Outcome::Open,
    }
}

/// Where all is NULL, there are as many NULLs as cells.
proof fn lemma_all_null_count(cells: Seq<Cell>)
    ensures
        all_null(cells) ==> null_count(cells) == cells.len(),
        null_count(cells) == cells.len() ==> all_null(cells),
    decreases cells.len(),
{
    lemma_null_count(cells);
    if cells.len() > 0 {
        let rest = cells.drop_last();
        lemma_all_null_count(rest);
        lemma_null_count(rest);
        if all_null(cells) {
            assert forall|i: int| 0 <= i < rest.len() implies #[trigger] rest[i] == null_cell() by {
                assert(rest[i] == cells[i]);
            }
            assert(cells[cells.len() - 1] == null_cell());
        }
        if null_count(cells) == cells.len() {
            assert forall|i: int| 0 <= i < cells.len() implies #[trigger] cells[i] == null_cell() by {
                if i < rest.len() {
                    assert(rest[i] == cells[i]);
                }
            }
        }
    }
}

/// A length as a 64-bit integer.
fn length_number(n: usize) -> (r: i64)
    ensures
        r == wrapped(n as int),
{
    let wide: u64 = n as u64;
    if wide <= 0x7fff_ffff_ffff_ffff {
        wide as i64
    } else {
        (wide - 0x8000_0000_0000_0000) as i64 + i64::MIN
    }
}

/// What an aggregate function makes of a column.
fn full_table_value(func: AggFunc, c: &Column) -> (r: (Result<ScalarValue, ArborError>, u64))
    requires
        well_typed(c@),
    ensures
        agrees(r.0, full_value(func, c@, r.1)),
{
    let len: usize = c.len();
    let nulls: usize = c.null_count();
    proof {
        lemma_null_count(c@.cells);
        lemma_all_null_count(c@.cells);
    }
    let n: usize = len - nulls;
    match func {
        AggFunc::Count => (Ok(ScalarValue::Int64(length_number(n))), 0),
        AggFunc::Sum => match c.data_type() {
            DataType::Int64 => {
                let s: i64 = match int_sum(c) {
                    Some(v) => v,
                    None => {
                        proof {
                            lemma_null_total(c@.cells);
                        }
                        0
                    },
                };
                (Ok(ScalarValue::Int64(s)), 0)
            },
            DataType::Float64 => match float_column_sum(c) {
                Some(v) => (Ok(ScalarValue::Float64(v)), v),
                None => (Ok(ScalarValue::Float64(0)), 0),
            },
            _ => (Err(ArborError::Execution("SUM type".to_string())), 0),
        },
        AggFunc::Min => match c.data_type() {
            DataType::Int64 => match int_min(c) {
                Some(v) => {
                    proof {
                        lemma_best_is(
                            DataType::Int64,
                            c@.cells,
                            Order::Less,
                            Cell::Scalar(ScalarView::Int64(v)),
                        );
                    }
                    (Ok(ScalarValue::Int64(v)), 0)
                },
                None => {
                    proof {
                        lemma_best(DataType::Int64, c@.cells, Order::Less);
                    }
                    (Ok(ScalarValue::Null), 0)
                },
            },
            DataType::Float64 => match float_min(c) {
                Some(v) => {
                    proof {
                        lemma_best_is(
                            DataType::Float64,
                            c@.cells,
                            Order::Less,
                            Cell::Scalar(ScalarView::Float64(v)),
                        );
                    }
                    (Ok(ScalarValue::Float64(v)), 0)
                },
                None => {
                    proof {
                        lemma_best(DataType::Float64, c@.cells, Order::Less);
                    }
                    (Ok(ScalarValue::Null), 0)
                },
            },
            _ => (Err(ArborError::Execution("MIN type".to_string())), 0),
        },
        AggFunc::Max => match c.data_type() {
            DataType::Int64 => match int_max(c) {
                Some(v) => {
                    proof {
                        lemma_best_is(
                            DataType::Int64,
                            c@.cells,
                            Order::Greater,
                            Cell::Scalar(ScalarView::Int64(v)),
                        );
                    }
                    (Ok(ScalarValue::Int64(v)), 0)
                },
                None => {
                    proof {
                        lemma_best(DataType::Int64, c@.cells, Order::Greater);
                    }
                    (Ok(ScalarValue::Null), 0)
                },
            },
            DataType::Float64 => match float_max(c) {
                Some(v) => {
                    proof {
                        lemma_best_is(
                            DataType::Float64,
                            c@.cells,
                            Order::Greater,
                            Cell::Scalar(ScalarView::Float64(v)),
                        );
                    }
                    (Ok(ScalarValue::Float64(v)), 0)
                },
                None => {
                    proof {
                        lemma_best(DataType::Float64, c@.cells, Order::Greater);
                    }
                    (Ok(ScalarValue::Null), 0)
                },
            },
            _ => (Err(ArborError::Execution("MAX type".to_string())), 0),
        },
        AggFunc::Avg => match c.data_type() {
            DataType::Int64 => {
                let s: i64 = match int_sum(c) {
                    Some(v) => v,
                    None => {
                        proof {
                            lemma_null_total(c@.cells);
                        }
                        0
                    },
                };
                let mean: u64 = if n > 0 {
                    settle(float_over(int_to_float(s), int_to_float(length_number(n))))
                } else {
                    0
                };
                (Ok(ScalarValue::Float64(mean)), 0)
            },
            DataType::Float64 => {
                let s: u64 = match float_column_sum(c) {
                    Some(v) => v,
                    None => 0,
                };
                let mean: u64 = if n > 0 {
                    settle(float_over(s, int_to_float(length_number(n))))
                } else {
                    0
                };
                (Ok(ScalarValue::Float64(mean)), s)
            },
            _ => (Err(ArborError::Execution("AVG type".to_string())), 0),
        },
    }
}

/// The sum of nothing but NULLs is zero.
proof fn lemma_null_total(cells: Seq<Cell>)
    requires
        all_null(cells),
    ensures
        int_total(cells) == 0,
    decreases cells.len(),
{
    if cells.len() > 0 {
        let rest = cells.drop_last();
        assert forall|i: int| 0 <= i < rest.len() implies #[trigger] rest[i] == null_cell() by {
            assert(rest[i] == cells[i]);
        }
        lemma_null_total(rest);
        assert(cells[cells.len() - 1] == null_cell());
    }
}

/// One aggregate of a whole table.
fn full_table_scalar(e: &Expr, all: &Batch) -> (r: (Result<ScalarValue, ArborError>, u64))
    requires
        carried(all@),
    ensures
        agrees(r.0, full_scalar(e@, all@, r.1)),
{
    let func = match agg_func(e) {
        Ok(f) => f,
        Err(x) => return (Err(x), 0),
    };
    let arg = match agg_arg_expr(e) {
        Ok(a) => a,
        Err(x) => return (Err(x), 0),
    };
    match (func, arg) {
        (AggFunc::Count, Expr::Wildcard) => {
            return (Ok(ScalarValue::Int64(length_number(all.num_rows()))), 0);
        },
        _ => {},
    }
    match evaluate_expr(arg, all) {
        Ok(c) => full_table_value(func, &c),
        Err(x) => (Err(x), 0),
    }
}

/// Aggregates a whole table to one row. What the sums of its float columns are is Arrow's choice of
/// an order of addition.
pub fn eval_full_table_agg(all: &Batch, aggr_exprs: &Vec<Expr>, out_schema: &Schema) -> (r: Result<
    Batch,
    ArborError,
>)
    requires
        carried(all@),
    ensures
        exists|totals: Seq<u64>|
            totals.len() == aggr_exprs.len() && #[trigger] agrees(
                r,
                full_batch(views(aggr_exprs@), out_schema@, all@, totals),
            ),
        r matches Ok(b) ==> carried(b@),
{
    let (r, totals) = eval_full_table(all, aggr_exprs, out_schema);
    proof {
        assert(agrees(r, full_batch(views(aggr_exprs@), out_schema@, all@, totals@)));
    }
    r
}

/// Aggregates a whole table to one row, and tells the sums of its float columns.
pub fn eval_full_table(all: &Batch, aggr_exprs: &Vec<Expr>, out_schema: &Schema) -> (r: (
    Result<Batch, ArborError>,
    Vec<u64>,
))
    requires
        carried(all@),
    ensures
        r.1.len() == aggr_exprs.len(),
        agrees(r.0, full_batch(views(aggr_exprs@), out_schema@, all@, r.1@)),
        r.0 matches Ok(b) ==> carried(b@),
{
    let ghost es = views(aggr_exprs@);
    let mut vals: Vec<ScalarValue> = Vec::new();
    let mut totals: Vec<u64> = Vec::new();
    let ghost mut known = true;
    let mut i: usize = 0;
    proof {
        assert(es.take(0) =~= Seq::empty());
        assert(views(vals@) =~= Seq::empty());
    }
    while i < aggr_exprs.len()
        invariant
            i <= aggr_exprs.len(),
            carried(all@),
            es == views(aggr_exprs@),
            vals.len() == i,
            totals.len() == i,
            known ==> full_scalars(es.take(i as int), all@, totals@) == Outcome::Value(
                views(vals@),
            ),
            !known ==> full_scalars(es.take(i as int), all@, totals@) is Open,
        decreases aggr_exprs.len() - i,
    {
        let (s, total) = full_table_scalar(&aggr_exprs[i], all);
        let ghost before = totals@;
        totals.push(total);
        proof {
            lemma_full_scalars_push(es.take(i as int), es[i as int], all@, before, total);
            assert(es.take(i as int).push(es[i as int]) =~= es.take(i + 1));
            assert(totals@ =~= before.push(total));
        }
        match s {
            Ok(v) => {
                proof {
                    if full_scalar(es[i as int], all@, total) is Open {
                        known = false;
                    }
                    lemma_views_push(vals@, v);
                }
                vals.push(v);
            },
            Err(x) => {
                let ghost first = totals@;
                let mut k: usize = i + 1;
                while k < aggr_exprs.len()
                    invariant
                        i < k <= aggr_exprs.len(),
                        totals.len() == k,
                        first.len() == i + 1,
                        totals@.take(i + 1) == first,
                    decreases aggr_exprs.len() - k,
                {
                    totals.push(0);
                    k = k + 1;
                    proof {
                        assert(totals@.take(i + 1) =~= first);
                    }
                }
                proof {
                    lemma_full_scalars_prefix(es, i + 1, all@, totals@);
                }
                return (Err(x), totals);
            },
        }
        i = i + 1;
    }
    proof {
        assert(es.take(i as int) =~= es);
    }
    let r = write_row(vals, out_schema);
    (r, totals)
}

/// How writing one row of scalars comes out.
pub open spec fn written(vals: Seq<ScalarView>, fields: Seq<FieldView>) -> Outcome<BatchView> {
    match output_columns(seq![vals], filled_fields(fields, vals.len()), 0) {
        Outcome::Value(columns) => match assembled(fields, columns, None) {
            Some(x) => Outcome::Value(x),
            None => Outcome::Fault(Fault::Arrow),
        },
        Outcome::Fault(f) => Outcome::Fault(f),
        Outcome::Open => Outcome::Open,
    }
}

/// Writes one row of scalars.
fn write_row(vals: Vec<ScalarValue>, out_schema: &Schema) -> (r: Result<Batch, ArborError>)
    ensures
        agrees(r, written(views(vals@), out_schema@)),
        r matches Ok(b) ==> carried(b@),
{
    let filled: usize = if out_schema.fields.len() <= vals.len() {
        out_schema.fields.len()
    } else {
        vals.len()
    };
    let mut fields: Vec<Field> = Vec::new();
    let mut k: usize = 0;
    while k < filled
        invariant
            k <= filled <= out_schema.fields.len(),
            fields.len() == k,
            forall|j: int| 0 <= j < k ==> (#[trigger] fields[j])@ == out_schema@[j],
        decreases filled - k,
    {
        fields.push(out_schema.fields[k].clone());
        k = k + 1;
    }
    let ghost row = views(vals@);
    let mut rows: Vec<Vec<ScalarValue>> = Vec::new();
    rows.push(vals);
    proof {
        assert(views(fields@) =~= filled_fields(out_schema@, row.len()));
        assert(key_views(rows@).subrange(0, 1) =~= seq![row]);
    }
    let columns = match rows_to_columns(&rows, 0, 1, &fields) {
        Ok(v) => v,
        Err(x) => return Err(x),
    };
    let r = Batch::try_new(out_schema, &columns, None);
    proof {
        if r is Ok {
            let b = r->Ok_0;
            assert forall|i: int| 0 <= i < b@.fields.len() implies carries(
                (#[trigger] b@.fields[i]).data_type,
            ) by {
                assert(views(columns@)[i] == columns[i]@);
            }
        }
    }
    r
}

/// What an aggregate function makes of no rows at all, in a column of this type.
pub open spec fn blank_value(func: AggFunc, t: DataType) -> ScalarView {
    match func {
        AggFunc::Count => ScalarView::Int64(0),
        AggFunc::Sum => if t == DataType::Int64 {
            ScalarView::Int64(0)
        } else {
            ScalarView::Float64(0)
        },
        AggFunc::Avg => ScalarView::Float64(0),
        _ => ScalarView::Null,
    }
}

/// The type of the field at `i`, where there is one.
pub open spec fn type_at(fields: Seq<FieldView>, i: int) -> DataType {
    if i < fields.len() { normal_type(fields[i].data_type) } else { DataType::Null }
}

/// What some aggregates make of no rows at all.
pub open spec fn blank_row(funcs: Seq<AggFunc>, fields: Seq<FieldView>) -> Seq<ScalarView> {
    Seq::new(funcs.len(), |i: int| blank_value(funcs[i], type_at(fields, i)))
}

/// Every expression is an aggregate.
pub open spec fn all_aggregates(es: Seq<ExprView>) -> bool {
    forall|i: int| 0 <= i < es.len() ==> agg_parts(#[trigger] es[i]) is Some
}

/// How aggregating a table without rows to one row comes out.
pub open spec fn blank_batch(es: Seq<ExprView>, fields: Seq<FieldView>) -> Outcome<BatchView> {
    if all_aggregates(es) {
        written(blank_row(agg_funcs(es), fields), fields)
    } else {
        execution_fault("expected aggregate func"@)
    }
}

/// Aggregates a table without rows to one row.
pub fn eval_blank_table_agg(aggr_exprs: &Vec<Expr>, out_schema: &Schema) -> (r: Result<
    Batch,
    ArborError,
>)
    ensures
        agrees(r, blank_batch(views(aggr_exprs@), out_schema@)),
        r matches Ok(b) ==> carried(b@),
{
    let ghost es = views(aggr_exprs@);
    let mut vals: Vec<ScalarValue> = Vec::new();
    let mut i: usize = 0;
    while i < aggr_exprs.len()
        invariant
            i <= aggr_exprs.len(),
            es == views(aggr_exprs@),
            vals.len() == i,
            forall|k: int| 0 <= k < i ==> agg_parts(#[trigger] es[k]) is Some,
            forall|k: int|
                0 <= k < i ==> (#[trigger] vals[k])@ == blank_value(
                    agg_parts(es[k])->Some_0.0,
                    type_at(out_schema@, k),
                ),
        decreases aggr_exprs.len() - i,
    {
        proof {
            assert(es[i as int] == aggr_exprs[i as int]@);
        }
        let func = match agg_func(&aggr_exprs[i]) {
            Ok(f) => f,
            Err(x) => {
                proof {
                    assert(!all_aggregates(es));
                }
                return Err(x);
            },
        };
        let whole: bool = if i < out_schema.fields.len() {
            matches!(out_schema.fields[i].data_type.normalized(), DataType::Int64)
        } else {
            false
        };
        let v = match func {
            AggFunc::Count => ScalarValue::Int64(0),
            AggFunc::Sum => if whole { ScalarValue::Int64(0) } else { ScalarValue::Float64(0) },
            AggFunc::Avg => ScalarValue::Float64(0),
            _ => ScalarValue::Null,
        };
        vals.push(v);
        i = i + 1;
    }
    proof {
        assert(views(vals@) =~= blank_row(agg_funcs(es), out_schema@));
    }
    write_row(vals, out_schema)
}

/// One more aggregate, after others.
proof fn lemma_full_scalars_push(
    es: Seq<ExprView>,
    e: ExprView,
    b: BatchView,
    totals: Seq<u64>,
    total: u64,
)
    requires
        totals.len() == es.len(),
    ensures
        full_scalars(es.push(e), b, totals.push(total)) == (match full_scalars(es, b, totals) {
            Outcome::Value(vals) => match full_scalar(e, b, total) {
                Outcome::Value(s) => Outcome::Value(vals.push(s)),
                Outcome::Fault(f) => Outcome::Fault(f),
                Outcome::Open => Outcome::Open,
            },
            other => other,
        }),
    decreases es.len(),
{
    let more = es.push(e);
    let ts = totals.push(total);
    if es.len() == 0 {
        assert(more.skip(1) =~= Seq::empty());
        assert(full_scalars(more.skip(1), b, ts.skip(1)) == Outcome::Value(
            Seq::<ScalarView>::empty(),
        ));
        assert(more[0] == e);
        assert(ts[0] == total);
        if full_scalar(e, b, total) is Value {
            let s = full_scalar(e, b, total)->Value_0;
            assert(seq![s] + Seq::<ScalarView>::empty() =~= Seq::<ScalarView>::empty().push(s));
        }
    } else {
        assert(more[0] == es[0]);
        assert(ts[0] == totals[0]);
        assert(more.skip(1) =~= es.skip(1).push(e));
        assert(ts.skip(1) =~= totals.skip(1).push(total));
        lemma_full_scalars_push(es.skip(1), e, b, totals.skip(1), total);
        if full_scalar(es[0], b, totals[0]) is Value && full_scalars(es.skip(1), b, totals.skip(1))
            is Value && full_scalar(e, b, total) is Value {
            let s = full_scalar(es[0], b, totals[0])->Value_0;
            let rest = full_scalars(es.skip(1), b, totals.skip(1))->Value_0;
            let t = full_scalar(e, b, total)->Value_0;
            assert(seq![s] + rest.push(t) =~= (seq![s] + rest).push(t));
        }
    }
}

/// What the first aggregates come to, if it is no value, decides.
proof fn lemma_full_scalars_prefix(es: Seq<ExprView>, k: int, b: BatchView, totals: Seq<u64>)
    requires
        0 <= k <= es.len(),
        totals.len() == es.len(),
        !(full_scalars(es.take(k), b, totals.take(k)) is Value),
    ensures
        full_scalars(es, b, totals) == full_scalars(es.take(k), b, totals.take(k)),
    decreases es.len(),
{
    if k > 0 {
        assert(es.take(k)[0] == es[0]);
        assert(totals.take(k)[0] == totals[0]);
        if full_scalar(es[0], b, totals[0]) is Value {
            assert(es.take(k).skip(1) =~= es.skip(1).take(k - 1));
            assert(totals.take(k).skip(1) =~= totals.skip(1).take(k - 1));
            lemma_full_scalars_prefix(es.skip(1), k - 1, b, totals.skip(1));
        }
    }
}

} // verus!
