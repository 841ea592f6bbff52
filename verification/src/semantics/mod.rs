//! What a logical plan means: the rows that it stands for, whatever way they are computed.

pub mod blocking;
pub mod effects;
pub mod execution;
pub mod folding;
pub mod laws;
pub mod operators;
pub mod planned;
pub mod planning;
pub mod pruning;
pub mod pushdown;
pub mod row_groups;
pub mod sensible;
pub mod texts;
pub mod values;
pub mod where_below;

use vstd::prelude::*;
use crate::executor::aggregate::{agg_funcs, agg_parts, gathered, group_rows, output_cell};
use crate::executor::batch::ordering::is_permutation;
use crate::executor::batch::kernels::{
    carried_cell, carried_type, compared_cell, connected_cell, sort_order, truth_in, SortKeyView,
};
use crate::executor::batch::{
    bool_cell, is_basic, normal_fields, normal_type, null_cell, Cell, ColumnView, Outcome,
};
use crate::executor::expr_eval::{column_at, literal_column, literal_type};
use crate::executor::full_table::{blank_row, full_value};
use crate::executor::sums::Sums;
use crate::executor::scan::scan_fields;
use crate::float::{float_of_int, settled};
use crate::optimizer::constant_folding::{float_result, int_result, is_arithmetic};
use crate::optimizer::projection_pruning::{left_keys, right_keys};
use crate::planner::logical_plan::{AggFunc, BinaryOp, ExprView, JoinType, PlanView, SortView};
use crate::types::{DataType, FieldView, ScalarView};

verus! {

/// The type of what an arithmetic operator makes of values of these types.
pub open spec fn arithmetic_type(op: BinaryOp, ta: DataType, tb: DataType) -> DataType {
    if !is_basic(ta) || !is_basic(tb) {
        carried_type(op, ta, tb)
    } else if tb == DataType::Float64 {
        DataType::Float64
    } else {
        ta
    }
}

/// The type of an expression over rows with these fields.
pub open spec fn expr_type(e: ExprView, fields: Seq<FieldView>) -> DataType
    decreases e,
{
    match e {
        ExprView::Column { name, relation } => match column_at(fields, name, relation) {
            Some(i) => fields[i].data_type,
            None => DataType::Null,
        },
        ExprView::Literal(s) => literal_type(s),
        ExprView::Binary { left, op, right } => if is_arithmetic(op) {
            arithmetic_type(op, expr_type(*left, fields), expr_type(*right, fields))
        } else {
            DataType::Boolean
        },
        ExprView::Aggregate { .. } => DataType::Null,
        ExprView::Alias { expr, .. } => expr_type(*expr, fields),
        ExprView::Wildcard => DataType::Null,
    }
}

/// What an arithmetic operator makes of two values.
pub open spec fn arithmetic_value(op: BinaryOp, a: Cell, b: Cell) -> Cell {
    match (a, b) {
        (Cell::Scalar(ScalarView::Int64(x)), Cell::Scalar(ScalarView::Int64(y))) => Cell::Scalar(
            ScalarView::Int64(int_result(op, x as int, y as int) as i64),
        ),
        (Cell::Scalar(ScalarView::Float64(x)), Cell::Scalar(ScalarView::Float64(y))) => Cell::Scalar(
            ScalarView::Float64(settled(float_result(op, x, y))),
        ),
        (Cell::Scalar(ScalarView::Int64(x)), Cell::Scalar(ScalarView::Float64(y))) => Cell::Scalar(
            ScalarView::Float64(settled(float_result(op, float_of_int(x), y))),
        ),
        (Cell::Scalar(ScalarView::Float64(x)), Cell::Scalar(ScalarView::Int64(y))) => Cell::Scalar(
            ScalarView::Float64(settled(float_result(op, x, float_of_int(y)))),
        ),
        _ => null_cell(),
    }
}

/// What comparing two values gives; values of different types are not equal.
pub open spec fn comparison_value(op: BinaryOp, ta: DataType, a: Cell, tb: DataType, b: Cell) -> Cell {
    if ta == tb {
        compared_cell(op, a, b)
    } else if op == BinaryOp::Eq {
        bool_cell(false)
    } else if op == BinaryOp::Neq {
        bool_cell(true)
    } else {
        null_cell()
    }
}

/// What an operator makes of two values of the given types.
pub open spec fn operator_value(op: BinaryOp, ta: DataType, a: Cell, tb: DataType, b: Cell) -> Cell {
    if op == BinaryOp::And || op == BinaryOp::Or {
        connected_cell(op, truth_in(ta, a), truth_in(tb, b))
    } else if is_arithmetic(op) {
        if !is_basic(ta) || !is_basic(tb) {
            carried_cell(op, ta, a, tb, b)
        } else {
            arithmetic_value(op, a, b)
        }
    } else {
        comparison_value(op, ta, a, tb, b)
    }
}

/// The value of an expression in a row.
pub open spec fn value_in(e: ExprView, fields: Seq<FieldView>, row: Seq<Cell>) -> Cell
    decreases e,
{
    match e {
        ExprView::Column { name, relation } => match column_at(fields, name, relation) {
            Some(i) => row[i],
            None => null_cell(),
        },
        ExprView::Literal(s) => Cell::Scalar(s),
        ExprView::Binary { left, op, right } => operator_value(
            op,
            expr_type(*left, fields),
            value_in(*left, fields, row),
            expr_type(*right, fields),
            value_in(*right, fields, row),
        ),
        ExprView::Aggregate { .. } => null_cell(),
        ExprView::Alias { expr, .. } => value_in(*expr, fields, row),
        ExprView::Wildcard => null_cell(),
    }
}

/// The predicate is TRUE in the row.
pub open spec fn holds(e: ExprView, fields: Seq<FieldView>, row: Seq<Cell>) -> bool {
    truth_in(expr_type(e, fields), value_in(e, fields, row)) == bool_cell(true)
}

/// The rows in which the predicate is TRUE, in order.
pub open spec fn rows_where(
    e: ExprView,
    fields: Seq<FieldView>,
    rows: Seq<Seq<Cell>>,
) -> Seq<Seq<Cell>>
    decreases rows.len(),
{
    if rows.len() == 0 {
        Seq::empty()
    } else {
        let rest = rows_where(e, fields, rows.drop_last());
        if holds(e, fields, rows.last()) { rest.push(rows.last()) } else { rest }
    }
}

/// The values of an expression in every row.
pub open spec fn value_column(
    e: ExprView,
    fields: Seq<FieldView>,
    rows: Seq<Seq<Cell>>,
) -> ColumnView {
    ColumnView {
        data_type: expr_type(e, fields),
        cells: Seq::new(rows.len(), |i: int| value_in(e, fields, rows[i])),
    }
}

/// The values of some expressions in every row.
pub open spec fn value_columns(
    es: Seq<ExprView>,
    fields: Seq<FieldView>,
    rows: Seq<Seq<Cell>>,
) -> Seq<ColumnView> {
    Seq::new(es.len(), |i: int| value_column(es[i], fields, rows))
}

/// A row of the values of some expressions.
pub open spec fn projected_row(
    es: Seq<ExprView>,
    fields: Seq<FieldView>,
    row: Seq<Cell>,
) -> Seq<Cell> {
    Seq::new(es.len(), |i: int| value_in(es[i], fields, row))
}

/// Every row, projected.
pub open spec fn projected_rows(
    es: Seq<ExprView>,
    fields: Seq<FieldView>,
    rows: Seq<Seq<Cell>>,
) -> Seq<Seq<Cell>> {
    Seq::new(rows.len(), |i: int| projected_row(es, fields, rows[i]))
}

/// The key of a row: the values of some expressions.
pub open spec fn row_key(es: Seq<ExprView>, fields: Seq<FieldView>, row: Seq<Cell>) -> Seq<Cell> {
    projected_row(es, fields, row)
}

/// A left row beside every right row that has its key.
pub open spec fn matches_of(
    left: Seq<Cell>,
    key: Seq<Cell>,
    right_keys: Seq<ExprView>,
    fields: Seq<FieldView>,
    rows: Seq<Seq<Cell>>,
) -> Seq<Seq<Cell>>
    decreases rows.len(),
{
    if rows.len() == 0 {
        Seq::empty()
    } else {
        let rest = matches_of(left, key, right_keys, fields, rows.drop_last());
        if row_key(right_keys, fields, rows.last()) == key {
            rest.push(left + rows.last())
        } else {
            rest
        }
    }
}

/// Every left row beside every right row that has its key.
pub open spec fn join_rows(
    lkeys: Seq<ExprView>,
    lfields: Seq<FieldView>,
    lrows: Seq<Seq<Cell>>,
    rkeys: Seq<ExprView>,
    rfields: Seq<FieldView>,
    rrows: Seq<Seq<Cell>>,
) -> Seq<Seq<Cell>>
    decreases lrows.len(),
{
    if lrows.len() == 0 {
        Seq::empty()
    } else {
        join_rows(lkeys, lfields, lrows.drop_last(), rkeys, rfields, rrows) + matches_of(
            lrows.last(),
            row_key(lkeys, lfields, lrows.last()),
            rkeys,
            rfields,
            rrows,
        )
    }
}

/// The rows found for a left row, or the left row beside NULLs where none was found.
pub open spec fn padded(left: Seq<Cell>, found: Seq<Seq<Cell>>, width: nat) -> Seq<Seq<Cell>> {
    if found.len() == 0 { seq![left + Seq::new(width, |i: int| null_cell())] } else { found }
}

/// Every left row beside every right row that has its key, or beside `width` NULLs.
pub open spec fn outer_rows(
    lkeys: Seq<ExprView>,
    lfields: Seq<FieldView>,
    lrows: Seq<Seq<Cell>>,
    rkeys: Seq<ExprView>,
    rfields: Seq<FieldView>,
    rrows: Seq<Seq<Cell>>,
    width: nat,
) -> Seq<Seq<Cell>>
    decreases lrows.len(),
{
    if lrows.len() == 0 {
        Seq::empty()
    } else {
        let l = lrows.last();
        let found = matches_of(l, row_key(lkeys, lfields, l), rkeys, rfields, rrows);
        outer_rows(lkeys, lfields, lrows.drop_last(), rkeys, rfields, rrows, width) + padded(
            l,
            found,
            width,
        )
    }
}

/// The sort keys of some rows.
pub open spec fn sort_columns(
    es: Seq<SortView>,
    fields: Seq<FieldView>,
    rows: Seq<Seq<Cell>>,
) -> Seq<SortKeyView> {
    Seq::new(
        es.len(),
        |i: int|
            SortKeyView { column: value_column(es[i].expr, fields, rows), descending: !es[i].asc },
    )
}

/// Some rows in the given order.
pub open spec fn rows_at(rows: Seq<Seq<Cell>>, order: Seq<usize>) -> Seq<Seq<Cell>> {
    Seq::new(order.len(), |i: int| rows[order[i] as int])
}

/// The argument of an aggregate in every row; COUNT(*) counts ones.
pub open spec fn argument_column(
    e: ExprView,
    fields: Seq<FieldView>,
    rows: Seq<Seq<Cell>>,
) -> ColumnView {
    match agg_parts(e) {
        None => literal_column(ScalarView::Null, rows.len()),
        Some(p) => if p.0 == AggFunc::Count && p.1 == ExprView::Wildcard {
            literal_column(ScalarView::Int64(1), rows.len())
        } else {
            value_column(p.1, fields, rows)
        },
    }
}

/// The arguments of some aggregates in every row.
pub open spec fn argument_columns(
    es: Seq<ExprView>,
    fields: Seq<FieldView>,
    rows: Seq<Seq<Cell>>,
) -> Seq<ColumnView> {
    Seq::new(es.len(), |i: int| argument_column(es[i], fields, rows))
}

/// Scalars as a row of the given fields.
pub open spec fn output_row(vals: Seq<ScalarView>, schema: Seq<FieldView>) -> Seq<Cell> {
    Seq::new(schema.len(), |j: int| output_cell(vals[j], normal_type(schema[j].data_type)))
}

/// The rows of a grouped aggregation, from its key and argument columns.
pub open spec fn grouped_rows(
    keys: Seq<ColumnView>,
    args: Seq<ColumnView>,
    funcs: Seq<AggFunc>,
    schema: Seq<FieldView>,
    n: nat,
) -> Seq<Seq<Cell>> {
    match gathered(keys, args, funcs, n) {
        Outcome::Value(g) => Seq::new(
            group_rows(g).len(),
            |i: int| output_row(group_rows(g)[i], schema),
        ),
        _ => Seq::empty(),
    }
}

/// The value of an aggregate over a whole column; `guess` is the sum of a float column, where it is
/// one.
pub open spec fn total_value(func: AggFunc, c: ColumnView, guess: u64) -> ScalarView {
    match full_value(func, c, guess) {
        Outcome::Value(s) => s,
        _ => ScalarView::Null,
    }
}

/// The row of an aggregation of a whole table, from its argument columns and their sums.
pub open spec fn total_row(
    funcs: Seq<AggFunc>,
    args: Seq<ColumnView>,
    schema: Seq<FieldView>,
    totals: Seq<u64>,
) -> Seq<Cell> {
    output_row(Seq::new(funcs.len(), |i: int| total_value(funcs[i], args[i], totals[i])), schema)
}

/// The rows of an aggregation. Without groups there is one row, even of no rows.
pub open spec fn aggregate_rows(
    group_by: Seq<ExprView>,
    aggrs: Seq<ExprView>,
    schema: Seq<FieldView>,
    fields: Seq<FieldView>,
    rows: Seq<Seq<Cell>>,
    totals: Seq<u64>,
) -> Seq<Seq<Cell>> {
    let args = argument_columns(aggrs, fields, rows);
    let funcs = agg_funcs(aggrs);
    if rows.len() == 0 && group_by.len() > 0 {
        Seq::empty()
    } else if rows.len() == 0 {
        seq![output_row(blank_row(funcs, schema), schema)]
    } else if group_by.len() > 0 {
        grouped_rows(value_columns(group_by, fields, rows), args, funcs, schema, rows.len())
    } else {
        seq![total_row(funcs, args, schema, totals)]
    }
}

/// The cells at some indices; an index beyond the width is skipped.
pub open spec fn cells_at(row: Seq<Cell>, width: nat, idxs: Seq<usize>) -> Seq<Cell>
    decreases idxs.len(),
{
    if idxs.len() == 0 {
        Seq::empty()
    } else {
        let rest = cells_at(row, width, idxs.drop_last());
        if idxs.last() < width { rest.push(row[idxs.last() as int]) } else { rest }
    }
}

/// A table row, cut down to the columns of a scan.
pub open spec fn scanned_row(row: Seq<Cell>, width: nat, projection: Option<Seq<usize>>) -> Seq<
    Cell,
> {
    match projection {
        None => row,
        Some(idxs) => cells_at(row, width, idxs),
    }
}

/// The fields of the rows that a plan means, with the types that its expressions have.
pub open spec fn fields_of(p: PlanView) -> Seq<FieldView>
    decreases p,
{
    match p {
        PlanView::Scan { schema, projection, .. } => normal_fields(
            scan_fields(schema, projection),
        ),
        PlanView::Filter { input, .. } => fields_of(*input),
        PlanView::Projection { exprs, schema, input } => Seq::new(
            schema.len(),
            |i: int|
                FieldView {
                    name: schema[i].name,
                    data_type: if i < exprs.len() {
                        expr_type(exprs[i], fields_of(*input))
                    } else {
                        schema[i].data_type
                    },
                },
        ),
        PlanView::Aggregate { schema, .. } => normal_fields(schema),
        PlanView::Sort { input, .. } => fields_of(*input),
        PlanView::Join { left, right, .. } => fields_of(*left) + fields_of(*right),
        PlanView::Limit { input, .. } => fields_of(*input),
        PlanView::Empty { schema } => schema,
    }
}

/// The first `n` rows.
pub open spec fn first_of(rows: Seq<Seq<Cell>>, n: nat) -> Seq<Seq<Cell>> {
    if rows.len() <= n { rows } else { rows.take(n as int) }
}

/// The rows in sorted order.
pub open spec fn sorted_of(
    es: Seq<SortView>,
    fields: Seq<FieldView>,
    rows: Seq<Seq<Cell>>,
) -> Seq<Seq<Cell>> {
    let order = sort_order(sort_columns(es, fields, rows));
    if rows.len() > 0 && is_permutation(order, rows.len()) { rows_at(rows, order) } else { rows }
}

/// The rows that a plan means, over the given tables, `o` being how sums of floats come out.
pub open spec fn meaning(p: PlanView, tables: Map<Seq<char>, Seq<Seq<Cell>>>, o: Sums) -> Seq<
    Seq<Cell>,
>
    decreases p,
{
    match p {
        PlanView::Scan { table, schema, projection } => Seq::new(
            tables[table].len(),
            |i: int| scanned_row(tables[table][i], schema.len(), projection),
        ),
        PlanView::Filter { predicate, input } => rows_where(
            predicate,
            fields_of(*input),
            meaning(*input, tables, o),
        ),
        PlanView::Projection { exprs, schema, input } => projected_rows(
            if exprs.len() <= schema.len() { exprs } else { exprs.take(schema.len() as int) },
            fields_of(*input),
            meaning(*input, tables, o),
        ),
        PlanView::Aggregate { group_by, aggr_exprs, schema, input } => aggregate_rows(
            group_by,
            aggr_exprs,
            schema,
            fields_of(*input),
            meaning(*input, tables, o.first()),
            o.totals(aggr_exprs.len()),
        ),
        PlanView::Sort { exprs, input } => sorted_of(
            exprs,
            fields_of(*input),
            meaning(*input, tables, o),
        ),
        PlanView::Join { left, right, on, join_type, .. } => {
            let lkeys = left_keys(on);
            let rkeys = right_keys(on);
            let lrows = meaning(*left, tables, o.first());
            let rrows = meaning(*right, tables, o.second());
            match join_type {
                JoinType::Inner => join_rows(
                    lkeys,
                    fields_of(*left),
                    lrows,
                    rkeys,
                    fields_of(*right),
                    rrows,
                ),
                JoinType::Left => outer_rows(
                    lkeys,
                    fields_of(*left),
                    lrows,
                    rkeys,
                    fields_of(*right),
                    rrows,
                    right.schema().len(),
                ),
            }
        },
        PlanView::Limit { n, input } => first_of(meaning(*input, tables, o), n as nat),
        PlanView::Empty { .. } => Seq::empty(),
    }
}

} // verus!
