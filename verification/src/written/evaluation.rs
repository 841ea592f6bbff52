//! What is typed is carried out: the executor gives a column, and not an error.

use vstd::prelude::*;
use crate::executor::batch::kernels::{applied, undefined_at};
use crate::executor::batch::{bool_cell, oversized, sound, BatchView, Cell, Fault, Outcome};
use crate::executor::expr_eval::{evaluated, literal_column};
use crate::executor::filter_exec::kept_rows;
use crate::executor::join::join_outcome;
use crate::executor::scan::scan_test;
use crate::executor::Stream;
use crate::optimizer::constant_folding::int_defined;
use crate::parser::ast::SqlView;
use crate::planner::expressions::{convert, plan_op};
use crate::planner::logical_plan::{ExprView, JoinType};
use crate::semantics::execution::{batch_rows, lemma_evaluated, row_of};
use crate::semantics::holds;
use crate::types::{DataType, FieldView, ScalarView};
use crate::written::conditions::{
    law_expressions_have_their_value, lemma_named_column, lemma_quotient, lemma_written_type,
};
use crate::written::{computes, constant, divides, int_computed, row_fits, type_of, value_of};

verus! {

/// Every integer that the expression computes in the row is one of 64 bits.
pub open spec fn stays_within(e: SqlView, fields: Seq<FieldView>, row: Seq<Cell>) -> bool
    decreases e,
{
    match e {
        SqlView::Binary { left, op, right } => {
            &&& stays_within(*left, fields, row)
            &&& stays_within(*right, fields, row)
            &&& computes(op) ==> match (
                value_of(*left, fields, row),
                value_of(*right, fields, row),
            ) {
                (Cell::Scalar(ScalarView::Int64(x)), Cell::Scalar(ScalarView::Int64(y))) => i64::MIN
                    <= int_computed(op, x as int, y as int) <= i64::MAX,
                _ => true,
            }
        },
        SqlView::Nested(inner) => stays_within(*inner, fields, row),
        _ => true,
    }
}

/// No text that the expression writes is too large for a column of so many rows.
pub open spec fn fills(e: SqlView, rows: nat) -> bool
    decreases e,
{
    match e {
        SqlView::Value(v) => constant(v) is Utf8 ==> !oversized(
            DataType::Utf8,
            literal_column(constant(v), rows).cells,
        ),
        SqlView::Binary { left, right, .. } => fills(*left, rows) && fills(*right, rows),
        SqlView::Nested(inner) => fills(*inner, rows),
        _ => true,
    }
}

/// The rows of a sound batch fit its fields.
proof fn lemma_batch_fits(b: BatchView, i: int)
    requires
        sound(b),
        0 <= i < b.rows,
    ensures
        row_fits(b.fields, batch_rows(b)[i]),
{
    let row = batch_rows(b)[i];
    assert(row == row_of(b, i));
    assert forall|c: int| 0 <= c < row.len() implies crate::executor::batch::fits(
        b.fields[c].data_type,
        #[trigger] row[c],
    ) by {
        assert(b.columns[c].cells.len() == b.rows);
        assert(row[c] == b.columns[c].cells[i]);
    }
}

/// Law: an expression that has a type is evaluated in every batch whose rows give it a value: no
/// integer is divided by zero, none leaves 64 bits, and no text is too large.
pub proof fn law_typed_expressions_are_evaluated(e: SqlView, b: BatchView)
    requires
        sound(b),
        convert(e, b.fields) is Ok,
        type_of(e, b.fields) is Some,
        fills(e, b.rows),
        forall|i: int|
            0 <= i < b.rows ==> divides(e, b.fields, #[trigger] batch_rows(b)[i]) && stays_within(
                e,
                b.fields,
                batch_rows(b)[i],
            ),
    ensures
        evaluated(convert(e, b.fields)->Ok_0, b) matches Outcome::Value(c) && c.data_type == type_of(
            e,
            b.fields,
        )->Some_0 && c.cells.len() == b.rows,
    decreases e,
{
    let f = b.fields;
    let rows = batch_rows(b);
    let x = convert(e, f)->Ok_0;
    lemma_written_type(e, f, f);
    lemma_evaluated(x, b);
    match e {
        SqlView::Identifier(_) => { lemma_named_column(e, f, f); },
        SqlView::Compound(_) => { lemma_named_column(e, f, f); },
        SqlView::Value(_) => {},
        SqlView::Nested(inner) => {
            assert forall|i: int| 0 <= i < b.rows implies divides(*inner, f, #[trigger] rows[i])
                && stays_within(*inner, f, rows[i]) by {
                assert(divides(e, f, rows[i]));
            }
            law_typed_expressions_are_evaluated(*inner, b);
        },
        SqlView::Binary { left, op, right } => {
            assert forall|i: int| 0 <= i < b.rows implies divides(*left, f, #[trigger] rows[i])
                && stays_within(*left, f, rows[i]) && divides(*right, f, rows[i]) && stays_within(
                *right,
                f,
                rows[i],
            ) by {
                assert(divides(e, f, rows[i]));
            }
            law_typed_expressions_are_evaluated(*left, b);
            law_typed_expressions_are_evaluated(*right, b);
            let lx = convert(*left, f)->Ok_0;
            let rx = convert(*right, f)->Ok_0;
            lemma_evaluated(lx, b);
            lemma_evaluated(rx, b);
            let l = evaluated(lx, b)->Value_0;
            let r = evaluated(rx, b)->Value_0;
            let o = plan_op(op)->Ok_0;
            assert(evaluated(x, b) == applied(o, l, r));
            assert forall|i: int| 0 <= i < l.cells.len() implies !undefined_at(
                o,
                #[trigger] l.cells[i],
                r.cells[i],
            ) || !computes(op) by {
                assert(divides(e, f, rows[i]) && stays_within(e, f, rows[i]));
                lemma_batch_fits(b, i);
                law_expressions_have_their_value(*left, f, f, rows[i]);
                law_expressions_have_their_value(*right, f, f, rows[i]);
                assert(l.cells[i] == value_of(*left, f, rows[i]));
                assert(r.cells[i] == value_of(*right, f, rows[i]));
                if let (Cell::Scalar(ScalarView::Int64(p)), Cell::Scalar(ScalarView::Int64(q))) = (
                    l.cells[i],
                    r.cells[i],
                ) {
                    if q != 0 {
                        lemma_quotient(p as int, q as int);
                    }
                    if computes(op) {
                        assert(int_defined(o, p, q));
                    }
                }
            }
        },
        _ => {},
    }
}

/// Law: a condition that has a type and a value in every row of a batch is carried out on it.
pub proof fn law_typed_conditions_are_carried_out(e: SqlView, b: BatchView)
    requires
        sound(b),
        convert(e, b.fields) is Ok,
        type_of(e, b.fields) == Some(DataType::Boolean),
        fills(e, b.rows),
        forall|i: int|
            0 <= i < b.rows ==> divides(e, b.fields, #[trigger] batch_rows(b)[i]) && stays_within(
                e,
                b.fields,
                batch_rows(b)[i],
            ),
    ensures
        kept_rows(convert(e, b.fields)->Ok_0, b) is Value,
{
    law_typed_expressions_are_evaluated(e, b);
}

/// Law: the test of a file's rows is TRUE exactly in the rows in which the predicate holds.
pub proof fn law_scan_test_marks_rows(predicate: ExprView, b: BatchView, i: int)
    requires
        sound(b),
        0 <= i < b.rows,
    ensures
        scan_test(predicate, b) matches Outcome::Value(mask) ==> mask.cells.len() == b.rows && (
        mask.cells[i] == bool_cell(true) <==> holds(predicate, b.fields, row_of(b, i))),
{
    lemma_evaluated(predicate, b);
    assert(batch_rows(b)[i] == row_of(b, i));
}

/// Law: a LEFT join is refused, whatever its inputs.
pub proof fn law_left_joins_are_refused(
    left: Stream,
    right: Stream,
    on: Seq<(ExprView, ExprView)>,
    fields: Seq<FieldView>,
)
    ensures
        join_outcome(left, right, on, JoinType::Left, fields) matches Outcome::Fault(Fault::Said(_)),
{
}

} // verus!
