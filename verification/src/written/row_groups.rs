//! Which row groups of a file a condition keeps.

use vstd::prelude::*;
use crate::error::ErrorView;
use crate::executor::batch::Cell;
use crate::executor::expr_eval::column_at;
use crate::executor::prune::{can_match, highest, lowest, range_meets};
use crate::float::{is_nan, place, total_place};
use crate::order::{lemma_order_reversed, lemma_order_steps, text_order, Order};
use crate::planner::logical_plan::{BinaryOp, ExprView};
use crate::types::{DataType, FieldView, ScalarView};
use crate::written::conditions::law_values_are_ordered;
use crate::written::value_before;

verus! {

/// The comparison holds between two values.
pub open spec fn is_so(op: BinaryOp, a: ScalarView, b: ScalarView) -> bool {
    match op {
        BinaryOp::Eq => a == b,
        BinaryOp::Neq => a != b,
        BinaryOp::Lt => value_before(Cell::Scalar(a), Cell::Scalar(b)),
        BinaryOp::Gt => value_before(Cell::Scalar(b), Cell::Scalar(a)),
        BinaryOp::LtEq => !value_before(Cell::Scalar(b), Cell::Scalar(a)),
        BinaryOp::GtEq => !value_before(Cell::Scalar(a), Cell::Scalar(b)),
        _ => false,
    }
}

/// The type of which a value is.
pub open spec fn type_of_value(s: ScalarView) -> Option<DataType> {
    match s {
        ScalarView::Int64(_) => Some(DataType::Int64),
        ScalarView::Float64(_) => Some(DataType::Float64),
        ScalarView::Utf8(_) => Some(DataType::Utf8),
        ScalarView::Boolean(_) => Some(DataType::Boolean),
        ScalarView::Null => None,
    }
}

/// One value is not above another of its type: floats as numbers, of which zeros are one.
pub open spec fn not_above(a: ScalarView, b: ScalarView) -> bool {
    match (a, b) {
        (ScalarView::Int64(x), ScalarView::Int64(y)) => x <= y,
        (ScalarView::Float64(x), ScalarView::Float64(y)) => !is_nan(x) && !is_nan(y) && place(x)
            <= place(y),
        (ScalarView::Utf8(_), ScalarView::Utf8(_)) => !value_before(Cell::Scalar(b), Cell::Scalar(a)),
        (ScalarView::Boolean(x), ScalarView::Boolean(y)) => x ==> y,
        _ => false,
    }
}

/// The value lies between two others.
pub open spec fn lies_between(s: ScalarView, min: ScalarView, max: ScalarView) -> bool {
    not_above(min, s) && not_above(s, max)
}

/// Bounds meet a constant in a comparison if a value between them does.
proof fn lemma_meets_exactly(min: ScalarView, max: ScalarView, v: ScalarView, op: BinaryOp)
    requires
        op == BinaryOp::Eq || op == BinaryOp::Neq || op == BinaryOp::Lt || op == BinaryOp::LtEq || op
            == BinaryOp::Gt || op == BinaryOp::GtEq,
        not_above(min, max),
        type_of_value(min) == type_of_value(v),
    ensures
        range_meets(min, max, v, op) <==> exists|s: ScalarView| #[trigger]
            lies_between(s, min, max) && is_so(op, s, v),
{
    match (min, max, v) {
        (ScalarView::Int64(_), ScalarView::Int64(_), ScalarView::Int64(_)) => {
            assert(lies_between(min, min, max) && lies_between(max, min, max));
            assert(lies_between(v, min, max) == (not_above(min, v) && not_above(v, max)));
        },
        (ScalarView::Boolean(_), ScalarView::Boolean(_), ScalarView::Boolean(_)) => {
            assert(lies_between(min, min, max) && lies_between(max, min, max));
            assert(lies_between(v, min, max) == (not_above(min, v) && not_above(v, max)));
        },
        (ScalarView::Float64(a), ScalarView::Float64(b), ScalarView::Float64(x)) => {
            let lo = ScalarView::Float64(lowest(a));
            let hi = ScalarView::Float64(highest(b));
            assert(lies_between(lo, min, max) && lies_between(hi, min, max));
            assert(lies_between(v, min, max) == (not_above(min, v) && not_above(v, max)));
            assert forall|s: ScalarView| #[trigger] lies_between(s, min, max) implies s is Float64
                && total_place(lowest(a)) <= total_place(s->Float64_0) <= total_place(highest(b)) by {
            }
        },
        (ScalarView::Utf8(_), ScalarView::Utf8(_), ScalarView::Utf8(_)) => {
            lemma_texts_meet(min, max, v, op);
        },
        _ => {},
    }
}

/// Bounds that are texts meet a text in a comparison if a text between them does.
proof fn lemma_texts_meet(min: ScalarView, max: ScalarView, v: ScalarView, op: BinaryOp)
    requires
        op == BinaryOp::Eq || op == BinaryOp::Neq || op == BinaryOp::Lt || op == BinaryOp::LtEq || op
            == BinaryOp::Gt || op == BinaryOp::GtEq,
        min is Utf8,
        max is Utf8,
        v is Utf8,
        not_above(min, max),
    ensures
        range_meets(min, max, v, op) <==> exists|s: ScalarView| #[trigger]
            lies_between(s, min, max) && is_so(op, s, v),
{
    lemma_text_place(min, min);
    lemma_text_place(max, max);
    lemma_text_place(min, max);
    lemma_text_place(min, v);
    lemma_text_place(v, min);
    lemma_text_place(max, v);
    lemma_text_place(v, max);
    assert(lies_between(min, min, max) && lies_between(max, min, max));
    assert(lies_between(v, min, max) == (not_above(min, v) && not_above(v, max)));
    assert forall|s: ScalarView| #[trigger] lies_between(s, min, max) && is_so(op, s, v) implies range_meets(
        min,
        max,
        v,
        op,
    ) by {
        lemma_text_place(min, s);
        lemma_text_place(s, max);
        lemma_text_place(s, v);
        lemma_text_place(v, s);
        lemma_order_steps(min, s, v);
        lemma_order_reversed(s, max);
        lemma_order_reversed(s, v);
        lemma_order_reversed(v, max);
        if !value_before(Cell::Scalar(s), Cell::Scalar(v)) {
            lemma_order_steps(v, s, max);
        }
    }
}

/// Two texts stand as their order says.
proof fn lemma_text_place(a: ScalarView, b: ScalarView)
    requires
        a is Utf8,
        b is Utf8,
    ensures
        (text_order(a->Utf8_0, b->Utf8_0) == Order::Less) == value_before(
            Cell::Scalar(a),
            Cell::Scalar(b),
        ),
        (text_order(a->Utf8_0, b->Utf8_0) == Order::Greater) == value_before(
            Cell::Scalar(b),
            Cell::Scalar(a),
        ),
        (text_order(a->Utf8_0, b->Utf8_0) == Order::Equal) == (a == b),
{
    law_values_are_ordered(DataType::Utf8, Cell::Scalar(a), Cell::Scalar(b));
}

/// Law: a comparison between a column and a constant keeps a row group exactly if some value between
/// the least and the greatest of the column compares so with the constant.
pub proof fn law_comparison_keeps_row_groups(
    name: Seq<char>,
    relation: Option<Seq<char>>,
    op: BinaryOp,
    v: ScalarView,
    fields: Seq<FieldView>,
    bounds: Seq<Option<(ScalarView, ScalarView)>>,
    i: int,
    min: ScalarView,
    max: ScalarView,
)
    requires
        op == BinaryOp::Eq || op == BinaryOp::Neq || op == BinaryOp::Lt || op == BinaryOp::LtEq || op
            == BinaryOp::Gt || op == BinaryOp::GtEq,
        column_at(fields, name, relation) == Some(i),
        0 <= i < bounds.len(),
        bounds[i] == Some((min, max)),
        not_above(min, max),
        type_of_value(min) == type_of_value(v),
    ensures
        ({
            let c = Box::new(ExprView::Column { name, relation });
            let k = Box::new(ExprView::Literal(v));
            &&& can_match(ExprView::Binary { left: c, op, right: k }, bounds, fields) matches Ok(kept)
                && (kept <==> exists|s: ScalarView| #[trigger]
                lies_between(s, min, max) && is_so(op, s, v))
            &&& can_match(ExprView::Binary { left: k, op, right: c }, bounds, fields) matches Ok(kept)
                && (kept <==> exists|s: ScalarView| #[trigger]
                lies_between(s, min, max) && is_so(op, v, s))
        }),
{
    let turned = crate::executor::prune::flipped(op);
    lemma_meets_exactly(min, max, v, op);
    lemma_meets_exactly(min, max, v, turned);
    assert forall|s: ScalarView| #[trigger] lies_between(s, min, max) implies is_so(op, v, s) == is_so(
        turned,
        s,
        v,
    ) by {
    }
}

/// Law: without bounds of the constant's type, a comparison keeps every row group; so does what is no
/// comparison between a column and a constant.
pub proof fn law_unknown_bounds_keep_row_groups(
    name: Seq<char>,
    relation: Option<Seq<char>>,
    op: BinaryOp,
    v: ScalarView,
    fields: Seq<FieldView>,
    bounds: Seq<Option<(ScalarView, ScalarView)>>,
    i: int,
)
    requires
        op != BinaryOp::And,
        op != BinaryOp::Or,
        column_at(fields, name, relation) == Some(i),
        0 <= i,
        i < bounds.len() ==> match bounds[i] {
            Some(b) => type_of_value(v) is None || type_of_value(b.0) != type_of_value(v)
                || type_of_value(b.1) != type_of_value(v),
            None => true,
        },
    ensures
        can_match(
            ExprView::Binary {
                left: Box::new(ExprView::Column { name, relation }),
                op,
                right: Box::new(ExprView::Literal(v)),
            },
            bounds,
            fields,
        ) == Ok::<bool, ErrorView>(true),
{
}

/// Law: a conjunction keeps a row group exactly if both of its sides keep it, a disjunction exactly
/// if one of them does.
pub proof fn law_connections_keep_row_groups(
    l: ExprView,
    r: ExprView,
    bounds: Seq<Option<(ScalarView, ScalarView)>>,
    fields: Seq<FieldView>,
)
    requires
        can_match(l, bounds, fields) is Ok,
        can_match(r, bounds, fields) is Ok,
    ensures
        ({
            let a = Box::new(l);
            let b = Box::new(r);
            let x = can_match(l, bounds, fields)->Ok_0;
            let y = can_match(r, bounds, fields)->Ok_0;
            &&& can_match(ExprView::Binary { left: a, op: BinaryOp::And, right: b }, bounds, fields)
                == Ok::<bool, ErrorView>(x && y)
            &&& can_match(ExprView::Binary { left: a, op: BinaryOp::Or, right: b }, bounds, fields)
                == Ok::<bool, ErrorView>(x || y)
        }),
{
}

} // verus!
