//! Row-group pruning drops no row that a predicate selects.

use vstd::prelude::*;
use parquet::file::metadata::ParquetMetaData;
use crate::error::ErrorView;
use crate::executor::batch::kernels::{connected_cell, order_meets, truth_in, value_order};
use crate::executor::batch::{fits, Cell};
use crate::executor::expr_eval::{column_at, literal_type};
use crate::executor::prune::{
    bounds_meet, can_match, column_test, flipped, group_bounds, group_count, groups_kept,
    is_comparison, range_meets, same_kind,
};
use crate::executor::scan::{ascending, file_expr};
use crate::order::{
    lemma_order_reversed, lemma_order_steps, lemma_text_order, reversed, scalar_order, Order,
};
use crate::planner::logical_plan::{key_of, BinaryOp, ExprView};
use crate::semantics::values::lemma_holds_and;
use crate::semantics::{expr_type, holds, value_in};
use crate::types::{lemma_position, lemma_position_is, names, FieldView, ScalarView};

verus! {

/// Law: exchanging the sides of a comparison twice changes nothing.
pub proof fn law_flip_twice(op: BinaryOp)
    ensures
        flipped(flipped(op)) == op,
{
}

/// Law: a comparison with its sides exchanged holds where the comparison holds.
pub proof fn law_flip_exchanges(op: BinaryOp, o: Order)
    ensures
        order_meets(flipped(op), reversed(o)) == order_meets(op, o),
{
}

/// The value lies between the bounds; NULL lies between any.
pub open spec fn within(c: Cell, bounds: Option<(ScalarView, ScalarView)>) -> bool {
    match bounds {
        None => true,
        Some(b) => match c {
            Cell::Scalar(s) => s == ScalarView::Null || {
                &&& scalar_order(b.0, s) == Some(Order::Less) || scalar_order(b.0, s) == Some(
                    Order::Equal,
                )
                &&& scalar_order(s, b.1) == Some(Order::Less) || scalar_order(s, b.1) == Some(
                    Order::Equal,
                )
            },
            Cell::Opaque(_) => false,
        },
    }
}

/// The bounds are values of the column's type.
pub open spec fn bounds_fit(f: FieldView, bounds: Option<(ScalarView, ScalarView)>) -> bool {
    match bounds {
        None => true,
        Some(b) => b.0 != ScalarView::Null && b.1 != ScalarView::Null && fits(
            f.data_type,
            Cell::Scalar(b.0),
        ) && fits(f.data_type, Cell::Scalar(b.1)),
    }
}

/// Of every column that the predicate compares with a constant, the bounds are true: they and the
/// row's cell are of the column's type, and the cell lies between them.
pub open spec fn bounds_hold(
    e: ExprView,
    fields: Seq<FieldView>,
    row: Seq<Cell>,
    bounds: Seq<Option<(ScalarView, ScalarView)>>,
) -> bool
    decreases e,
{
    match e {
        ExprView::Alias { expr, .. } => bounds_hold(*expr, fields, row, bounds),
        ExprView::Binary { left, op, right } => if op == BinaryOp::And || op == BinaryOp::Or {
            bounds_hold(*left, fields, row, bounds) && bounds_hold(*right, fields, row, bounds)
        } else {
            match column_test(e, fields) {
                Ok(Some(t)) => t.0 < bounds.len() ==> {
                    &&& fits(fields[t.0].data_type, row[t.0])
                    &&& bounds_fit(fields[t.0], bounds[t.0])
                    &&& within(row[t.0], bounds[t.0])
                },
                _ => true,
            }
        },
        _ => true,
    }
}

/// A value between bounds that compares so with a constant lies where the bounds can meet it.
proof fn lemma_range_meets(
    min: ScalarView,
    max: ScalarView,
    s: ScalarView,
    v: ScalarView,
    op: BinaryOp,
)
    requires
        scalar_order(min, s) == Some(Order::Less) || scalar_order(min, s) == Some(Order::Equal),
        scalar_order(s, max) == Some(Order::Less) || scalar_order(s, max) == Some(Order::Equal),
        is_comparison(op),
        value_order(Cell::Scalar(s), Cell::Scalar(v)) matches Some(o) && order_meets(op, o),
    ensures
        range_meets(min, max, v, op),
{
    match (min, max, v) {
        (ScalarView::Float64(_), ScalarView::Float64(_), ScalarView::Float64(_)) => {},
        _ => {
            assert(scalar_order(s, v) == value_order(Cell::Scalar(s), Cell::Scalar(v)));
            lemma_order_steps(min, s, v);
            lemma_order_reversed(s, max);
            lemma_order_reversed(s, v);
            lemma_order_reversed(v, max);
            lemma_order_reversed(max, v);
            if scalar_order(v, s) != Some(Order::Greater) {
                lemma_order_steps(v, s, max);
            }
            lemma_order_steps(min, s, max);
            if op == BinaryOp::Neq && scalar_order(min, max) == Some(Order::Equal) && scalar_order(
                min,
                v,
            ) == Some(Order::Equal) {
                lemma_order_reversed(min, max);
                lemma_order_steps(max, min, v);
            }
        },
    }
}

/// Exchanging two values reverses their order.
proof fn lemma_value_reversed(a: ScalarView, b: ScalarView)
    ensures
        match (value_order(Cell::Scalar(a), Cell::Scalar(b)), value_order(
            Cell::Scalar(b),
            Cell::Scalar(a),
        )) {
            (Some(x), Some(y)) => y == reversed(x),
            (None, None) => true,
            _ => false,
        },
{
    match (a, b) {
        (ScalarView::Utf8(x), ScalarView::Utf8(y)) => {
            lemma_text_order(x, y);
        },
        _ => {},
    }
}

/// A comparison between a column and a constant that holds is one that the bounds can meet.
proof fn lemma_test_meets(
    e: ExprView,
    fields: Seq<FieldView>,
    row: Seq<Cell>,
    bounds: Seq<Option<(ScalarView, ScalarView)>>,
)
    requires
        !(e is Alias),
        bounds_hold(e, fields, row, bounds),
        holds(e, fields, row),
        column_test(e, fields) matches Ok(Some(t)) && t.0 < bounds.len(),
    ensures
        column_test(e, fields) matches Ok(Some(t)) && bounds_meet(bounds[t.0], t.1, t.2),
{
    reveal_with_fuel(value_in, 2);
    reveal_with_fuel(expr_type, 2);
    match e {
        ExprView::Binary { left, op, right } => {
            match column_test(e, fields) {
                Ok(Some(t)) => {
                    let i = t.0;
                    match (*left, *right) {
                        (ExprView::Column { name, relation }, ExprView::Literal(_)) => {
                            lemma_position(names(fields), key_of(name, relation));
                            lemma_position(names(fields), name);
                        },
                        (ExprView::Literal(_), ExprView::Column { name, relation }) => {
                            lemma_position(names(fields), key_of(name, relation));
                            lemma_position(names(fields), name);
                        },
                        _ => {},
                    }
                    match bounds[i] {
                        Some(b) => {
                            if same_kind(b.0, t.2) && same_kind(b.1, t.2) {
                                match row[i] {
                                    Cell::Scalar(s) => {
                                        if s != ScalarView::Null {
                                            lemma_value_reversed(s, t.2);
                                            assert(fields[i].data_type == literal_type(t.2));
                                            lemma_range_meets(b.0, b.1, s, t.2, t.1);
                                        }
                                    },
                                    _ => {},
                                }
                            }
                        },
                        None => {},
                    }
                },
                _ => {},
            }
        },
        _ => {},
    }
}

/// Law: row-group pruning is conservative. In no row that a row group's bounds speak of does the
/// predicate hold, if the row group is dropped.
pub proof fn law_pruning_is_conservative(
    e: ExprView,
    fields: Seq<FieldView>,
    bounds: Seq<Option<(ScalarView, ScalarView)>>,
    row: Seq<Cell>,
)
    requires
        bounds_hold(e, fields, row, bounds),
        can_match(e, bounds, fields) == Ok::<bool, ErrorView>(false),
    ensures
        !holds(e, fields, row),
    decreases e,
{
    match e {
        ExprView::Alias { expr, .. } => {
            law_pruning_is_conservative(*expr, fields, bounds, row);
        },
        ExprView::Binary { left, op: BinaryOp::And, right } => {
            lemma_holds_and(*left, *right, fields, row);
            if can_match(*left, bounds, fields) == Ok::<bool, ErrorView>(false) {
                law_pruning_is_conservative(*left, fields, bounds, row);
            } else {
                law_pruning_is_conservative(*right, fields, bounds, row);
            }
        },
        ExprView::Binary { left, op: BinaryOp::Or, right } => {
            law_pruning_is_conservative(*left, fields, bounds, row);
            law_pruning_is_conservative(*right, fields, bounds, row);
            let a = truth_in(expr_type(*left, fields), value_in(*left, fields, row));
            let b = truth_in(expr_type(*right, fields), value_in(*right, fields, row));
            assert(value_in(e, fields, row) == connected_cell(BinaryOp::Or, a, b));
        },
        _ => {
            if holds(e, fields, row) {
                lemma_test_meets(e, fields, row, bounds);
            }
        },
    }
}

/// Law: the row groups that are kept are those that can match, each once and in order.
pub proof fn law_kept_groups(
    m: ParquetMetaData,
    fields: Seq<FieldView>,
    predicate: ExprView,
    from: nat,
)
    requires
        group_count(m) <= usize::MAX,
    ensures
        groups_kept(m, fields, predicate, from) matches Ok(kept) ==> {
            &&& ascending(kept)
            &&& from <= group_count(m) ==> kept.len() <= group_count(m) - from
            &&& forall|i: int|
                0 <= i < kept.len() ==> from <= #[trigger] kept[i] && kept[i] < group_count(m)
            &&& forall|g: nat|
                from <= g < group_count(m) ==> kept.contains(g as usize) == (#[trigger] can_match(
                    predicate,
                    group_bounds(m, g),
                    fields,
                ) == Ok::<bool, ErrorView>(true)) && can_match(
                    predicate,
                    group_bounds(m, g),
                    fields,
                ) is Ok
        },
    decreases group_count(m) - from,
{
    if from < group_count(m) {
        law_kept_groups(m, fields, predicate, from + 1);
        match groups_kept(m, fields, predicate, from) {
            Ok(kept) => {
                let rest = groups_kept(m, fields, predicate, from + 1)->Ok_0;
                let here = can_match(predicate, group_bounds(m, from), fields);
                assert forall|g: nat| from <= g < group_count(m) implies kept.contains(g as usize)
                    == (#[trigger] can_match(predicate, group_bounds(m, g), fields) == Ok::<
                    bool,
                    ErrorView,
                >(true)) && can_match(predicate, group_bounds(m, g), fields) is Ok by {
                    if g == from {
                        if here == Ok::<bool, ErrorView>(true) {
                            assert(kept[0] == g as usize);
                        } else if kept.contains(g as usize) {
                            let k = choose|k: int| 0 <= k < kept.len() && kept[k] == g as usize;
                            assert(rest[k] >= from + 1);
                        }
                    } else {
                        if rest.contains(g as usize) {
                            let k = choose|k: int| 0 <= k < rest.len() && rest[k] == g as usize;
                            if here == Ok::<bool, ErrorView>(true) {
                                assert(kept[k + 1] == g as usize);
                            } else {
                                assert(kept[k] == g as usize);
                            }
                        }
                        if kept.contains(g as usize) {
                            let k = choose|k: int| 0 <= k < kept.len() && kept[k] == g as usize;
                            if here == Ok::<bool, ErrorView>(true) {
                                assert(rest[k - 1] == g as usize);
                            } else {
                                assert(rest[k] == g as usize);
                            }
                        }
                    }
                }
            },
            Err(_) => {},
        }
    }
}

/// Law: no row of a row group that is skipped satisfies the predicate, the row group's statistics
/// being true of its rows.
pub proof fn law_skipped_groups_hold_nothing(
    m: ParquetMetaData,
    fields: Seq<FieldView>,
    predicate: ExprView,
    kept: Seq<usize>,
    group: nat,
    row: Seq<Cell>,
)
    requires
        group_count(m) <= usize::MAX,
        groups_kept(m, fields, predicate, 0) == Ok::<Seq<usize>, ErrorView>(kept),
        group < group_count(m),
        !kept.contains(group as usize),
        bounds_hold(predicate, fields, row, group_bounds(m, group)),
    ensures
        !holds(predicate, fields, row),
{
    law_kept_groups(m, fields, predicate, 0);
    let verdict = can_match(predicate, group_bounds(m, group), fields);
    assert(verdict is Ok);
    assert(verdict != Ok::<bool, ErrorView>(true));
    assert(!verdict->Ok_0);
    law_pruning_is_conservative(predicate, fields, group_bounds(m, group), row);
}

/// Law: a predicate over the columns of the file has, in every row, the value of the predicate over
/// those of the plan.
pub proof fn law_file_names_keep_value(
    e: ExprView,
    logical: Seq<FieldView>,
    file: Seq<FieldView>,
    row: Seq<Cell>,
)
    requires
        logical.len() == file.len(),
        names(file).no_duplicates(),
        forall|i: int|
            0 <= i < file.len() ==> (#[trigger] logical[i]).data_type == file[i].data_type,
    ensures
        file_expr(e, logical, file) matches Ok(x) ==> value_in(x, file, row) == value_in(
            e,
            logical,
            row,
        ) && expr_type(x, file) == expr_type(e, logical),
    decreases e,
{
    match e {
        ExprView::Column { name, relation } => {
            lemma_position(names(logical), key_of(name, relation));
            lemma_position(names(logical), name);
            match column_at(logical, name, relation) {
                Some(i) => {
                    let k = file[i].name;
                    assert(names(file)[i] == k);
                    assert forall|j: int| 0 <= j < i implies names(file)[j] != k by {
                        assert(names(file)[j] != names(file)[i]);
                    }
                    lemma_position_is(names(file), k, i);
                    assert(logical[i].data_type == file[i].data_type);
                },
                None => {},
            }
        },
        ExprView::Binary { left, op, right } => {
            law_file_names_keep_value(*left, logical, file, row);
            law_file_names_keep_value(*right, logical, file, row);
        },
        ExprView::Alias { expr, .. } => {
            law_file_names_keep_value(*expr, logical, file, row);
        },
        _ => {},
    }
}

} // verus!
