//! The rows of a SELECT with aggregates, by groups or of the whole.

use vstd::prelude::*;
use crate::executor::accumulator::{
    acc_finish, acc_start, acc_step, acc_steps, key_sorted, slice_order, step_order,
};
use crate::executor::aggregate::{
    agg_funcs, agg_parts, all_take, finished, gathered, group_rows, numbers, output_cell,
    started_all,
};
use crate::executor::batch::{fits, normal_type, null_cell, Cell, ColumnView, Outcome};
use crate::executor::full_table::blank_row;
use crate::executor::keys::{key_at, row_readable};
use crate::executor::sums::Sums;
use crate::float::{is_nan, place};
use crate::order::{scalar_order, Order};
use crate::parser::ast::{ArgView, GroupByView, ItemView, SelectView, SqlView};
use crate::planner::expressions::{convert, default_name, infer, is_aggregate, upper, upper_name};
use crate::planner::logical_plan::{AggFunc, ExprView};
use crate::planner::query::{
    aggregate_outputs, aggregation, convert_all, from_plan, item_aggregates, key_fields,
    listed_aggregates, lists_aggregate, select_plan, where_filter,
};
use crate::semantics::operators::{
    accumulated, keys_compare, law_groups_gather_rows, law_keys_sort, places_compare, rows_having,
};
use crate::semantics::where_below::where_below;
use crate::semantics::{
    aggregate_rows, argument_columns, fields_of, grouped_rows, meaning, output_row, total_row,
    total_value, value_columns, value_in,
};
use crate::types::{DataType, FieldView, ScalarView};
use crate::written::aggregates::{
    aggregable, aggregates_to, all_floats, all_ints, law_accumulator_aggregates,
    law_whole_column_aggregates, of_one_kind, totals_to,
};
use crate::written::conditions::{
    decided, law_expressions_have_their_value, law_values_are_ordered, law_where_selects,
    lemma_written_type,
};
use crate::written::selection::{bare, is_kept, lemma_filter_all};
use crate::written::tables::{
    from_fields, from_rows, is_normal, law_from_gives_joined_rows, linked, rows_fit, tables_typed,
};
use crate::written::{constant, divides, is_true, row_fits, type_of, value_before, value_of};

verus! {

/// The scalar in a cell.
pub open spec fn scalar_of(c: Cell) -> ScalarView {
    match c {
        Cell::Scalar(s) => s,
        _ => ScalarView::Null,
    }
}

/// The aggregate function that an expression calls, and its argument.
pub open spec fn call_of(e: SqlView) -> Option<(AggFunc, ArgView)> {
    match bare(e) {
        SqlView::Function { name, args } => if name.len() == 0 || args.len() != 1 {
            None
        } else {
            let n = upper(name.last());
            if n == "COUNT"@ {
                Some((AggFunc::Count, args[0]))
            } else if n == "SUM"@ {
                Some((AggFunc::Sum, args[0]))
            } else if n == "AVG"@ {
                Some((AggFunc::Avg, args[0]))
            } else if n == "MIN"@ {
                Some((AggFunc::Min, args[0]))
            } else if n == "MAX"@ {
                Some((AggFunc::Max, args[0]))
            } else {
                None
            }
        },
        _ => None,
    }
}

/// The aggregate that a SELECT item is, if it is one.
pub open spec fn item_call(item: ItemView) -> Option<(AggFunc, ArgView)> {
    match item {
        ItemView::Unnamed(e) => call_of(e),
        ItemView::Aliased { expr, .. } => call_of(expr),
        _ => None,
    }
}

/// The aggregates of a SELECT list, in order.
pub open spec fn calls(items: Seq<ItemView>) -> Seq<(AggFunc, ArgView)>
    decreases items.len(),
{
    if items.len() == 0 {
        Seq::empty()
    } else {
        match item_call(items[0]) {
            Some(c) => seq![c] + calls(items.skip(1)),
            None => calls(items.skip(1)),
        }
    }
}

/// The argument of an aggregate in a row; `*` stands for the row itself, of which there is one.
pub open spec fn argument_in(arg: ArgView, fields: Seq<FieldView>, row: Seq<Cell>) -> Cell {
    match arg {
        ArgView::Expr(e) => value_of(e, fields, row),
        _ => Cell::Scalar(ScalarView::Int64(1)),
    }
}

/// The argument of an aggregate in every row.
pub open spec fn arguments(arg: ArgView, fields: Seq<FieldView>, rows: Seq<Seq<Cell>>) -> Seq<Cell> {
    Seq::new(rows.len(), |i: int| argument_in(arg, fields, rows[i]))
}

/// The scalars of the argument of an aggregate in every row.
pub open spec fn argument_scalars(
    arg: ArgView,
    fields: Seq<FieldView>,
    rows: Seq<Seq<Cell>>,
) -> Seq<ScalarView> {
    Seq::new(rows.len(), |i: int| scalar_of(argument_in(arg, fields, rows[i])))
}

/// The type of the argument of an aggregate.
pub open spec fn argument_type(arg: ArgView, fields: Seq<FieldView>) -> Option<DataType> {
    match arg {
        ArgView::Expr(e) => type_of(e, fields),
        _ => Some(DataType::Int64),
    }
}

/// The values of GROUP BY in a row.
pub open spec fn group_key(gs: Seq<SqlView>, fields: Seq<FieldView>, row: Seq<Cell>) -> Seq<Cell> {
    Seq::new(gs.len(), |c: int| value_of(gs[c], fields, row))
}

/// The rows of a group, in their order.
pub open spec fn group_of(
    gs: Seq<SqlView>,
    fields: Seq<FieldView>,
    rows: Seq<Seq<Cell>>,
    key: Seq<Cell>,
) -> Seq<Seq<Cell>> {
    rows.filter(|r: Seq<Cell>| group_key(gs, fields, r) == key)
}

/// The row of a group: its key, then what each aggregate makes of the values in its rows.
pub open spec fn is_group_row(
    out: Seq<Cell>,
    key: Seq<Cell>,
    cs: Seq<(AggFunc, ArgView)>,
    fields: Seq<FieldView>,
    members: Seq<Seq<Cell>>,
) -> bool {
    &&& out.len() == key.len() + cs.len()
    &&& out.take(key.len() as int) == key
    &&& forall|a: int|
        0 <= a < cs.len() ==> (#[trigger] out[key.len() + a] matches Cell::Scalar(r)
            && aggregates_to(cs[a].0, argument_scalars(cs[a].1, fields, members), r))
}

/// One cell stands above another: NULL above none, floats as numbers.
pub open spec fn cell_above(x: Cell, y: Cell) -> bool {
    if x == null_cell() {
        false
    } else if y == null_cell() {
        true
    } else {
        match (x, y) {
            (Cell::Scalar(ScalarView::Float64(a)), Cell::Scalar(ScalarView::Float64(b))) => place(a)
                > place(b),
            _ => value_before(y, x),
        }
    }
}

/// One key stands above another: in the first place in which one of them is above the other.
pub open spec fn key_above(a: Seq<Cell>, b: Seq<Cell>) -> bool {
    exists|k: int|
        0 <= k < a.len() && k < b.len() && cell_above(#[trigger] a[k], b[k]) && forall|j: int|
            0 <= j < k ==> !cell_above(#[trigger] a[j], b[j]) && !cell_above(b[j], a[j])
}

/// The cell is a NaN.
pub open spec fn is_nan_cell(c: Cell) -> bool {
    c matches Cell::Scalar(ScalarView::Float64(x)) && is_nan(x)
}

/// No row's key stands above that of a later row, if none of them holds a NaN.
pub open spec fn keys_ascend(out: Seq<Seq<Cell>>, n: int) -> bool {
    (forall|i: int, c: int| 0 <= i < out.len() && 0 <= c < n ==> !is_nan_cell(#[trigger] out[i][c]))
        ==> forall|i: int, j: int|
        0 <= i < j < out.len() ==> !key_above((#[trigger] out[i]).take(n), (#[trigger] out[j]).take(n))
}

/// The result has a row for each group and no other: the row of every key, no key twice, and the keys
/// in their order.
pub open spec fn is_grouped(
    out: Seq<Seq<Cell>>,
    gs: Seq<SqlView>,
    cs: Seq<(AggFunc, ArgView)>,
    fields: Seq<FieldView>,
    rows: Seq<Seq<Cell>>,
) -> bool {
    &&& forall|i: int|
        0 <= i < out.len() ==> {
            let key = (#[trigger] out[i]).take(gs.len() as int);
            &&& group_of(gs, fields, rows, key).len() > 0
            &&& is_group_row(out[i], key, cs, fields, group_of(gs, fields, rows, key))
        }
    &&& forall|r: int|
        0 <= r < rows.len() ==> exists|i: int|
            0 <= i < out.len() && (#[trigger] out[i]).take(gs.len() as int) == group_key(
                gs,
                fields,
                #[trigger] rows[r],
            )
    &&& forall|i: int, j: int|
        0 <= i < j < out.len() ==> (#[trigger] out[i]).take(gs.len() as int) != (
        #[trigger] out[j]).take(gs.len() as int)
    &&& keys_ascend(out, gs.len() as int)
}

/// The result is one row, of what each aggregate makes of all rows.
pub open spec fn is_total(
    out: Seq<Seq<Cell>>,
    cs: Seq<(AggFunc, ArgView)>,
    fields: Seq<FieldView>,
    rows: Seq<Seq<Cell>>,
) -> bool {
    &&& out.len() == 1
    &&& out[0].len() == cs.len()
    &&& forall|a: int|
        0 <= a < cs.len() ==> (#[trigger] out[0][a] matches Cell::Scalar(r) && totals_to(
            cs[a].0,
            argument_type(cs[a].1, fields)->Some_0,
            arguments(cs[a].1, fields, rows),
            r,
        ))
}

/// The type is one of those that the engine computes with, and not that of NULL alone.
pub open spec fn is_plain_type(t: DataType) -> bool {
    t == DataType::Int64 || t == DataType::Float64 || t == DataType::Utf8 || t == DataType::Boolean
}

/// No literal in the expression is NULL.
pub open spec fn writes_no_null(e: SqlView) -> bool
    decreases e,
{
    match e {
        SqlView::Value(v) => constant(v) != ScalarView::Null,
        SqlView::Binary { left, right, .. } => writes_no_null(*left) && writes_no_null(*right),
        SqlView::Nested(inner) => writes_no_null(*inner),
        _ => true,
    }
}

/// The expression has a scalar for a value in every row.
pub open spec fn scalar_decided(e: SqlView, fields: Seq<FieldView>, rows: Seq<Seq<Cell>>) -> bool {
    &&& type_of(e, fields) matches Some(t) && is_plain_type(t)
    &&& writes_no_null(e)
    &&& forall|i: int| 0 <= i < rows.len() ==> divides(e, fields, #[trigger] rows[i])
}

/// The argument of an aggregate has a scalar for a value in every row; only COUNT counts `*`.
pub open spec fn call_decided(
    c: (AggFunc, ArgView),
    fields: Seq<FieldView>,
    rows: Seq<Seq<Cell>>,
) -> bool {
    match c.1 {
        ArgView::Expr(e) => scalar_decided(e, fields, rows),
        ArgView::Wildcard => c.0 == AggFunc::Count,
        ArgView::Other => false,
    }
}

/// The planner infers the type that an expression has.
pub proof fn lemma_inferred(e: SqlView, schema: Seq<FieldView>)
    requires
        convert(e, schema) is Ok,
        type_of(e, schema) is Some,
        writes_no_null(e),
    ensures
        infer(convert(e, schema)->Ok_0, schema) == Ok::<DataType, crate::error::ErrorView>(
            type_of(e, schema)->Some_0,
        ),
    decreases e,
{
    match e {
        SqlView::Identifier(_) => {
            crate::written::conditions::lemma_named_column(e, schema, schema);
        },
        SqlView::Compound(_) => {
            crate::written::conditions::lemma_named_column(e, schema, schema);
        },
        SqlView::Binary { left, right, .. } => {
            lemma_inferred(*left, schema);
            lemma_inferred(*right, schema);
        },
        SqlView::Nested(inner) => { lemma_inferred(*inner, schema); },
        _ => {},
    }
}

/// The planned aggregate of a call: its function and argument, and the type of its result.
pub open spec fn plans_call(
    x: ExprView,
    c: (AggFunc, ArgView),
    schema: Seq<FieldView>,
    field: FieldView,
) -> bool {
    let plain = match x {
        ExprView::Alias { expr, .. } => *expr,
        _ => x,
    };
    &&& agg_parts(x) matches Some(p) && p.0 == c.0 && match c.1 {
        ArgView::Wildcard => p.1 == ExprView::Wildcard,
        ArgView::Expr(a) => convert(a, schema) matches Ok(y) && p.1 == y,
        ArgView::Other => false,
    }
    &&& infer(plain, schema) == Ok::<DataType, crate::error::ErrorView>(field.data_type)
    &&& plain == (ExprView::Aggregate { func: c.0, arg: Box::new(agg_parts(x)->Some_0.1) })
}

/// A call that is planned is an aggregate, and an aggregate that is planned is a call.
pub proof fn lemma_call(e: SqlView, schema: Seq<FieldView>)
    ensures
        call_of(e) is Some ==> is_aggregate(e),
        is_aggregate(e) && convert(e, schema) is Ok ==> call_of(e) is Some && (convert(e, schema)
            matches Ok(ExprView::Aggregate { func, arg }) && func == call_of(e)->Some_0.0 && match (
            call_of(e)->Some_0.1
        ) {
            ArgView::Wildcard => *arg == ExprView::Wildcard,
            ArgView::Expr(a) => convert(a, schema) matches Ok(y) && *arg == y,
            ArgView::Other => false,
        }),
    decreases e,
{
    match e {
        SqlView::Nested(inner) => { lemma_call(*inner, schema); },
        SqlView::Function { name, args } => {
            if name.len() == 0 {
                reveal_strlit("SUM");
                reveal_strlit("COUNT");
                reveal_strlit("AVG");
                reveal_strlit("MIN");
                reveal_strlit("MAX");
                assert("SUM"@.len() == 3 && "COUNT"@.len() == 5 && "AVG"@.len() == 3);
                assert("MIN"@.len() == 3 && "MAX"@.len() == 3);
                assert(upper_name(name).len() == 0);
            } else {
                assert(upper_name(name) == upper(name.last()));
                reveal_strlit("SUM");
                reveal_strlit("COUNT");
                reveal_strlit("AVG");
                reveal_strlit("MIN");
                reveal_strlit("MAX");
                assert("SUM"@[0] != "COUNT"@[0] && "AVG"@[0] != "COUNT"@[0]);
            }
        },
        _ => {},
    }
}

/// The planned aggregates of a SELECT list are its calls.
pub proof fn lemma_calls(items: Seq<ItemView>, schema: Seq<FieldView>)
    requires
        listed_aggregates(items, schema) is Ok,
    ensures
        ({
            let o = listed_aggregates(items, schema)->Ok_0;
            &&& o.0.len() == calls(items).len()
            &&& o.1.len() == calls(items).len()
            &&& forall|i: int|
                0 <= i < o.0.len() ==> plans_call(#[trigger] o.0[i], calls(items)[i], schema, o.1[i])
        }),
    decreases items.len(),
{
    if items.len() > 0 {
        let rest = items.skip(1);
        lemma_calls(rest, schema);
        let o = listed_aggregates(items, schema)->Ok_0;
        let head = item_aggregates(items[0], schema)->Ok_0;
        let tail = listed_aggregates(rest, schema)->Ok_0;
        match items[0] {
            ItemView::Unnamed(e) => {
                lemma_call(e, schema);
                if is_aggregate(e) {
                    let x = convert(e, schema)->Ok_0;
                    reveal_with_fuel(agg_parts, 2);
                    assert(head.0 == seq![x]);
                    assert(plans_call(head.0[0], call_of(e)->Some_0, schema, head.1[0]));
                }
            },
            ItemView::Aliased { expr, alias } => {
                lemma_call(expr, schema);
                if is_aggregate(expr) {
                    reveal_with_fuel(agg_parts, 3);
                    assert(plans_call(head.0[0], call_of(expr)->Some_0, schema, head.1[0]));
                }
            },
            _ => {},
        }
        assert forall|i: int| 0 <= i < o.0.len() implies plans_call(
            #[trigger] o.0[i],
            calls(items)[i],
            schema,
            o.1[i],
        ) by {
            if i < head.0.len() {
                assert(o.0[i] == head.0[i] && o.1[i] == head.1[i]);
            } else {
                assert(o.0[i] == tail.0[i - head.0.len()]);
                assert(o.1[i] == tail.1[i - head.0.len()]);
                assert(calls(items)[i] == calls(rest)[i - head.0.len()]);
            }
        }
    }
}

/// GROUP BY keys are converted one by one, and have the types of their fields.
pub proof fn lemma_group_keys(gs: Seq<SqlView>, schema: Seq<FieldView>, c: int)
    requires
        convert_all(gs, schema) is Ok,
        0 <= c < gs.len(),
    ensures
        convert_all(gs, schema)->Ok_0.len() == gs.len(),
        convert(gs[c], schema) is Ok,
        convert_all(gs, schema)->Ok_0[c] == convert(gs[c], schema)->Ok_0,
    decreases gs.len(),
{
    let rest = gs.skip(1);
    if rest.len() == 0 {
        assert(convert_all(rest, schema)->Ok_0.len() == 0);
    } else {
        lemma_group_keys(rest, schema, if c > 0 { c - 1 } else { 0 });
    }
    if c > 0 {
        assert(rest[c - 1] == gs[c]);
    }
}

pub proof fn lemma_key_types(keys: Seq<ExprView>, schema: Seq<FieldView>, c: int)
    requires
        key_fields(keys, schema) is Ok,
        0 <= c < keys.len(),
    ensures
        key_fields(keys, schema)->Ok_0.len() == keys.len(),
        infer(keys[c], schema) == Ok::<DataType, crate::error::ErrorView>(
            key_fields(keys, schema)->Ok_0[c].data_type,
        ),
        key_fields(keys, schema)->Ok_0[c].name == default_name(keys[c]),
    decreases keys.len(),
{
    let rest = keys.skip(1);
    if rest.len() == 0 {
        assert(key_fields(rest, schema)->Ok_0.len() == 0);
    } else {
        lemma_key_types(rest, schema, if c > 0 { c - 1 } else { 0 });
    }
    if c > 0 {
        assert(rest[c - 1] == keys[c]);
    }
}

/// A key as cells.
pub open spec fn key_cells(key: Seq<ScalarView>) -> Seq<Cell> {
    Seq::new(key.len(), |i: int| Cell::Scalar(key[i]))
}

/// What grouping is about: GROUP BY, the aggregates and the rows, all of which have scalars.
pub open spec fn groupable(
    gs: Seq<SqlView>,
    cs: Seq<(AggFunc, ArgView)>,
    f: Seq<FieldView>,
    rows: Seq<Seq<Cell>>,
) -> bool {
    &&& rows_fit(f, rows)
    &&& rows.len() <= i64::MAX
    &&& forall|c: int| 0 <= c < gs.len() ==> scalar_decided(#[trigger] gs[c], f, rows)
    &&& forall|a: int| 0 <= a < cs.len() ==> call_decided(#[trigger] cs[a], f, rows)
}

/// Every aggregate has a value on its arguments in all rows.
pub open spec fn all_aggregable(
    cs: Seq<(AggFunc, ArgView)>,
    f: Seq<FieldView>,
    rows: Seq<Seq<Cell>>,
) -> bool {
    forall|a: int|
        0 <= a < cs.len() ==> aggregable(
            (#[trigger] cs[a]).0,
            argument_scalars(cs[a].1, f, rows),
        )
}

/// The key columns, the argument columns and the functions of an aggregation.
pub open spec fn planned_groups(
    keys: Seq<ColumnView>,
    args: Seq<ColumnView>,
    funcs: Seq<AggFunc>,
    gs: Seq<SqlView>,
    cs: Seq<(AggFunc, ArgView)>,
    f: Seq<FieldView>,
    rows: Seq<Seq<Cell>>,
) -> bool {
    &&& keys.len() == gs.len()
    &&& args.len() == cs.len()
    &&& funcs.len() == cs.len()
    &&& forall|c: int|
        0 <= c < gs.len() ==> (#[trigger] keys[c]).cells.len() == rows.len() && keys[c].data_type
            == type_of(gs[c], f)->Some_0
    &&& forall|c: int, r: int|
        0 <= c < gs.len() && 0 <= r < rows.len() ==> #[trigger] keys[c].cells[r] == value_of(
            gs[c],
            f,
            rows[r],
        )
    &&& forall|a: int|
        0 <= a < cs.len() ==> (#[trigger] args[a]).cells == arguments(cs[a].1, f, rows)
            && args[a].data_type == argument_type(cs[a].1, f)->Some_0
    &&& forall|a: int| 0 <= a < cs.len() ==> #[trigger] funcs[a] == cs[a].0
}

/// A value of a plain type is a scalar.
proof fn lemma_plain_scalar(e: SqlView, f: Seq<FieldView>, rows: Seq<Seq<Cell>>, r: int, x: ExprView)
    requires
        scalar_decided(e, f, rows),
        rows_fit(f, rows),
        0 <= r < rows.len(),
        convert(e, f) == Ok::<ExprView, crate::error::ErrorView>(x),
    ensures
        fits(type_of(e, f)->Some_0, value_of(e, f, rows[r])),
        value_of(e, f, rows[r]) == Cell::Scalar(scalar_of(value_of(e, f, rows[r]))),
        value_in(x, f, rows[r]) == value_of(e, f, rows[r]),
{
    assert(row_fits(f, rows[r]));
    assert(divides(e, f, rows[r]));
    law_expressions_have_their_value(e, f, f, rows[r]);
}

/// The keys and the arguments in a row.
proof fn lemma_row_keys(
    keys: Seq<ColumnView>,
    args: Seq<ColumnView>,
    funcs: Seq<AggFunc>,
    gs: Seq<SqlView>,
    cs: Seq<(AggFunc, ArgView)>,
    f: Seq<FieldView>,
    rows: Seq<Seq<Cell>>,
    r: int,
)
    requires
        groupable(gs, cs, f, rows),
        planned_groups(keys, args, funcs, gs, cs, f, rows),
        forall|c: int| 0 <= c < gs.len() ==> convert(#[trigger] gs[c], f) is Ok,
        forall|a: int|
            0 <= a < cs.len() ==> ((#[trigger] cs[a]).1 matches ArgView::Expr(e) ==> convert(e, f)
                is Ok),
        0 <= r < rows.len(),
    ensures
        row_readable(keys, r),
        row_readable(args, r),
        key_cells(key_at(keys, r)) == group_key(gs, f, rows[r]),
        key_at(keys, r).len() == gs.len(),
        key_at(args, r).len() == cs.len(),
        forall|a: int|
            0 <= a < cs.len() ==> #[trigger] key_at(args, r)[a] == scalar_of(
                argument_in(cs[a].1, f, rows[r]),
            ),
{
    assert forall|c: int| 0 <= c < keys.len() implies crate::executor::batch::scalar_in(
        #[trigger] keys[c],
        r,
    ) is Some && key_at(keys, r)[c] == scalar_of(value_of(gs[c], f, rows[r])) && Cell::Scalar(
        key_at(keys, r)[c],
    ) == value_of(gs[c], f, rows[r]) by {
        assert(scalar_decided(gs[c], f, rows));
        lemma_plain_scalar(gs[c], f, rows, r, convert(gs[c], f)->Ok_0);
        assert(keys[c].cells[r] == value_of(gs[c], f, rows[r]));
    }
    assert(key_cells(key_at(keys, r)) =~= group_key(gs, f, rows[r])) by {
        assert forall|c: int| 0 <= c < gs.len() implies key_cells(key_at(keys, r))[c] == group_key(
            gs,
            f,
            rows[r],
        )[c] by {
            let k = keys[c];
            assert(Cell::Scalar(key_at(keys, r)[c]) == value_of(gs[c], f, rows[r]));
        }
    }
    assert forall|a: int| 0 <= a < args.len() implies crate::executor::batch::scalar_in(
        #[trigger] args[a],
        r,
    ) is Some && key_at(args, r)[a] == scalar_of(argument_in(cs[a].1, f, rows[r])) by {
        assert(call_decided(cs[a], f, rows));
        assert(args[a].cells[r] == argument_in(cs[a].1, f, rows[r]));
        match cs[a].1 {
            ArgView::Expr(e) => { lemma_plain_scalar(e, f, rows, r, convert(e, f)->Ok_0); },
            _ => {},
        }
    }
    assert forall|a: int| 0 <= a < cs.len() implies #[trigger] key_at(args, r)[a] == scalar_of(
        argument_in(cs[a].1, f, rows[r]),
    ) by {
        let k = args[a];
        assert(crate::executor::batch::scalar_in(k, r) is Some);
    }
}

/// Keys that are the same as cells are the same.
proof fn lemma_key_cells(a: Seq<ScalarView>, b: Seq<ScalarView>)
    requires
        key_cells(a) == key_cells(b),
    ensures
        a == b,
{
    assert(key_cells(a).len() == a.len() && key_cells(b).len() == b.len());
    assert forall|i: int| 0 <= i < a.len() implies a[i] == b[i] by {
        assert(key_cells(a)[i] == Cell::Scalar(a[i]));
        assert(key_cells(b)[i] == Cell::Scalar(b[i]));
    }
    assert(a =~= b);
}

/// Some of the values can be aggregated where all can.
proof fn lemma_aggregable_some(func: AggFunc, all: Seq<ScalarView>, some: Seq<ScalarView>)
    requires
        aggregable(func, all),
        forall|i: int| 0 <= i < some.len() ==> all.contains(#[trigger] some[i]),
    ensures
        aggregable(func, some),
{
    assert forall|i: int| 0 <= i < some.len() implies {
        &&& all_ints(all) ==> (#[trigger] some[i]) is Int64
        &&& all_floats(all) ==> some[i] is Float64
        &&& (forall|k: int| 0 <= k < all.len() ==> (#[trigger] all[k]) is Utf8) ==> some[i] is Utf8
        &&& (forall|k: int| 0 <= k < all.len() ==> (#[trigger] all[k]) is Boolean)
            ==> some[i] is Boolean
        &&& of_one_kind(all) ==> (some[i] matches ScalarView::Float64(x) ==> !crate::float::is_nan(
            x,
        ))
    } by {
        assert(all.contains(some[i]));
        let k = choose|k: int| 0 <= k < all.len() && all[k] == some[i];
        assert(all[k] == some[i]);
    }
}

/// The arguments in rows that are selected are among the arguments in all rows.
proof fn lemma_group_arguments(
    arg: ArgView,
    f: Seq<FieldView>,
    rows: Seq<Seq<Cell>>,
    p: spec_fn(Seq<Cell>) -> bool,
)
    ensures
        forall|i: int|
            0 <= i < argument_scalars(arg, f, rows.filter(p)).len() ==> argument_scalars(
                arg,
                f,
                rows,
            ).contains(#[trigger] argument_scalars(arg, f, rows.filter(p))[i]),
    decreases rows.len(),
{
    reveal(Seq::filter);
    let some = argument_scalars(arg, f, rows.filter(p));
    let all = argument_scalars(arg, f, rows);
    if rows.len() > 0 {
        let rest = rows.drop_last();
        lemma_group_arguments(arg, f, rest, p);
        let before = argument_scalars(arg, f, rest.filter(p));
        let init = argument_scalars(arg, f, rest);
        assert forall|i: int| 0 <= i < some.len() implies all.contains(#[trigger] some[i]) by {
            if i < before.len() {
                assert(some[i] == before[i]);
                assert(init.contains(before[i]));
                let k = choose|k: int| 0 <= k < init.len() && init[k] == before[i];
                assert(all[k] == some[i]);
            } else {
                assert(all[rows.len() - 1] == some[i]);
            }
        }
    }
}

/// What the rows of a group, among the first `n` rows, come to in the accumulators.
proof fn lemma_accumulated(
    key: Seq<ScalarView>,
    keys: Seq<ColumnView>,
    args: Seq<ColumnView>,
    funcs: Seq<AggFunc>,
    gs: Seq<SqlView>,
    cs: Seq<(AggFunc, ArgView)>,
    f: Seq<FieldView>,
    rows: Seq<Seq<Cell>>,
    n: nat,
)
    requires
        n <= rows.len(),
        groupable(gs, cs, f, rows),
        all_aggregable(cs, f, rows),
        planned_groups(keys, args, funcs, gs, cs, f, rows),
        forall|c: int| 0 <= c < gs.len() ==> convert(#[trigger] gs[c], f) is Ok,
        forall|a: int|
            0 <= a < cs.len() ==> ((#[trigger] cs[a]).1 matches ArgView::Expr(e) ==> convert(e, f)
                is Ok),
    ensures
        ({
            let members = group_of(gs, f, rows.take(n as int), key_cells(key));
            let accs = accumulated(key, keys, args, funcs, n);
            &&& rows_having(key, keys, n) == members.len()
            &&& members.len() > 0 ==> accs.len() == cs.len() && forall|a: int|
                0 <= a < cs.len() ==> {
                    let vals = argument_scalars(cs[a].1, f, members);
                    &&& vals.len() == members.len()
                    &&& aggregable((#[trigger] cs[a]).0, vals)
                    &&& acc_steps(acc_start(cs[a].0, vals[0]), vals) == Some(accs[a])
                }
        }),
    decreases n,
{
    let p = |r: Seq<Cell>| group_key(gs, f, r) == key_cells(key);
    let members = group_of(gs, f, rows.take(n as int), key_cells(key));
    assert(members == rows.take(n as int).filter(p));
    reveal(Seq::filter);
    if n == 0 {
        assert(members =~= Seq::empty());
    } else {
        let m = (n - 1) as nat;
        let r = n - 1;
        let before = group_of(gs, f, rows.take(m as int), key_cells(key));
        lemma_accumulated(key, keys, args, funcs, gs, cs, f, rows, m);
        lemma_row_keys(keys, args, funcs, gs, cs, f, rows, r);
        assert(rows.take(n as int).drop_last() =~= rows.take(m as int));
        assert(rows.take(n as int).last() == rows[r]);
        let old = accumulated(key, keys, args, funcs, m);
        let accs = accumulated(key, keys, args, funcs, n);
        if key_at(keys, r) == key {
            assert(members == before.push(rows[r]));
            assert(rows_having(key, keys, n) == members.len());
            assert(accs.len() == cs.len());
            assert forall|a: int| 0 <= a < cs.len() implies {
                let vals = argument_scalars(cs[a].1, f, members);
                &&& vals.len() == members.len()
                &&& aggregable((#[trigger] cs[a]).0, vals)
                &&& acc_steps(acc_start(cs[a].0, vals[0]), vals) == Some(accs[a])
            } by {
                let vals = argument_scalars(cs[a].1, f, members);
                let v = argument_scalars(cs[a].1, f, before);
                let x = key_at(args, r)[a];
                assert(x == scalar_of(argument_in(cs[a].1, f, rows[r])));
                assert(vals =~= v.push(x));
                assert(aggregable(cs[a].0, argument_scalars(cs[a].1, f, rows)));
                lemma_group_arguments(cs[a].1, f, rows.take(n as int), p);
                assert forall|i: int| 0 <= i < vals.len() implies argument_scalars(
                    cs[a].1,
                    f,
                    rows,
                ).contains(#[trigger] vals[i]) by {
                    let part = argument_scalars(cs[a].1, f, rows.take(n as int));
                    assert(part.contains(vals[i]));
                    let k = choose|k: int| 0 <= k < part.len() && part[k] == vals[i];
                    assert(argument_scalars(cs[a].1, f, rows)[k] == vals[i]);
                }
                lemma_aggregable_some(
                    cs[a].0,
                    argument_scalars(cs[a].1, f, rows),
                    vals,
                );
                lemma_members_len(rows, n, p);
                law_accumulator_aggregates(cs[a].0, vals);
                assert(vals.drop_last() =~= v);
                assert(vals.last() == x);
                assert(funcs[a] == cs[a].0);
                if before.len() == 0 {
                    assert(v.len() == 0);
                    assert(vals[0] == x);
                    assert(acc_steps(acc_start(cs[a].0, vals[0]), v) == Some(
                        acc_start(cs[a].0, vals[0]),
                    ));
                } else {
                    assert(vals[0] == v[0]);
                    assert(acc_steps(acc_start(cs[a].0, v[0]), v) == Some(old[a]));
                }
            }
        } else {
            if group_key(gs, f, rows[r]) == key_cells(key) {
                lemma_key_cells(key_at(keys, r), key);
            }
            assert(members == before);
            assert(accs == old);
            assert(rows_having(key, keys, n) == members.len());
            if members.len() > 0 {
                assert forall|a: int| 0 <= a < cs.len() implies {
                    let vals = argument_scalars(cs[a].1, f, members);
                    &&& vals.len() == members.len()
                    &&& aggregable((#[trigger] cs[a]).0, vals)
                    &&& acc_steps(acc_start(cs[a].0, vals[0]), vals) == Some(accs[a])
                } by {
                    let vals = argument_scalars(cs[a].1, f, before);
                    assert(acc_steps(acc_start(cs[a].0, vals[0]), vals) == Some(old[a]));
                }
            }
        }
    }
}

/// No more rows are selected than there are.
proof fn lemma_members_len(rows: Seq<Seq<Cell>>, n: nat, p: spec_fn(Seq<Cell>) -> bool)
    requires
        n <= rows.len(),
    ensures
        rows.take(n as int).filter(p).len() <= rows.len(),
{
    rows.take(n as int).lemma_filter_len(p);
}

/// The rows can be gathered into groups.
proof fn lemma_gathered(
    keys: Seq<ColumnView>,
    args: Seq<ColumnView>,
    funcs: Seq<AggFunc>,
    gs: Seq<SqlView>,
    cs: Seq<(AggFunc, ArgView)>,
    f: Seq<FieldView>,
    rows: Seq<Seq<Cell>>,
    n: nat,
)
    requires
        n <= rows.len(),
        groupable(gs, cs, f, rows),
        all_aggregable(cs, f, rows),
        planned_groups(keys, args, funcs, gs, cs, f, rows),
        forall|c: int| 0 <= c < gs.len() ==> convert(#[trigger] gs[c], f) is Ok,
        forall|a: int|
            0 <= a < cs.len() ==> ((#[trigger] cs[a]).1 matches ArgView::Expr(e) ==> convert(e, f)
                is Ok),
    ensures
        gathered(keys, args, funcs, n) is Value,
    decreases n,
{
    if n > 0 {
        let m = (n - 1) as nat;
        let r = n - 1;
        lemma_gathered(keys, args, funcs, gs, cs, f, rows, m);
        lemma_row_keys(keys, args, funcs, gs, cs, f, rows, r);
        let key = key_at(keys, r);
        let vals = key_at(args, r);
        lemma_accumulated(key, keys, args, funcs, gs, cs, f, rows, n);
        lemma_accumulated(key, keys, args, funcs, gs, cs, f, rows, m);
        law_groups_gather_rows(keys, args, funcs, m);
        let g = gathered(keys, args, funcs, m)->Value_0;
        let p = |x: Seq<Cell>| group_key(gs, f, x) == key_cells(key);
        let members = group_of(gs, f, rows.take(n as int), key_cells(key));
        let before = group_of(gs, f, rows.take(m as int), key_cells(key));
        reveal(Seq::filter);
        assert(rows.take(n as int).drop_last() =~= rows.take(m as int));
        assert(rows.take(n as int).last() == rows[r]);
        assert(members == before.push(rows[r]));
        let known = g.keys.contains(key);
        let start = if known { g.accs[g.keys.index_of(key)] } else { started_all(funcs, vals) };
        assert(known == (rows_having(key, keys, m) > 0));
        assert(all_take(start, vals)) by {
            assert forall|a: int| 0 <= a < start.len() implies acc_step(#[trigger] start[a], vals[a])
                is Some by {
                if known {
                    let at = g.keys.index_of(key);
                    assert(g.accs[at] == accumulated(g.keys[at], keys, args, funcs, m));
                    assert(g.keys[at] == key);
                }
                let accs = accumulated(key, keys, args, funcs, n);
                let old = accumulated(key, keys, args, funcs, m);
                let all = argument_scalars(cs[a].1, f, members);
                let v = argument_scalars(cs[a].1, f, before);
                assert(acc_steps(acc_start(cs[a].0, all[0]), all) == Some(accs[a]));
                assert(all =~= v.push(vals[a]));
                assert(all.drop_last() =~= v);
                assert(funcs[a] == cs[a].0);
                if known {
                    assert(all[0] == v[0]);
                    assert(acc_steps(acc_start(cs[a].0, v[0]), v) == Some(old[a]));
                } else {
                    assert(v.len() == 0);
                    assert(acc_steps(acc_start(cs[a].0, all[0]), v) == Some(
                        acc_start(cs[a].0, all[0]),
                    ));
                }
            }
        }
    }
}

/// The fields of the result take the values that the keys and the aggregates have.
pub open spec fn takes_results(
    out: Seq<FieldView>,
    gs: Seq<SqlView>,
    cs: Seq<(AggFunc, ArgView)>,
    f: Seq<FieldView>,
) -> bool {
    &&& out.len() == gs.len() + cs.len()
    &&& forall|c: int|
        0 <= c < gs.len() ==> normal_type((#[trigger] out[c]).data_type) == type_of(
            gs[c],
            f,
        )->Some_0
    &&& forall|a: int|
        0 <= a < cs.len() ==> normal_type((#[trigger] out[gs.len() + a]).data_type) == result_type(
            cs[a],
            f,
        )
}

/// The type of what an aggregate gives.
pub open spec fn result_type(c: (AggFunc, ArgView), f: Seq<FieldView>) -> DataType {
    match c.0 {
        AggFunc::Count => DataType::Int64,
        AggFunc::Avg => DataType::Float64,
        AggFunc::Sum => if argument_type(c.1, f) == Some(DataType::Int64) {
            DataType::Int64
        } else {
            DataType::Float64
        },
        _ => argument_type(c.1, f)->Some_0,
    }
}

/// What a function makes of values of a type has the type of its result.
proof fn lemma_result_fits(
    c: (AggFunc, ArgView),
    f: Seq<FieldView>,
    vals: Seq<ScalarView>,
    r: ScalarView,
)
    requires
        vals.len() > 0,
        aggregable(c.0, vals),
        aggregates_to(c.0, vals, r),
        argument_type(c.1, f) matches Some(t) && is_plain_type(t) && forall|i: int|
            0 <= i < vals.len() ==> fits(t, Cell::Scalar(#[trigger] vals[i])),
    ensures
        output_cell(r, result_type(c, f)) == Cell::Scalar(r),
{
    let t = argument_type(c.1, f)->Some_0;
    assert(fits(t, Cell::Scalar(vals[0])));
    match c.0 {
        AggFunc::Sum => {
            assert(vals[0] is Int64 || vals[0] is Float64);
        },
        AggFunc::Min => {
            let k = choose|k: int| 0 <= k < vals.len() && vals[k] == r;
            assert(fits(t, Cell::Scalar(vals[k])));
        },
        AggFunc::Max => {
            let k = choose|k: int| 0 <= k < vals.len() && vals[k] == r;
            assert(fits(t, Cell::Scalar(vals[k])));
        },
        _ => {},
    }
}

/// The order of the groups lists each of them once.
proof fn lemma_group_order(keys: Seq<Seq<ScalarView>>)
    requires
        keys.len() <= usize::MAX,
    ensures
        ({
            let order = key_sorted(numbers(keys.len()), keys);
            &&& order.len() == keys.len()
            &&& order.no_duplicates()
            &&& forall|i: int| 0 <= i < order.len() ==> (#[trigger] order[i]) < keys.len()
            &&& forall|k: int| 0 <= k < keys.len() ==> #[trigger] order.contains(k as usize)
        }),
{
    let all = numbers(keys.len());
    let order = key_sorted(all, keys);
    law_keys_sort(all, keys);
    crate::executor::accumulator::lemma_key_sorted_below(all, keys, keys.len());
    broadcast use vstd::seq_lib::group_to_multiset_ensures;
    assert(all.no_duplicates());
    all.lemma_multiset_has_no_duplicates();
    order.lemma_multiset_has_no_duplicates_conv();
    assert forall|k: int| 0 <= k < keys.len() implies #[trigger] order.contains(k as usize) by {
        assert(all[k] == k as usize);
        assert(all.contains(k as usize));
        assert(all.to_multiset().count(k as usize) > 0);
        assert(order.to_multiset().count(k as usize) > 0);
    }
}

/// A group has rows if, and only if, one of the rows has its key.
proof fn lemma_has_members(
    gs: Seq<SqlView>,
    f: Seq<FieldView>,
    rows: Seq<Seq<Cell>>,
    key: Seq<Cell>,
)
    ensures
        (group_of(gs, f, rows, key).len() > 0) == (exists|r: int|
            0 <= r < rows.len() && group_key(gs, f, #[trigger] rows[r]) == key),
{
    let p = |r: Seq<Cell>| group_key(gs, f, r) == key;
    let members = rows.filter(p);
    broadcast use vstd::seq_lib::group_filter_ensures;
    if members.len() > 0 {
        lemma_member_is_row(rows, p, 0);
        assert(p(members[0]));
        let r = choose|r: int| 0 <= r < rows.len() && rows[r] == members[0];
        assert(group_key(gs, f, rows[r]) == key);
    }
    if exists|r: int| 0 <= r < rows.len() && group_key(gs, f, #[trigger] rows[r]) == key {
        let r = choose|r: int| 0 <= r < rows.len() && group_key(gs, f, #[trigger] rows[r]) == key;
        assert(p(rows[r]));
        assert(rows.filter(p).contains(rows[r]));
    }
}

/// A row that is selected is one of the rows.
proof fn lemma_member_is_row(rows: Seq<Seq<Cell>>, p: spec_fn(Seq<Cell>) -> bool, i: int)
    requires
        0 <= i < rows.filter(p).len(),
    ensures
        rows.contains(rows.filter(p)[i]),
        p(rows.filter(p)[i]),
    decreases rows.len(),
{
    reveal(Seq::filter);
    if rows.len() > 0 {
        let rest = rows.drop_last();
        if i < rest.filter(p).len() {
            lemma_member_is_row(rest, p, i);
            let k = choose|k: int| 0 <= k < rest.len() && rest[k] == rest.filter(p)[i];
            assert(rows[k] == rest.filter(p)[i]);
            assert(rows.filter(p)[i] == rest.filter(p)[i]);
        } else {
            assert(rows[rows.len() - 1] == rows.filter(p)[i]);
        }
    }
}

/// A key above another comes after it.
proof fn lemma_slice_above(a: Seq<ScalarView>, b: Seq<ScalarView>)
    requires
        places_compare(a, b),
        key_above(key_cells(a), key_cells(b)),
    ensures
        slice_order(a, b) == Order::Greater,
    decreases a.len(),
{
    let x = key_cells(a);
    let y = key_cells(b);
    let k = choose|k: int|
        0 <= k < x.len() && k < y.len() && cell_above(#[trigger] x[k], y[k]) && forall|j: int|
            0 <= j < k ==> !cell_above(#[trigger] x[j], y[j]) && !cell_above(y[j], x[j]);
    assert(a[0] == ScalarView::Null || b[0] == ScalarView::Null || scalar_order(a[0], b[0]) is Some);
    if let (ScalarView::Utf8(_), ScalarView::Utf8(_)) = (a[0], b[0]) {
        law_values_are_ordered(DataType::Utf8, x[0], y[0]);
    }
    if k > 0 {
        assert(!cell_above(x[0], y[0]) && !cell_above(y[0], x[0]));
        assert(step_order(a[0], b[0]) == Some(Order::Equal));
        let a1 = a.skip(1);
        let b1 = b.skip(1);
        let x1 = key_cells(a1);
        let y1 = key_cells(b1);
        assert(x1[k - 1] == x[k] && y1[k - 1] == y[k]);
        assert forall|j: int| 0 <= j < k - 1 implies !cell_above(#[trigger] x1[j], y1[j]) && !cell_above(
            y1[j],
            x1[j],
        ) by {
            assert(x1[j] == x[j + 1] && y1[j] == y[j + 1]);
        }
        assert(places_compare(a1, b1)) by {
            assert forall|c: int| 0 <= c < a1.len() implies #[trigger] a1[c] == ScalarView::Null || b1[c]
                == ScalarView::Null || scalar_order(a1[c], b1[c]) is Some by {
                assert(a1[c] == a[c + 1]);
            }
        }
        lemma_slice_above(a1, b1);
    }
}

/// The rows of groups are in the order of their keys.
proof fn lemma_keys_ascend(
    result: Seq<Seq<Cell>>,
    keys: Seq<Seq<ScalarView>>,
    gs: Seq<SqlView>,
    cs: Seq<(AggFunc, ArgView)>,
    f: Seq<FieldView>,
    rows: Seq<Seq<Cell>>,
)
    requires
        groupable(gs, cs, f, rows),
        forall|c: int| 0 <= c < gs.len() ==> convert(#[trigger] gs[c], f) is Ok,
        keys.len() <= usize::MAX,
        result.len() == keys.len(),
        forall|i: int|
            0 <= i < result.len() ==> (#[trigger] result[i]).take(gs.len() as int) == key_cells(
                keys[key_sorted(numbers(keys.len()), keys)[i] as int],
            ) && result[i].len() >= gs.len(),
        forall|k: int|
            0 <= k < keys.len() ==> group_of(gs, f, rows, key_cells(#[trigger] keys[k])).len() > 0,
    ensures
        keys_ascend(result, gs.len() as int),
{
    let n = gs.len() as int;
    let order = key_sorted(numbers(keys.len()), keys);
    lemma_group_order(keys);
    if forall|i: int, c: int|
        0 <= i < result.len() && 0 <= c < n ==> !is_nan_cell(#[trigger] result[i][c]) {
        assert forall|k: int, c: int| 0 <= k < keys.len() && 0 <= c < n implies {
            &&& keys[k].len() == n
            &&& fits(type_of(gs[c], f)->Some_0, Cell::Scalar(#[trigger] keys[k][c]))
            &&& is_plain_type(type_of(gs[c], f)->Some_0)
            &&& !is_nan_cell(Cell::Scalar(keys[k][c]))
        } by {
            lemma_has_members(gs, f, rows, key_cells(keys[k]));
            let r = choose|r: int|
                0 <= r < rows.len() && group_key(gs, f, #[trigger] rows[r]) == key_cells(keys[k]);
            assert(key_cells(keys[k]).len() == keys[k].len());
            assert(group_key(gs, f, rows[r]).len() == n);
            assert(scalar_decided(gs[c], f, rows));
            lemma_plain_scalar(gs[c], f, rows, r, convert(gs[c], f)->Ok_0);
            assert(key_cells(keys[k])[c] == group_key(gs, f, rows[r])[c]);
            assert(order.contains(k as usize));
            let i = choose|i: int| 0 <= i < order.len() && order[i] == k as usize;
            assert(result[i].take(n) == key_cells(keys[k]));
            assert(result[i].take(n)[c] == result[i][c]);
            assert(!is_nan_cell(result[i][c]));
        }
        assert(keys_compare(keys)) by {
            assert forall|i: int, j: int| 0 <= i < keys.len() && 0 <= j < keys.len() implies places_compare(
                #[trigger] keys[i],
                #[trigger] keys[j],
            ) by {
                lemma_key_width(keys[i], gs, f, rows);
                lemma_key_width(keys[j], gs, f, rows);
                assert forall|c: int| 0 <= c < keys[i].len() implies #[trigger] keys[i][c]
                    == ScalarView::Null || keys[j][c] == ScalarView::Null || scalar_order(
                    keys[i][c],
                    keys[j][c],
                ) is Some by {
                    assert(fits(type_of(gs[c], f)->Some_0, Cell::Scalar(keys[j][c])));
                }
            }
        }
        law_keys_sort(numbers(keys.len()), keys);
        assert forall|i: int, j: int| 0 <= i < j < result.len() implies !key_above(
            (#[trigger] result[i]).take(n),
            (#[trigger] result[j]).take(n),
        ) by {
            let a = keys[order[i] as int];
            let b = keys[order[j] as int];
            assert(places_compare(a, b));
            if key_above(key_cells(a), key_cells(b)) {
                lemma_slice_above(a, b);
            }
        }
    }
}

/// The key of a group has a place for each expression of GROUP BY.
proof fn lemma_key_width(
    key: Seq<ScalarView>,
    gs: Seq<SqlView>,
    f: Seq<FieldView>,
    rows: Seq<Seq<Cell>>,
)
    requires
        group_of(gs, f, rows, key_cells(key)).len() > 0,
    ensures
        key.len() == gs.len(),
{
    lemma_has_members(gs, f, rows, key_cells(key));
    let r = choose|r: int|
        0 <= r < rows.len() && group_key(gs, f, #[trigger] rows[r]) == key_cells(key);
    assert(key_cells(key).len() == key.len());
    assert(group_key(gs, f, rows[r]).len() == gs.len());
}

/// The rows of a grouped aggregation: one for each group, with its key and its aggregates.
proof fn lemma_grouped(
    keys: Seq<ColumnView>,
    args: Seq<ColumnView>,
    funcs: Seq<AggFunc>,
    gs: Seq<SqlView>,
    cs: Seq<(AggFunc, ArgView)>,
    f: Seq<FieldView>,
    out: Seq<FieldView>,
    rows: Seq<Seq<Cell>>,
)
    requires
        groupable(gs, cs, f, rows),
        all_aggregable(cs, f, rows),
        planned_groups(keys, args, funcs, gs, cs, f, rows),
        takes_results(out, gs, cs, f),
        forall|c: int| 0 <= c < gs.len() ==> convert(#[trigger] gs[c], f) is Ok,
        forall|a: int|
            0 <= a < cs.len() ==> ((#[trigger] cs[a]).1 matches ArgView::Expr(e) ==> convert(e, f)
                is Ok),
        rows.len() <= usize::MAX,
    ensures
        is_grouped(grouped_rows(keys, args, funcs, out, rows.len()), gs, cs, f, rows),
{
    let n = rows.len();
    let nk = gs.len() as int;
    lemma_gathered(keys, args, funcs, gs, cs, f, rows, n);
    law_groups_gather_rows(keys, args, funcs, n);
    let g = gathered(keys, args, funcs, n)->Value_0;
    lemma_group_count(keys, args, funcs, n);
    lemma_group_order(g.keys);
    let order = key_sorted(numbers(g.keys.len()), g.keys);
    let result = grouped_rows(keys, args, funcs, out, n);
    let listed = group_rows(g);
    assert(rows.take(n as int) =~= rows);
    assert(listed.len() == order.len());
    assert forall|i: int| 0 <= i < result.len() implies {
        let key = g.keys[order[i] as int];
        &&& (#[trigger] result[i]).take(nk) == key_cells(key)
        &&& group_of(gs, f, rows, key_cells(key)).len() > 0
        &&& is_group_row(
            result[i],
            key_cells(key),
            cs,
            f,
            group_of(gs, f, rows, key_cells(key)),
        )
    } by {
        let at = order[i] as int;
        let key = g.keys[at];
        let members = group_of(gs, f, rows, key_cells(key));
        lemma_accumulated(key, keys, args, funcs, gs, cs, f, rows, n);
        assert(g.keys.contains(key));
        assert(rows_having(key, keys, n) > 0);
        assert(g.accs[at] == accumulated(key, keys, args, funcs, n));
        let vals = key + finished(g.accs[at]);
        assert(listed[i] == vals);
        assert(result[i] == output_row(vals, out));
        lemma_has_members(gs, f, rows, key_cells(key));
        let r = choose|r: int|
            0 <= r < rows.len() && group_key(gs, f, #[trigger] rows[r]) == key_cells(key);
        assert(group_key(gs, f, rows[r]) == key_cells(key));
        assert(key.len() == nk) by {
            assert(key_cells(key).len() == key.len());
            assert(group_key(gs, f, rows[r]).len() == gs.len());
        }
        assert(result[i].take(nk) =~= key_cells(key)) by {
            assert forall|c: int| 0 <= c < nk implies result[i][c] == key_cells(key)[c] by {
                assert(scalar_decided(gs[c], f, rows));
                lemma_plain_scalar(gs[c], f, rows, r, convert(gs[c], f)->Ok_0);
                assert(key_cells(key)[c] == group_key(gs, f, rows[r])[c]);
                assert(normal_type(out[c].data_type) == type_of(gs[c], f)->Some_0);
                assert(vals[c] == key[c]);
            }
        }
        assert forall|a: int| 0 <= a < cs.len() implies (#[trigger] result[i][nk + a]
            matches Cell::Scalar(x) && aggregates_to(
            cs[a].0,
            argument_scalars(cs[a].1, f, members),
            x,
        )) by {
            let v = argument_scalars(cs[a].1, f, members);
            assert(aggregable(cs[a].0, v));
            rows.lemma_filter_len(|r: Seq<Cell>| group_key(gs, f, r) == key_cells(key));
            law_accumulator_aggregates(cs[a].0, v);
            let x = acc_finish(g.accs[at][a]);
            assert(vals[nk + a] == x);
            assert(call_decided(cs[a], f, rows));
            assert forall|k: int| 0 <= k < v.len() implies fits(
                argument_type(cs[a].1, f)->Some_0,
                Cell::Scalar(#[trigger] v[k]),
            ) by {
                lemma_member_is_row(
                    rows,
                    |r: Seq<Cell>| group_key(gs, f, r) == key_cells(key),
                    k,
                );
                let q = choose|q: int| 0 <= q < rows.len() && rows[q] == members[k];
                match cs[a].1 {
                    ArgView::Expr(e) => {
                        lemma_plain_scalar(e, f, rows, q, convert(e, f)->Ok_0);
                    },
                    _ => {},
                }
            }
            lemma_result_fits(cs[a], f, v, x);
            assert(normal_type(out[gs.len() + a].data_type) == result_type(cs[a], f));
        }
    }
    assert forall|r: int| 0 <= r < rows.len() implies exists|i: int|
        0 <= i < result.len() && (#[trigger] result[i]).take(nk) == group_key(
            gs,
            f,
            #[trigger] rows[r],
        ) by {
        lemma_row_keys(keys, args, funcs, gs, cs, f, rows, r);
        let key = key_at(keys, r);
        lemma_accumulated(key, keys, args, funcs, gs, cs, f, rows, n);
        lemma_has_members(gs, f, rows, key_cells(key));
        assert(rows_having(key, keys, n) > 0);
        assert(g.keys.contains(key));
        let k = choose|k: int| 0 <= k < g.keys.len() && g.keys[k] == key;
        assert(order.contains(k as usize));
        let i = choose|i: int| 0 <= i < order.len() && order[i] == k as usize;
        assert(result[i].take(nk) == key_cells(g.keys[order[i] as int]));
    }
    assert forall|i: int, j: int| 0 <= i < j < result.len() implies (#[trigger] result[i]).take(nk)
        != (#[trigger] result[j]).take(nk) by {
        let a = g.keys[order[i] as int];
        let b = g.keys[order[j] as int];
        assert(result[i].take(nk) == key_cells(a));
        assert(result[j].take(nk) == key_cells(b));
        if key_cells(a) == key_cells(b) {
            lemma_key_cells(a, b);
            assert(order[i] != order[j]);
        }
    }
    assert forall|k: int| 0 <= k < g.keys.len() implies group_of(
        gs,
        f,
        rows,
        key_cells(#[trigger] g.keys[k]),
    ).len() > 0 by {
        assert(order.contains(k as usize));
        let i = choose|i: int| 0 <= i < order.len() && order[i] == k as usize;
        assert(result[i].take(nk) == key_cells(g.keys[k]));
    }
    assert forall|i: int| 0 <= i < result.len() implies (#[trigger] result[i]).take(nk) == key_cells(
        g.keys[order[i] as int],
    ) && result[i].len() >= gs.len() by {
        let key = g.keys[order[i] as int];
        assert(is_group_row(
            result[i],
            key_cells(key),
            cs,
            f,
            group_of(gs, f, rows, key_cells(key)),
        ));
        lemma_key_width(key, gs, f, rows);
    }
    lemma_keys_ascend(result, g.keys, gs, cs, f, rows);
}

/// There are no more groups than rows.
proof fn lemma_group_count(
    keys: Seq<ColumnView>,
    args: Seq<ColumnView>,
    funcs: Seq<AggFunc>,
    n: nat,
)
    ensures
        gathered(keys, args, funcs, n) matches Outcome::Value(g) ==> g.keys.len() <= n,
    decreases n,
{
    if n > 0 {
        lemma_group_count(keys, args, funcs, (n - 1) as nat);
    }
}

/// Every aggregate of a whole table is one of numbers, but for COUNT.
pub open spec fn all_numeric(cs: Seq<(AggFunc, ArgView)>, f: Seq<FieldView>) -> bool {
    forall|a: int|
        0 <= a < cs.len() ==> (#[trigger] cs[a]).0 == AggFunc::Count || argument_type(cs[a].1, f)
            == Some(DataType::Int64) || argument_type(cs[a].1, f) == Some(DataType::Float64)
}

/// The row of an aggregation of a whole table.
proof fn lemma_total(
    args: Seq<ColumnView>,
    funcs: Seq<AggFunc>,
    cs: Seq<(AggFunc, ArgView)>,
    f: Seq<FieldView>,
    out: Seq<FieldView>,
    rows: Seq<Seq<Cell>>,
    totals: Seq<u64>,
)
    requires
        groupable(Seq::empty(), cs, f, rows),
        all_numeric(cs, f),
        planned_groups(Seq::empty(), args, funcs, Seq::empty(), cs, f, rows),
        takes_results(out, Seq::empty(), cs, f),
        forall|a: int|
            0 <= a < cs.len() ==> ((#[trigger] cs[a]).1 matches ArgView::Expr(e) ==> convert(e, f)
                is Ok),
    ensures
        rows.len() > 0 ==> is_total(seq![total_row(funcs, args, out, totals)], cs, f, rows),
        rows.len() == 0 ==> is_total(seq![output_row(blank_row(funcs, out), out)], cs, f, rows),
{
    let none = Seq::<SqlView>::empty();
    let row = if rows.len() > 0 {
        total_row(funcs, args, out, totals)
    } else {
        output_row(blank_row(funcs, out), out)
    };
    let result = seq![row];
    assert(result[0] == row);
    assert(row.len() == cs.len());
    assert forall|a: int| 0 <= a < cs.len() implies (#[trigger] result[0][a] matches Cell::Scalar(r)
        && totals_to(
        cs[a].0,
        argument_type(cs[a].1, f)->Some_0,
        arguments(cs[a].1, f, rows),
        r,
    )) by {
        let c = args[a];
        let t = argument_type(cs[a].1, f)->Some_0;
        let cells = arguments(cs[a].1, f, rows);
        assert(call_decided(cs[a], f, rows));
        assert(c.cells == cells && c.data_type == t);
        assert(funcs[a] == cs[a].0);
        assert(normal_type(out[none.len() + a].data_type) == result_type(cs[a], f));
        assert forall|i: int| 0 <= i < cells.len() implies fits(t, #[trigger] cells[i]) by {
            match cs[a].1 {
                ArgView::Expr(e) => { lemma_plain_scalar(e, f, rows, i, convert(e, f)->Ok_0); },
                _ => {},
            }
        }
        crate::written::aggregates::lemma_present(cells);
        if rows.len() > 0 {
            law_whole_column_aggregates(cs[a].0, c, totals[a]);
            let r = total_value(funcs[a], args[a], totals[a]);
            lemma_total_fits(cs[a], f, cells, r);
        } else {
            assert(cells.len() == 0);
        }
    }
}

/// What a function makes of a whole column has the type of its result.
proof fn lemma_total_fits(
    c: (AggFunc, ArgView),
    f: Seq<FieldView>,
    cells: Seq<Cell>,
    r: ScalarView,
)
    requires
        argument_type(c.1, f) matches Some(t) && totals_to(c.0, t, cells, r) && (c.0
            == AggFunc::Count || t == DataType::Int64 || t == DataType::Float64) && forall|i: int|
            0 <= i < cells.len() ==> fits(t, #[trigger] cells[i]),
    ensures
        output_cell(r, result_type(c, f)) == Cell::Scalar(r),
{
    crate::written::aggregates::lemma_present(cells);
    let t = argument_type(c.1, f)->Some_0;
    let vals = crate::written::aggregates::present(cells);
    if (c.0 == AggFunc::Min || c.0 == AggFunc::Max) && vals.len() > 0 {
        let k = choose|k: int| 0 <= k < vals.len() && vals[k] == Cell::Scalar(r);
        assert(cells.contains(vals[k]));
        let j = choose|j: int| 0 <= j < cells.len() && cells[j] == vals[k];
        assert(fits(t, cells[j]));
    }
}

/// The GROUP BY keys of a SELECT.
pub open spec fn group_keys(select: SelectView) -> Seq<SqlView> {
    match select.group_by {
        GroupByView::Expressions(gs) => gs,
        _ => Seq::empty(),
    }
}

/// The rows that a SELECT aggregates: of the rows of FROM those in which WHERE is TRUE.
pub open spec fn aggregated_rows(
    select: SelectView,
    catalog: Map<Seq<char>, Seq<FieldView>>,
    t: Map<Seq<char>, Seq<Seq<Cell>>>,
) -> Seq<Seq<Cell>> {
    let n = select.from[0].joins.len();
    let fields = from_fields(select.from[0], catalog, n);
    from_rows(select.from[0], catalog, t, n).filter(
        |r: Seq<Cell>| is_kept(select.selection, fields, r),
    )
}

/// WHERE can be decided, GROUP BY and the arguments of the aggregates have values, and the aggregates
/// have a value on them.
pub open spec fn can_aggregate(
    select: SelectView,
    catalog: Map<Seq<char>, Seq<FieldView>>,
    t: Map<Seq<char>, Seq<Seq<Cell>>>,
) -> bool {
    let n = select.from[0].joins.len();
    let fields = from_fields(select.from[0], catalog, n);
    let rows = aggregated_rows(select, catalog, t);
    let gs = group_keys(select);
    let cs = calls(select.projection);
    &&& select.selection matches Some(e) ==> decided(
        e,
        fields,
        from_rows(select.from[0], catalog, t, n),
    )
    &&& groupable(gs, cs, fields, rows)
    &&& rows.len() <= usize::MAX
    &&& if gs.len() > 0 {
        all_aggregable(cs, fields, rows)
    } else {
        all_numeric(cs, fields)
    }
}

/// Law: a planned SELECT with aggregates means, with GROUP BY, one row for each key that the rows of
/// FROM have in which WHERE is TRUE: the key, and what each aggregate makes of the rows with that
/// key. Without GROUP BY it means one row, of what each aggregate makes of all those rows.
pub proof fn law_aggregation_gives_written_rows(
    select: SelectView,
    catalog: Map<Seq<char>, Seq<FieldView>>,
    t: Map<Seq<char>, Seq<Seq<Cell>>>,
    o: Sums,
)
    requires
        select_plan(select, catalog) is Ok,
        lists_aggregate(select.projection) || group_keys(select).len() > 0,
        tables_typed(catalog, t),
        is_normal(catalog),
        linked(select.from[0], catalog, t),
        can_aggregate(select, catalog, t),
    ensures
        ({
            let out = meaning(where_below(select_plan(select, catalog)->Ok_0), t, o);
            let f = from_fields(select.from[0], catalog, select.from[0].joins.len());
            let rows = aggregated_rows(select, catalog, t);
            let cs = calls(select.projection);
            if group_keys(select).len() > 0 {
                is_grouped(out, group_keys(select), cs, f, rows)
            } else {
                is_total(out, cs, f, rows)
            }
        }),
{
    let p = select_plan(select, catalog)->Ok_0;
    let from = from_plan(select.from[0], catalog)->Ok_0;
    let n = select.from[0].joins.len();
    let f = from_fields(select.from[0], catalog, n);
    let all = from_rows(select.from[0], catalog, t, n);
    let rows = aggregated_rows(select, catalog, t);
    let gs = group_keys(select);
    let cs = calls(select.projection);
    let want = |r: Seq<Cell>| is_kept(select.selection, f, r);
    law_from_gives_joined_rows(select.from[0], catalog, t, o.first());
    assert(from.1 == f);
    assert(aggregation(select, gs, from.0, f) == Ok::<_, crate::error::ErrorView>(p));
    let below = where_filter(select.selection, from.0, f)->Ok_0;
    assert(meaning(below, t, o.first()) == rows && fields_of(below) == f) by {
        match select.selection {
            None => { lemma_filter_all(all, want); },
            Some(e) => {
                law_where_selects(e, f, f, all);
                assert((|r: Seq<Cell>| is_true(e, f, r)) =~= want);
            },
        }
    }
    let group_by = convert_all(gs, f)->Ok_0;
    let outs = aggregate_outputs(select.projection, group_by, f)->Ok_0;
    let kf = key_fields(group_by, f)->Ok_0;
    let listed = listed_aggregates(select.projection, f)->Ok_0;
    lemma_calls(select.projection, f);
    assert(outs.0 == listed.0 && outs.1 == kf + listed.1);
    assert(group_by.len() == gs.len() && kf.len() == gs.len()) by {
        if gs.len() > 0 {
            lemma_group_keys(gs, f, 0);
            lemma_key_types(group_by, f, 0);
        }
    }
    let keys = value_columns(group_by, f, rows);
    let args = argument_columns(outs.0, f, rows);
    let funcs = agg_funcs(outs.0);
    assert forall|c: int| 0 <= c < gs.len() implies convert(#[trigger] gs[c], f) is Ok by {
        lemma_group_keys(gs, f, c);
    }
    assert forall|a: int| 0 <= a < cs.len() implies ((#[trigger] cs[a]).1 matches ArgView::Expr(e)
        ==> convert(e, f) is Ok) by {
        assert(plans_call(outs.0[a], cs[a], f, listed.1[a]));
    }
    assert(planned_groups(keys, args, funcs, gs, cs, f, rows)) by {
        assert forall|c: int, r: int|
            0 <= c < gs.len() && 0 <= r < rows.len() implies #[trigger] keys[c].cells[r] == value_of(
            gs[c],
            f,
            rows[r],
        ) by {
            lemma_group_keys(gs, f, c);
            assert(scalar_decided(gs[c], f, rows));
            lemma_plain_scalar(gs[c], f, rows, r, convert(gs[c], f)->Ok_0);
        }
        assert forall|c: int| 0 <= c < gs.len() implies (#[trigger] keys[c]).cells.len() == rows.len()
            && keys[c].data_type == type_of(gs[c], f)->Some_0 by {
            lemma_group_keys(gs, f, c);
            assert(scalar_decided(gs[c], f, rows));
            lemma_written_type(gs[c], f, f);
        }
        assert forall|a: int| 0 <= a < cs.len() implies (#[trigger] args[a]).cells == arguments(
            cs[a].1,
            f,
            rows,
        ) && args[a].data_type == argument_type(cs[a].1, f)->Some_0 by {
            assert(plans_call(outs.0[a], cs[a], f, listed.1[a]));
            assert(call_decided(cs[a], f, rows));
            match cs[a].1 {
                ArgView::Expr(e) => {
                    lemma_written_type(e, f, f);
                    lemma_not_wildcard(e, f);
                    assert forall|r: int| 0 <= r < rows.len() implies args[a].cells[r]
                        == arguments(cs[a].1, f, rows)[r] by {
                        lemma_plain_scalar(e, f, rows, r, convert(e, f)->Ok_0);
                    }
                },
                _ => {},
            }
            assert(args[a].cells =~= arguments(cs[a].1, f, rows));
        }
        assert forall|a: int| 0 <= a < cs.len() implies #[trigger] funcs[a] == cs[a].0 by {
            assert(plans_call(outs.0[a], cs[a], f, listed.1[a]));
        }
    }
    assert(takes_results(outs.1, gs, cs, f)) by {
        assert forall|c: int| 0 <= c < gs.len() implies normal_type((#[trigger] outs.1[c]).data_type)
            == type_of(gs[c], f)->Some_0 by {
            lemma_group_keys(gs, f, c);
            lemma_key_types(group_by, f, c);
            assert(scalar_decided(gs[c], f, rows));
            lemma_inferred(gs[c], f);
            assert(outs.1[c] == kf[c]);
        }
        assert forall|a: int| 0 <= a < cs.len() implies normal_type(
            (#[trigger] outs.1[gs.len() + a]).data_type,
        ) == result_type(cs[a], f) by {
            assert(outs.1[gs.len() + a] == listed.1[a]);
            assert(plans_call(outs.0[a], cs[a], f, listed.1[a]));
            assert(call_decided(cs[a], f, rows));
            match cs[a].1 {
                ArgView::Expr(e) => { lemma_inferred(e, f); },
                _ => {},
            }
        }
    }
    assert(where_below(p) == p);
    let out = meaning(p, t, o);
    let totals = o.totals(outs.0.len());
    assert(out == aggregate_rows(group_by, outs.0, outs.1, f, rows, totals));
    if gs.len() > 0 {
        if rows.len() > 0 {
            lemma_grouped(keys, args, funcs, gs, cs, f, outs.1, rows);
        }
    } else {
        assert(gs =~= Seq::empty());
        assert(keys =~= Seq::empty());
        lemma_total(args, funcs, cs, f, outs.1, rows, totals);
    }
}

/// An expression with a type is not planned as a star.
proof fn lemma_not_wildcard(e: SqlView, f: Seq<FieldView>)
    requires
        convert(e, f) is Ok,
        type_of(e, f) is Some,
    ensures
        convert(e, f)->Ok_0 != ExprView::Wildcard,
    decreases e,
{
    match e {
        SqlView::Identifier(_) => {
            crate::written::conditions::lemma_named_column(e, f, f);
        },
        SqlView::Nested(inner) => { lemma_not_wildcard(*inner, f); },
        _ => {},
    }
}

} // verus!
