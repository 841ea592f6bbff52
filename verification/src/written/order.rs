//! The rows of a query in the order of ORDER BY, and as many as LIMIT allows.

use vstd::prelude::*;
use crate::executor::batch::kernels::sortable;
use crate::executor::batch::{fits, null_cell, Cell};
use crate::executor::sums::Sums;
use crate::parser::ast::{OrderByView, QueryView, SqlView, ValueView};
use crate::planner::expressions::convert;
use crate::planner::logical_plan::PlanView;
use crate::planner::query::{limit_number, limited, ordered, sort_keys};
use crate::semantics::operators::{law_sort_keeps_rows, law_sort_puts_in_order, rows_order};
use crate::semantics::where_below::{lemma_where_below_fields, where_below};
use crate::semantics::{fields_of, first_of, meaning, sort_columns, sorted_of};
use crate::order::Order;
use crate::text::numeral;
use crate::types::{names, DataType, FieldView};
use crate::written::conditions::{
    law_expressions_have_their_value, law_values_are_ordered, lemma_written_type,
};
use crate::written::{divides, row_fits, type_of, value_before, value_of};

verus! {

/// By ORDER BY the first row may come before the second: at the first key in which they differ it has
/// the lesser value, or the greater one where DESC is written. A NULL comes last either way.
pub open spec fn may_precede(
    order: Seq<OrderByView>,
    fields: Seq<FieldView>,
    a: Seq<Cell>,
    b: Seq<Cell>,
) -> bool
    decreases order.len(),
{
    if order.len() == 0 {
        true
    } else {
        let x = value_of(order[0].expr, fields, a);
        let y = value_of(order[0].expr, fields, b);
        if x == y {
            may_precede(order.skip(1), fields, a, b)
        } else if y == null_cell() {
            true
        } else if x == null_cell() {
            false
        } else if order[0].asc == Some(false) {
            value_before(y, x)
        } else {
            value_before(x, y)
        }
    }
}

/// The second list has the rows of the first, in the order of ORDER BY.
pub open spec fn is_sorted(
    order: Seq<OrderByView>,
    fields: Seq<FieldView>,
    rows: Seq<Seq<Cell>>,
    sorted: Seq<Seq<Cell>>,
) -> bool {
    &&& sorted.len() == rows.len()
    &&& sorted.to_multiset() == rows.to_multiset()
    &&& order.len() == 0 ==> sorted == rows
    &&& forall|i: int, j: int|
        0 <= i < j < sorted.len() ==> may_precede(
            order,
            fields,
            #[trigger] sorted[i],
            #[trigger] sorted[j],
        )
}

/// Every key of ORDER BY has a value in every row, of a type that has an order.
pub open spec fn keys_decided(
    order: Seq<OrderByView>,
    fields: Seq<FieldView>,
    rows: Seq<Seq<Cell>>,
) -> bool {
    &&& forall|k: int|
        0 <= k < order.len() ==> type_of((#[trigger] order[k]).expr, fields) is Some && type_of(
            order[k].expr,
            fields,
        ) != Some(DataType::Null)
    &&& forall|k: int, i: int|
        0 <= k < order.len() && 0 <= i < rows.len() ==> divides(
            (#[trigger] order[k]).expr,
            fields,
            #[trigger] rows[i],
        )
    &&& forall|i: int| 0 <= i < rows.len() ==> row_fits(fields, #[trigger] rows[i])
}

/// Each sort key is the expression of its ORDER BY key.
proof fn lemma_keys_converted(order: Seq<OrderByView>, schema: Seq<FieldView>, k: int)
    requires
        sort_keys(order, schema) is Ok,
        0 <= k < order.len(),
    ensures
        sort_keys(order, schema)->Ok_0.len() == order.len(),
        convert(order[k].expr, schema) is Ok,
        sort_keys(order, schema)->Ok_0[k].expr == convert(order[k].expr, schema)->Ok_0,
        sort_keys(order, schema)->Ok_0[k].asc == (order[k].asc != Some(false)),
        order.len() > 0 ==> sort_keys(order, schema)->Ok_0.skip(1) == sort_keys(
            order.skip(1),
            schema,
        )->Ok_0 && sort_keys(order.skip(1), schema) is Ok,
    decreases order.len(),
{
    let rest = order.skip(1);
    let all = sort_keys(order, schema)->Ok_0;
    let tail = sort_keys(rest, schema)->Ok_0;
    assert(all.skip(1) =~= tail);
    if rest.len() == 0 {
        assert(tail.len() == 0);
    } else {
        lemma_keys_converted(rest, schema, 0);
    }
    if k > 0 {
        lemma_keys_converted(rest, schema, k - 1);
        assert(rest[k - 1] == order[k]);
        assert(all[k] == tail[k - 1]);
    }
}

/// A row that the sort keys do not put after another may come before it.
proof fn lemma_may_precede(
    order: Seq<OrderByView>,
    schema: Seq<FieldView>,
    f: Seq<FieldView>,
    a: Seq<Cell>,
    b: Seq<Cell>,
)
    requires
        sort_keys(order, schema) is Ok,
        names(f) == names(schema),
        keys_decided(order, f, seq![a, b]),
        rows_order(sort_keys(order, schema)->Ok_0, f, a, b) != Order::Greater,
    ensures
        may_precede(order, f, a, b),
    decreases order.len(),
{
    if order.len() > 0 {
        let rows = seq![a, b];
        let es = sort_keys(order, schema)->Ok_0;
        let e = order[0].expr;
        let rest = order.skip(1);
        lemma_keys_converted(order, schema, 0);
        assert(rows[0] == a && rows[1] == b);
        assert(row_fits(f, rows[0]) && row_fits(f, rows[1]));
        assert(divides(order[0].expr, f, rows[0]) && divides(order[0].expr, f, rows[1]));
        law_expressions_have_their_value(e, schema, f, a);
        law_expressions_have_their_value(e, schema, f, b);
        let x = value_of(e, f, a);
        let y = value_of(e, f, b);
        let t = type_of(e, f)->Some_0;
        if x != null_cell() && y != null_cell() {
            law_values_are_ordered(t, x, y);
        }
        if x == y {
            assert(keys_decided(rest, f, rows)) by {
                assert forall|k: int| 0 <= k < rest.len() implies type_of(
                    (#[trigger] rest[k]).expr,
                    f,
                ) is Some && type_of(rest[k].expr, f) != Some(DataType::Null) by {
                    assert(rest[k] == order[k + 1]);
                }
                assert forall|k: int, i: int|
                    0 <= k < rest.len() && 0 <= i < rows.len() implies divides(
                    (#[trigger] rest[k]).expr,
                    f,
                    #[trigger] rows[i],
                ) by {
                    assert(rest[k] == order[k + 1]);
                }
            }
            lemma_may_precede(rest, schema, f, a, b);
        }
    }
}

/// Law: ORDER BY keeps the rows, and puts them in the order that is written: ascending by each key,
/// unless DESC is written behind it.
pub proof fn law_order_by_sorts(
    order: Seq<OrderByView>,
    schema: Seq<FieldView>,
    f: Seq<FieldView>,
    rows: Seq<Seq<Cell>>,
)
    requires
        sort_keys(order, schema) is Ok,
        order.len() > 0,
        names(f) == names(schema),
        keys_decided(order, f, rows),
        rows.len() <= usize::MAX,
    ensures
        is_sorted(order, f, rows, sorted_of(sort_keys(order, schema)->Ok_0, f, rows)),
{
    let es = sort_keys(order, schema)->Ok_0;
    let out = sorted_of(es, f, rows);
    let keys = sort_columns(es, f, rows);
    lemma_keys_converted(order, schema, 0);
    assert(sortable(keys)) by {
        assert forall|k: int| 0 <= k < keys.len() implies {
            &&& (#[trigger] keys[k]).column.cells.len() == keys[0].column.cells.len()
            &&& keys[k].column.data_type != DataType::Null
            &&& crate::executor::batch::well_typed(keys[k].column)
        } by {
            lemma_keys_converted(order, schema, k);
            let e = order[k].expr;
            assert(type_of(order[k].expr, f) is Some);
            lemma_written_type(e, schema, f);
            assert forall|i: int| 0 <= i < rows.len() implies fits(
                keys[k].column.data_type,
                #[trigger] keys[k].column.cells[i],
            ) by {
                assert(row_fits(f, rows[i]));
                assert(divides(order[k].expr, f, rows[i]));
                law_expressions_have_their_value(e, schema, f, rows[i]);
            }
        }
    }
    law_sort_keeps_rows(es, f, rows);
    law_sort_puts_in_order(es, f, rows);
    assert forall|i: int, j: int| 0 <= i < j < out.len() implies may_precede(
        order,
        f,
        #[trigger] out[i],
        #[trigger] out[j],
    ) by {
        lemma_same_rows(out, rows, i);
        lemma_same_rows(out, rows, j);
        let a = choose|a: int| 0 <= a < rows.len() && rows[a] == out[i];
        let b = choose|b: int| 0 <= b < rows.len() && rows[b] == out[j];
        let two = seq![out[i], out[j]];
        assert(keys_decided(order, f, two)) by {
            assert forall|k: int, c: int|
                0 <= k < order.len() && 0 <= c < two.len() implies divides(
                (#[trigger] order[k]).expr,
                f,
                #[trigger] two[c],
            ) by {
                let at = if c == 0 { a } else { b };
                assert(divides(order[k].expr, f, rows[at]));
            }
            assert forall|c: int| 0 <= c < two.len() implies row_fits(f, #[trigger] two[c]) by {
                let at = if c == 0 { a } else { b };
                assert(row_fits(f, rows[at]));
            }
        }
        lemma_may_precede(order, schema, f, out[i], out[j]);
    }
}

/// A row of one list is in another that has the same rows.
proof fn lemma_same_rows(out: Seq<Seq<Cell>>, rows: Seq<Seq<Cell>>, i: int)
    requires
        out.to_multiset() == rows.to_multiset(),
        0 <= i < out.len(),
    ensures
        rows.contains(out[i]),
{
    broadcast use vstd::seq_lib::group_to_multiset_ensures;
    assert(out.contains(out[i]));
    assert(out.to_multiset().count(out[i]) > 0);
}

/// The rows that LIMIT leaves: the first ones, as many as the number says.
pub open spec fn first_written(rows: Seq<Seq<Cell>>, limit: Option<SqlView>) -> Seq<Seq<Cell>> {
    match limit {
        Some(SqlView::Value(ValueView::Number(s))) => match numeral(s, false) {
            Some(n) => if n < rows.len() { rows.take(n) } else { rows },
            None => rows,
        },
        _ => rows,
    }
}

/// ORDER BY and LIMIT above a plan, which means some rows with some fields.
pub proof fn lemma_ordered_and_limited(
    query: QueryView,
    plan: PlanView,
    t: Map<Seq<char>, Seq<Seq<Cell>>>,
    o: Sums,
)
    requires
        ordered(plan, query.order_by) is Ok,
        limited(ordered(plan, query.order_by)->Ok_0, query.limit) is Ok,
        names(plan.schema()) == names(fields_of(plan)),
        keys_decided(
            query.order_by,
            fields_of(plan),
            meaning(where_below(plan), t, o),
        ),
        meaning(where_below(plan), t, o).len() <= usize::MAX,
    ensures
        ({
            let p = limited(ordered(plan, query.order_by)->Ok_0, query.limit)->Ok_0;
            &&& fields_of(p) == fields_of(plan)
            &&& exists|sorted: Seq<Seq<Cell>>|
                {
                    &&& #[trigger] is_sorted(
                        query.order_by,
                        fields_of(plan),
                        meaning(where_below(plan), t, o),
                        sorted,
                    )
                    &&& meaning(where_below(p), t, o) == first_written(sorted, query.limit)
                }
        }),
{
    let order = query.order_by;
    let rows = meaning(where_below(plan), t, o);
    let f = fields_of(plan);
    let above = ordered(plan, order)->Ok_0;
    let p = limited(above, query.limit)->Ok_0;
    lemma_where_below_fields(plan);
    let sorted = meaning(where_below(above), t, o);
    if order.len() > 0 {
        let es = sort_keys(order, plan.schema())->Ok_0;
        law_order_by_sorts(order, plan.schema(), f, rows);
        assert(where_below(above) == PlanView::Sort {
            exprs: es,
            input: Box::new(where_below(plan)),
        });
        assert(sorted == sorted_of(es, f, rows));
    }
    assert(fields_of(above) == f);
    assert(fields_of(p) == fields_of(above));
    assert(is_sorted(order, f, rows, sorted));
    match query.limit {
        None => {},
        Some(e) => {
            let n = limit_number(e)->Ok_0;
            assert(where_below(p) == PlanView::Limit { n, input: Box::new(where_below(above)) });
            assert(meaning(where_below(p), t, o) == first_of(sorted, n as nat));
            if sorted.len() == n {
                assert(sorted.take(n as int) =~= sorted);
            }
        },
    }
    assert(meaning(where_below(p), t, o) == first_written(sorted, query.limit));
}

} // verus!
