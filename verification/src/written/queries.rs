//! Whole queries: the rows and the fields that they ask for are those that planning, optimizing and
//! running them give.

use vstd::prelude::*;
use vstd::pervasive::arbitrary;
use crate::executor::aggregate::output_cell;
use crate::executor::batch::{fits, normal_fields, normal_type, Cell, Outcome};
use crate::executor::physical::built;
use crate::executor::sums::Sums;
use crate::executor::Stream;
use crate::optimizer::optimized;
use crate::parser::ast::{ArgView, ItemView, QueryView, SelectView, SetExprView, StatementView};
use crate::planner::expressions::{convert, last_part};
use crate::planner::logical_plan::{AggFunc, PlanView};
use crate::planner::query::{
    aggregate_outputs, aggregation, belongs, convert_all, from_plan, item_aggregates, item_outputs,
    key_fields, listed_aggregates, planned, relation_outputs, select_plan, selection_plan,
    simple_outputs,
};
use crate::semantics::execution::flat_rows;
use crate::semantics::laws::serves;
use crate::semantics::planned::{law_optimized_queries_give_rows, tables_fit, well_joined};
use crate::semantics::where_below::where_below;
use crate::semantics::{expr_type, fields_of, meaning, output_row};
use crate::types::{lemma_position, names, DataType, FieldView};
use crate::written::conditions::{law_expressions_have_their_value, lemma_written_type};
use crate::written::groups::{
    aggregated_rows, calls, can_aggregate, group_keys, is_grouped, is_total, item_call,
    law_aggregation_gives_written_rows, lemma_call, lemma_calls, lemma_group_keys, lemma_inferred,
    lemma_key_types, result_type, scalar_decided, writes_no_null,
};
use crate::written::order::{first_written, is_sorted, keys_decided, lemma_ordered_and_limited};
use crate::written::selection::{
    is_kept, is_plain, item_decided, item_values, items_decided, law_select_gives_written_rows,
    lemma_own_label, own_label, readable, select_rows, selected,
};
use crate::written::tables::{
    from_fields, from_rows, is_normal, law_from_gives_joined_rows, lemma_filter_fits, linked,
    rows_fit, tables_typed,
};
use crate::written::{divides, row_fits, type_of};

verus! {

/// The fields that have the qualifier, in order.
pub open spec fn fields_under(fields: Seq<FieldView>, qualifier: Seq<char>) -> Seq<FieldView>
    decreases fields.len(),
{
    if fields.len() == 0 {
        Seq::empty()
    } else {
        let rest = fields_under(fields.drop_last(), qualifier);
        if exists|name: Seq<char>| fields.last().name == #[trigger] (qualifier + "."@) + name {
            rest.push(fields.last())
        } else {
            rest
        }
    }
}

/// The fields that an item of a SELECT list gives.
pub open spec fn item_fields(item: ItemView, fields: Seq<FieldView>) -> Seq<FieldView> {
    match item {
        ItemView::Unnamed(e) => seq![
            FieldView { name: own_label(e, fields), data_type: type_of(e, fields)->Some_0 },
        ],
        ItemView::Aliased { expr, alias } => seq![
            FieldView { name: alias, data_type: type_of(expr, fields)->Some_0 },
        ],
        ItemView::Wildcard => fields,
        ItemView::QualifiedWildcard(parts) => fields_under(
            fields,
            if parts.len() == 0 { Seq::empty() } else { parts.last() },
        ),
    }
}

/// The fields that a SELECT list gives, without aggregates.
pub open spec fn listed_fields(items: Seq<ItemView>, fields: Seq<FieldView>) -> Seq<FieldView>
    decreases items.len(),
{
    if items.len() == 0 {
        Seq::empty()
    } else {
        item_fields(items[0], fields) + listed_fields(items.skip(1), fields)
    }
}

/// What an aggregate without a label is called: its function, in small letters.
pub open spec fn function_label(func: AggFunc) -> Seq<char> {
    match func {
        AggFunc::Count => "count"@,
        AggFunc::Sum => "sum"@,
        AggFunc::Avg => "avg"@,
        AggFunc::Min => "min"@,
        AggFunc::Max => "max"@,
    }
}

/// The fields of the aggregates of a SELECT list, in order.
pub open spec fn call_fields(items: Seq<ItemView>, fields: Seq<FieldView>) -> Seq<FieldView>
    decreases items.len(),
{
    if items.len() == 0 {
        Seq::empty()
    } else {
        let rest = call_fields(items.skip(1), fields);
        match item_call(items[0]) {
            Some(c) => seq![
                FieldView {
                    name: match items[0] {
                        ItemView::Aliased { alias, .. } => alias,
                        _ => function_label(c.0),
                    },
                    data_type: result_type(c, fields),
                },
            ] + rest,
            None => rest,
        }
    }
}

/// The fields of the rows that a SELECT gives: those of its list, or GROUP BY keys and aggregates.
pub open spec fn result_fields(
    select: SelectView,
    catalog: Map<Seq<char>, Seq<FieldView>>,
) -> Seq<FieldView> {
    let f = from_fields(select.from[0], catalog, select.from[0].joins.len());
    let gs = group_keys(select);
    if is_plain(select) {
        listed_fields(select.projection, f)
    } else {
        Seq::new(
            gs.len(),
            |c: int| FieldView { name: own_label(gs[c], f), data_type: type_of(gs[c], f)->Some_0 },
        ) + call_fields(select.projection, f)
    }
}

/// What the query writes can be evaluated over the tables.
pub open spec fn can_answer(
    select: SelectView,
    catalog: Map<Seq<char>, Seq<FieldView>>,
    t: Map<Seq<char>, Seq<Seq<Cell>>>,
) -> bool {
    let n = select.from[0].joins.len();
    let f = from_fields(select.from[0], catalog, n);
    &&& tables_typed(catalog, t)
    &&& is_normal(catalog)
    &&& linked(select.from[0], catalog, t)
    &&& if is_plain(select) {
        &&& readable(select, f, from_rows(select.from[0], catalog, t, n))
        &&& items_typed(select.projection, f)
    } else {
        can_aggregate(select, catalog, t)
    }
}

/// Every item of a SELECT list has a type.
pub open spec fn items_typed(items: Seq<ItemView>, f: Seq<FieldView>) -> bool {
    forall|i: int|
        0 <= i < items.len() ==> match #[trigger] items[i] {
            ItemView::Unnamed(e) => type_of(e, f) is Some,
            ItemView::Aliased { expr, .. } => type_of(expr, f) is Some,
            _ => true,
        }
}

/// The rows are those of the SELECT, before ORDER BY and LIMIT.
pub open spec fn is_select_result(
    out: Seq<Seq<Cell>>,
    select: SelectView,
    catalog: Map<Seq<char>, Seq<FieldView>>,
    t: Map<Seq<char>, Seq<Seq<Cell>>>,
) -> bool {
    let f = from_fields(select.from[0], catalog, select.from[0].joins.len());
    if is_plain(select) {
        out == select_rows(select, catalog, t)
    } else if group_keys(select).len() > 0 {
        is_grouped(
            out,
            group_keys(select),
            calls(select.projection),
            f,
            aggregated_rows(select, catalog, t),
        )
    } else {
        is_total(out, calls(select.projection), f, aggregated_rows(select, catalog, t))
    }
}

/// The rows answer the query: they are the rows of the SELECT in the order of ORDER BY, as many as
/// LIMIT allows.
pub open spec fn is_answer(
    out: Seq<Seq<Cell>>,
    query: QueryView,
    select: SelectView,
    catalog: Map<Seq<char>, Seq<FieldView>>,
    t: Map<Seq<char>, Seq<Seq<Cell>>>,
) -> bool {
    exists|unsorted: Seq<Seq<Cell>>, sorted: Seq<Seq<Cell>>|
        {
            &&& #[trigger] is_sorted(
                query.order_by,
                result_fields(select, catalog),
                unsorted,
                sorted,
            )
            &&& is_select_result(unsorted, select, catalog, t)
            &&& out == first_written(sorted, query.limit)
        }
}

/// The fields of the planned outputs of an item.
proof fn lemma_relation_fields(schema: Seq<FieldView>, whole: Seq<FieldView>, q: Seq<char>)
    requires
        names(whole).no_duplicates(),
        schema.len() <= whole.len(),
        schema == whole.take(schema.len() as int),
    ensures
        ({
            let o = relation_outputs(schema, q);
            &&& o.0.len() == o.1.len()
            &&& o.1 == fields_under(schema, q)
            &&& forall|j: int|
                0 <= j < o.0.len() ==> expr_type(#[trigger] o.0[j], whole) == o.1[j].data_type
        }),
    decreases schema.len(),
{
    let o = relation_outputs(schema, q);
    if schema.len() > 0 {
        let n = schema.len() - 1;
        let init = schema.drop_last();
        assert(init =~= whole.take(init.len() as int));
        lemma_relation_fields(init, whole, q);
        let rest = relation_outputs(init, q);
        let name = schema.last().name;
        let p = q + "."@;
        assert(schema.last() == whole[n]);
        assert(names(whole)[n] == name);
        if belongs(name, q) {
            let tail = name.skip(p.len() as int);
            assert(name =~= p + tail);
            reveal_strlit(".");
            assert(q + "."@ + tail =~= name);
            lemma_position(names(whole), name);
            assert(names(whole).contains(name));
            let at = crate::types::position(names(whole), name)->Some_0;
            assert(at == n);
            assert forall|j: int| 0 <= j < o.0.len() implies expr_type(#[trigger] o.0[j], whole)
                == o.1[j].data_type by {
                if j < rest.0.len() {
                    assert(o.0[j] == rest.0[j] && o.1[j] == rest.1[j]);
                }
            }
        } else {
            if exists|m: Seq<char>| name == #[trigger] (q + "."@) + m {
                let m = choose|m: Seq<char>| name == #[trigger] (q + "."@) + m;
                assert(name.take(p.len() as int) =~= p);
            }
        }
    } else {
        assert(o.1 =~= fields_under(schema, q));
    }
}

/// The fields of a planned SELECT list are those that it writes.
proof fn lemma_listed_fields(items: Seq<ItemView>, f: Seq<FieldView>)
    requires
        simple_outputs(items, f) is Ok,
        names(f).no_duplicates(),
        items_typed(items, f),
    ensures
        ({
            let o = simple_outputs(items, f)->Ok_0;
            &&& o.0.len() == o.1.len()
            &&& listed_fields(items, f).len() == o.1.len()
            &&& forall|j: int|
                0 <= j < o.0.len() ==> (#[trigger] listed_fields(items, f)[j]).name == o.1[j].name
                    && listed_fields(items, f)[j].data_type == expr_type(o.0[j], f)
        }),
    decreases items.len(),
{
    let o = simple_outputs(items, f)->Ok_0;
    if items.len() > 0 {
        let rest = items.skip(1);
        assert(items_typed(rest, f)) by {
            assert forall|i: int| 0 <= i < rest.len() implies match #[trigger] rest[i] {
                ItemView::Unnamed(e) => type_of(e, f) is Some,
                ItemView::Aliased { expr, .. } => type_of(expr, f) is Some,
                _ => true,
            } by {
                assert(rest[i] == items[i + 1]);
            }
        }
        lemma_listed_fields(rest, f);
        let head = item_outputs(items[0], f)->Ok_0;
        let tail = simple_outputs(rest, f)->Ok_0;
        let hf = item_fields(items[0], f);
        let item = items[0];
        assert(head.0.len() == head.1.len() && hf.len() == head.1.len() && forall|j: int|
            0 <= j < head.0.len() ==> (#[trigger] hf[j]).name == head.1[j].name && hf[j].data_type
                == expr_type(head.0[j], f)) by {
            match item {
                ItemView::Unnamed(e) => {
                    lemma_own_label(e, f, f);
                    lemma_written_type(e, f, f);
                },
                ItemView::Aliased { expr, .. } => { lemma_written_type(expr, f, f); },
                ItemView::Wildcard => {
                    assert forall|j: int| 0 <= j < f.len() implies (#[trigger] hf[j]).name
                        == head.1[j].name && hf[j].data_type == expr_type(head.0[j], f) by {
                        assert(names(f)[j] == f[j].name);
                        lemma_position(names(f), f[j].name);
                        assert(names(f).contains(names(f)[j]));
                    }
                },
                ItemView::QualifiedWildcard(parts) => {
                    assert(f.take(f.len() as int) =~= f);
                    lemma_relation_fields(f, f, last_part(parts));
                },
            }
        }
        assert forall|j: int| 0 <= j < o.0.len() implies (#[trigger] listed_fields(items, f)[j]).name
            == o.1[j].name && listed_fields(items, f)[j].data_type == expr_type(o.0[j], f) by {
            if j < head.0.len() {
                assert(listed_fields(items, f)[j] == hf[j]);
                assert(o.0[j] == head.0[j] && o.1[j] == head.1[j]);
            } else {
                let k = j - head.0.len();
                assert(listed_fields(items, f)[j] == listed_fields(rest, f)[k]);
                assert(o.0[j] == tail.0[k] && o.1[j] == tail.1[k]);
            }
        }
    }
}

/// The fields of planned aggregates are those that the SELECT list writes.
proof fn lemma_call_fields(items: Seq<ItemView>, f: Seq<FieldView>)
    requires
        listed_aggregates(items, f) is Ok,
        forall|a: int|
            0 <= a < calls(items).len() ==> ((#[trigger] calls(items)[a]).1 matches ArgView::Expr(e)
                ==> type_of(e, f) is Some && writes_no_null(e)),
        forall|a: int|
            0 <= a < calls(items).len() ==> ((#[trigger] calls(items)[a]).1 is Wildcard ==> calls(
                items,
            )[a].0 == AggFunc::Count),
    ensures
        listed_aggregates(items, f)->Ok_0.1 == call_fields(items, f),
    decreases items.len(),
{
    let o = listed_aggregates(items, f)->Ok_0;
    if items.len() > 0 {
        let rest = items.skip(1);
        let item = items[0];
        let head = item_aggregates(item, f)->Ok_0;
        let tail = listed_aggregates(rest, f)->Ok_0;
        let all = calls(items);
        let after = calls(rest);
        let e = match item {
            ItemView::Unnamed(e) => e,
            ItemView::Aliased { expr, .. } => expr,
            _ => arbitrary(),
        };
        lemma_call(e, f);
        if item_call(item) is Some {
            assert(all[0] == item_call(item)->Some_0);
            assert forall|a: int| 0 <= a < after.len() implies #[trigger] after[a] == all[a + 1] by {}
            match all[0].1 {
                ArgView::Expr(x) => { lemma_inferred(x, f); },
                _ => {},
            }
        } else {
            assert(all == after);
        }
        assert forall|a: int| 0 <= a < after.len() implies ((#[trigger] after[a]).1
            matches ArgView::Expr(x) ==> type_of(x, f) is Some && writes_no_null(x)) && (after[a].1
            is Wildcard ==> after[a].0 == AggFunc::Count) by {
            if item_call(item) is Some {
                assert(after[a] == all[a + 1]);
            } else {
                assert(after[a] == all[a]);
            }
        }
        lemma_call_fields(rest, f);
        assert(o.1 == head.1 + tail.1);
        assert(o.1 =~= call_fields(items, f));
    } else {
        assert(o.1 =~= call_fields(items, f));
    }
}

/// Law: the rows of a planned SELECT have the fields that it writes: each output under its label, a
/// column without one under its whole name, an aggregate under the name of its function.
pub proof fn law_select_has_written_fields(
    select: SelectView,
    catalog: Map<Seq<char>, Seq<FieldView>>,
    t: Map<Seq<char>, Seq<Seq<Cell>>>,
)
    requires
        select_plan(select, catalog) is Ok,
        can_answer(select, catalog, t),
    ensures
        fields_of(select_plan(select, catalog)->Ok_0) == result_fields(select, catalog),
        names(select_plan(select, catalog)->Ok_0.schema()) == names(result_fields(select, catalog)),
{
    let p = select_plan(select, catalog)->Ok_0;
    let from = from_plan(select.from[0], catalog)->Ok_0;
    let n = select.from[0].joins.len();
    let f = from_fields(select.from[0], catalog, n);
    let any: Sums = arbitrary();
    law_from_gives_joined_rows(select.from[0], catalog, t, any);
    assert(from.1 == f);
    let want = result_fields(select, catalog);
    if is_plain(select) {
        let o = simple_outputs(select.projection, f)->Ok_0;
        assert(selection_plan(select, from.0, f) == Ok::<_, crate::error::ErrorView>(p));
        lemma_listed_fields(select.projection, f);
        let projection = PlanView::Projection { exprs: o.0, schema: o.1, input: Box::new(from.0) };
        assert(fields_of(projection) =~= want);
        assert(names(projection.schema()) =~= names(want)) by {
            assert forall|j: int| 0 <= j < o.1.len() implies names(o.1)[j] == names(want)[j] by {
                assert(want[j].name == o.1[j].name);
            }
        }
        assert(fields_of(p) == fields_of(projection));
        assert(p.schema() == projection.schema());
    } else {
        let gs = group_keys(select);
        let cs = calls(select.projection);
        let rows = aggregated_rows(select, catalog, t);
        assert(aggregation(select, gs, from.0, f) == Ok::<_, crate::error::ErrorView>(p));
        let group_by = convert_all(gs, f)->Ok_0;
        let kf = key_fields(group_by, f)->Ok_0;
        let listed = listed_aggregates(select.projection, f)->Ok_0;
        let outs = aggregate_outputs(select.projection, group_by, f)->Ok_0;
        lemma_calls(select.projection, f);
        assert forall|a: int| 0 <= a < cs.len() implies ((#[trigger] cs[a]).1 matches ArgView::Expr(e)
            ==> type_of(e, f) is Some && writes_no_null(e)) && (cs[a].1 is Wildcard ==> cs[a].0
            == AggFunc::Count) by {
            assert(crate::written::groups::call_decided(cs[a], f, rows));
        }
        lemma_call_fields(select.projection, f);
        let wk = Seq::new(
            gs.len(),
            |c: int| FieldView { name: own_label(gs[c], f), data_type: type_of(gs[c], f)->Some_0 },
        );
        assert(group_by.len() == gs.len() && kf.len() == gs.len()) by {
            if gs.len() > 0 {
                lemma_group_keys(gs, f, 0);
                lemma_key_types(group_by, f, 0);
            }
        }
        assert forall|c: int| 0 <= c < gs.len() implies kf[c] == wk[c] by {
            lemma_group_keys(gs, f, c);
            lemma_key_types(group_by, f, c);
            assert(scalar_decided(gs[c], f, rows));
            lemma_inferred(gs[c], f);
            lemma_own_label(gs[c], f, f);
        }
        assert(kf =~= wk);
        assert(outs.1 == want);
        lemma_result_normal(select.projection, f, outs.1, wk, rows);
        assert(fields_of(p) == normal_fields(outs.1));
        assert(normal_fields(outs.1) =~= outs.1);
    }
}

/// The types of aggregates and keys are in normal form.
proof fn lemma_result_normal(
    items: Seq<ItemView>,
    f: Seq<FieldView>,
    outs: Seq<FieldView>,
    keys: Seq<FieldView>,
    rows: Seq<Seq<Cell>>,
)
    requires
        outs == keys + call_fields(items, f),
        forall|c: int| 0 <= c < keys.len() ==> !((#[trigger] keys[c]).data_type is Other),
        forall|a: int|
            0 <= a < calls(items).len() ==> crate::written::groups::call_decided(
                #[trigger] calls(items)[a],
                f,
                rows,
            ),
    ensures
        forall|i: int|
            0 <= i < outs.len() ==> normal_type((#[trigger] outs[i]).data_type)
                == outs[i].data_type,
{
    lemma_calls_normal(items, f, rows);
    assert forall|i: int| 0 <= i < outs.len() implies normal_type((#[trigger] outs[i]).data_type)
        == outs[i].data_type by {
        if i < keys.len() {
            assert(outs[i] == keys[i]);
        } else {
            assert(outs[i] == call_fields(items, f)[i - keys.len()]);
        }
    }
}

proof fn lemma_calls_normal(items: Seq<ItemView>, f: Seq<FieldView>, rows: Seq<Seq<Cell>>)
    requires
        forall|a: int|
            0 <= a < calls(items).len() ==> crate::written::groups::call_decided(
                #[trigger] calls(items)[a],
                f,
                rows,
            ),
    ensures
        forall|i: int|
            0 <= i < call_fields(items, f).len() ==> !((#[trigger] call_fields(items, f)[i]).data_type
                is Other),
    decreases items.len(),
{
    if items.len() > 0 {
        let rest = items.skip(1);
        let all = calls(items);
        let after = calls(rest);
        assert forall|a: int| 0 <= a < after.len() implies crate::written::groups::call_decided(
            #[trigger] after[a],
            f,
            rows,
        ) by {
            if item_call(items[0]) is Some {
                assert(after[a] == all[a + 1]);
            } else {
                assert(after[a] == all[a]);
            }
        }
        lemma_calls_normal(rest, f, rows);
        let fs = call_fields(items, f);
        let rs = call_fields(rest, f);
        if item_call(items[0]) is Some {
            assert(all[0] == item_call(items[0])->Some_0);
            assert(crate::written::groups::call_decided(all[0], f, rows));
            assert forall|i: int| 0 <= i < fs.len() implies !((#[trigger] fs[i]).data_type is Other) by {
                if i > 0 {
                    assert(fs[i] == rs[i - 1]);
                }
            }
        }
    }
}

/// The rows of a SELECT fit its fields.
proof fn lemma_result_fits(
    select: SelectView,
    catalog: Map<Seq<char>, Seq<FieldView>>,
    t: Map<Seq<char>, Seq<Seq<Cell>>>,
    o: Sums,
)
    requires
        select_plan(select, catalog) is Ok,
        can_answer(select, catalog, t),
    ensures
        rows_fit(
            result_fields(select, catalog),
            meaning(where_below(select_plan(select, catalog)->Ok_0), t, o),
        ),
{
    let p = select_plan(select, catalog)->Ok_0;
    let from = from_plan(select.from[0], catalog)->Ok_0;
    let n = select.from[0].joins.len();
    let f = from_fields(select.from[0], catalog, n);
    let out = meaning(where_below(p), t, o);
    let want = result_fields(select, catalog);
    law_select_has_written_fields(select, catalog, t);
    law_from_gives_joined_rows(select.from[0], catalog, t, o);
    if is_plain(select) {
        law_select_gives_written_rows(select, catalog, t, o);
        let all = from_rows(select.from[0], catalog, t, n);
        let p = |r: Seq<Cell>| is_kept(select.selection, f, r);
        let kept = all.filter(p);
        lemma_filter_fits(f, all, p);
        crate::written::selection::lemma_decided_filter(select.projection, f, all, p);
        assert forall|i: int| 0 <= i < out.len() implies row_fits(want, #[trigger] out[i]) by {
            assert(row_fits(f, kept[i]));
            assert(items_decided(select.projection, f, kept[i]));
            lemma_all_converted(select.projection, f);
            lemma_selected_fits(select.projection, f, kept[i]);
        }
    } else {
        assert(where_below(p) == p);
        match p {
            PlanView::Aggregate { schema, .. } => {
                assert forall|i: int| 0 <= i < out.len() implies row_fits(want, #[trigger] out[i]) by {
                    lemma_aggregate_row(p, t, o, i);
                    assert(want == normal_fields(schema));
                }
            },
            _ => {},
        }
    }
}

/// A row of an aggregation fits its fields.
proof fn lemma_aggregate_row(p: PlanView, t: Map<Seq<char>, Seq<Seq<Cell>>>, o: Sums, i: int)
    requires
        p is Aggregate,
        0 <= i < meaning(p, t, o).len(),
    ensures
        row_fits(normal_fields(p->Aggregate_schema), meaning(p, t, o)[i]),
{
    let schema = p->Aggregate_schema;
    let row = meaning(p, t, o)[i];
    assert(exists|vals: Seq<crate::types::ScalarView>| row == #[trigger] output_row(vals, schema));
    let vals = choose|vals: Seq<crate::types::ScalarView>| row == #[trigger] output_row(vals, schema);
    assert forall|j: int| 0 <= j < row.len() implies fits(
        normal_fields(schema)[j].data_type,
        #[trigger] row[j],
    ) by {
        assert(row[j] == output_cell(vals[j], normal_type(schema[j].data_type)));
    }
}

/// The values of a SELECT list fit its fields.
proof fn lemma_selected_fits(items: Seq<ItemView>, f: Seq<FieldView>, row: Seq<Cell>)
    requires
        row_fits(f, row),
        items_decided(items, f, row),
        all_converted(items, f),
    ensures
        row_fits(listed_fields(items, f), selected(items, f, row)),
    decreases items.len(),
{
    let fs = listed_fields(items, f);
    let vs = selected(items, f, row);
    if items.len() > 0 {
        let rest = items.skip(1);
        assert(item_decided(items[0], f, row));
        assert(items_decided(rest, f, row) && all_converted(rest, f)) by {
            assert forall|i: int| 0 <= i < rest.len() implies item_decided(#[trigger] rest[i], f, row)
                && item_converted(rest[i], f) by {
                assert(rest[i] == items[i + 1]);
                assert(item_converted(items[i + 1], f));
            }
        }
        lemma_selected_fits(rest, f, row);
        assert(item_converted(items[0], f));
        let hf = item_fields(items[0], f);
        let hv = item_values(items[0], f, row);
        assert(row_fits(hf, hv)) by {
            match items[0] {
                ItemView::Unnamed(e) => { law_expressions_have_their_value(e, f, f, row); },
                ItemView::Aliased { expr, .. } => {
                    law_expressions_have_their_value(expr, f, f, row);
                },
                ItemView::Wildcard => {},
                ItemView::QualifiedWildcard(parts) => {
                    assert(f.take(f.len() as int) =~= f);
                    lemma_under_fits(f, f, row, last_part(parts));
                },
            }
        }
        assert forall|j: int| 0 <= j < vs.len() implies fits(fs[j].data_type, #[trigger] vs[j]) by {
            if j < hv.len() {
                assert(vs[j] == hv[j] && fs[j] == hf[j]);
            } else {
                let k = j - hv.len();
                assert(vs[j] == selected(rest, f, row)[k]);
                assert(fs[j] == listed_fields(rest, f)[k]);
            }
        }
    }
}

/// The item can be planned over the fields.
pub open spec fn item_converted(item: ItemView, f: Seq<FieldView>) -> bool {
    match item {
        ItemView::Unnamed(e) => convert(e, f) is Ok,
        ItemView::Aliased { expr, .. } => convert(expr, f) is Ok,
        _ => true,
    }
}

/// Every item can be planned over the fields.
pub open spec fn all_converted(items: Seq<ItemView>, f: Seq<FieldView>) -> bool {
    forall|i: int| 0 <= i < items.len() ==> item_converted(#[trigger] items[i], f)
}

proof fn lemma_all_converted(items: Seq<ItemView>, f: Seq<FieldView>)
    requires
        simple_outputs(items, f) is Ok,
    ensures
        all_converted(items, f),
    decreases items.len(),
{
    if items.len() > 0 {
        let rest = items.skip(1);
        lemma_all_converted(rest, f);
        assert forall|i: int| 0 <= i < items.len() implies item_converted(#[trigger] items[i], f) by {
            if i > 0 {
                assert(rest[i - 1] == items[i]);
            }
        }
    }
}

proof fn lemma_under_fits(f: Seq<FieldView>, whole: Seq<FieldView>, row: Seq<Cell>, q: Seq<char>)
    requires
        row_fits(whole, row),
        f.len() <= whole.len(),
        f == whole.take(f.len() as int),
    ensures
        row_fits(fields_under(f, q), crate::written::selection::cells_under(f, row, q)),
    decreases f.len(),
{
    let fs = fields_under(f, q);
    let vs = crate::written::selection::cells_under(f, row, q);
    if f.len() > 0 {
        let init = f.drop_last();
        assert(init =~= whole.take(init.len() as int));
        lemma_under_fits(init, whole, row, q);
        let a = fields_under(init, q);
        let b = crate::written::selection::cells_under(init, row, q);
        assert(f.last() == whole[f.len() - 1]);
        assert(fits(whole[f.len() - 1].data_type, row[f.len() - 1]));
        assert forall|j: int| 0 <= j < vs.len() implies fits(fs[j].data_type, #[trigger] vs[j]) by {
            if j < b.len() {
                assert(vs[j] == b[j] && fs[j] == a[j]);
            }
        }
    }
}

/// ORDER BY has keys of types that have an order, and none divides an integer by zero in the rows.
pub open spec fn can_order(
    query: QueryView,
    f: Seq<FieldView>,
    rows: Seq<Seq<Cell>>,
) -> bool {
    &&& forall|k: int|
        0 <= k < query.order_by.len() ==> type_of((#[trigger] query.order_by[k]).expr, f) is Some
            && type_of(query.order_by[k].expr, f) != Some(DataType::Null)
    &&& forall|k: int, i: int|
        0 <= k < query.order_by.len() && 0 <= i < rows.len() ==> divides(
            (#[trigger] query.order_by[k]).expr,
            f,
            #[trigger] rows[i],
        )
}

/// Law: a planned query means, with WHERE read below the SELECT list, rows that answer it: the rows
/// that FROM, WHERE, the SELECT list and GROUP BY ask for, in the order that ORDER BY writes, as many
/// as LIMIT allows; and they have the fields that the SELECT list writes.
pub proof fn law_query_is_answered(
    query: QueryView,
    select: SelectView,
    catalog: Map<Seq<char>, Seq<FieldView>>,
    p: PlanView,
    t: Map<Seq<char>, Seq<Seq<Cell>>>,
    o: Sums,
)
    requires
        planned(StatementView::Query(query), catalog) matches Ok(x) && x == p,
        query.body == SetExprView::Select(select),
        can_answer(select, catalog, t),
        can_order(
            query,
            result_fields(select, catalog),
            meaning(where_below(select_plan(select, catalog)->Ok_0), t, o),
        ),
        meaning(where_below(select_plan(select, catalog)->Ok_0), t, o).len() <= usize::MAX,
    ensures
        is_answer(meaning(where_below(p), t, o), query, select, catalog, t),
        fields_of(p) == result_fields(select, catalog),
{
    let plan = select_plan(select, catalog)->Ok_0;
    let f = result_fields(select, catalog);
    let rows = meaning(where_below(plan), t, o);
    law_select_has_written_fields(select, catalog, t);
    lemma_result_fits(select, catalog, t, o);
    assert(keys_decided(query.order_by, f, rows)) by {
        assert forall|i: int| 0 <= i < rows.len() implies row_fits(f, #[trigger] rows[i]) by {}
    }
    lemma_ordered_and_limited(query, plan, t, o);
    if is_plain(select) {
        law_select_gives_written_rows(select, catalog, t, o);
    } else {
        law_aggregation_gives_written_rows(select, catalog, t, o);
    }
    assert(is_select_result(rows, select, catalog, t));
    let sorted = choose|sorted: Seq<Seq<Cell>>|
        {
            &&& #[trigger] is_sorted(query.order_by, f, rows, sorted)
            &&& meaning(where_below(p), t, o) == first_written(sorted, query.limit)
        };
    assert(is_sorted(query.order_by, f, rows, sorted));
}

/// Law: a query that is planned, optimized and run to the end over tables with the columns of the
/// catalog gives rows that answer it, with the fields that it writes.
pub proof fn law_runs_answer_the_query(
    query: QueryView,
    select: SelectView,
    catalog: Map<Seq<char>, Seq<FieldView>>,
    p: PlanView,
    files: Seq<spec_fn(Sums) -> Stream>,
    t: Map<Seq<char>, Seq<Seq<Cell>>>,
    o: Sums,
    s: Stream,
)
    requires
        planned(StatementView::Query(query), catalog) matches Ok(x) && x == p,
        query.body == SetExprView::Select(select),
        can_answer(select, catalog, t),
        can_order(
            query,
            result_fields(select, catalog),
            meaning(where_below(select_plan(select, catalog)->Ok_0), t, o),
        ),
        meaning(where_below(select_plan(select, catalog)->Ok_0), t, o).len() <= usize::MAX,
        well_joined(query, catalog),
        tables_fit(catalog, t),
        serves(optimized(p), files, t, o),
        built(optimized(p), files, o) == Outcome::Value(s),
        s.end is Done,
    ensures
        is_answer(flat_rows(s.batches), query, select, catalog, t),
        forall|i: int|
            0 <= i < s.batches.len() ==> (#[trigger] s.batches[i]).fields == result_fields(
                select,
                catalog,
            ),
{
    law_query_is_answered(query, select, catalog, p, t, o);
    law_optimized_queries_give_rows(query, catalog, p, files, t, o, s);
}

} // verus!
