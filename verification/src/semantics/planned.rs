//! Which planned queries the laws on the optimizer speak of.

use vstd::prelude::*;
use crate::executor::batch::Cell;
use crate::executor::physical::built;
use crate::executor::sums::Sums;
use crate::executor::batch::Outcome;
use crate::executor::Stream;
use crate::optimizer::optimized;
use crate::optimizer::columns::columns;
use crate::optimizer::predicate_pushdown::{
    bindings, flatten, names_after, names_before, on_side, side_of, substitute, Side,
};
use crate::optimizer::projection_pruning::sort_exprs;
use crate::semantics::pushdown::{lemma_join_sides, lemma_on_side, lemma_substitute_found};
use crate::parser::ast::{
    ArgView, FromView, GroupByView, ItemView, JoinView, OrderByView, QueryView, SelectView,
    SetExprView, SqlView, StatementView,
};
use crate::planner::expressions::{
    convert, last_part, named_so, resolve, split_field, suffix_matches,
};
use crate::planner::logical_plan::{key_of, ExprView, PlanView};
use crate::planner::query::{
    aggregate_outputs, aggregation, belongs, convert_all, factor_plan, from_plan, item_aggregates,
    item_outputs, join_keys, join_parts, joined, listed_aggregates, lists_aggregate, merged_fields,
    ordered, planned, query_plan, relation_outputs, select_plan, selection_plan, simple_outputs,
    sort_keys, where_filter,
};
use crate::semantics::execution::flat_rows;
use crate::semantics::{fields_of, meaning};
use crate::semantics::laws::{law_optimizer_equivalence, serves};
use crate::semantics::sensible::{
    all_found, all_read_within, fitting, lemma_schema_names, passes, seen, sensible,
};
use crate::semantics::values::{found, lemma_reads_found, reads_within};
use crate::semantics::where_below::{
    law_optimized_plans_read_below, lemma_where_below_fields, where_below,
};
use crate::text::{first_index, lemma_first_index};
use crate::types::{lemma_position, names, FieldView};

verus! {

/// The indices that `suffix_matches` gives are those of fields with the name.
proof fn lemma_suffix_matches(list: Seq<Seq<char>>, name: Seq<char>)
    ensures
        forall|i: int|
            0 <= i < suffix_matches(list, name).len() ==> {
                let k = #[trigger] suffix_matches(list, name)[i];
                0 <= k < list.len() && named_so(list[k], name)
            },
    decreases list.len(),
{
    if list.len() > 0 {
        let init = list.drop_last();
        lemma_suffix_matches(init, name);
        assert forall|i: int| 0 <= i < suffix_matches(list, name).len() implies {
            let k = #[trigger] suffix_matches(list, name)[i];
            0 <= k < list.len() && named_so(list[k], name)
        } by {
            if i < suffix_matches(init, name).len() {
                let k = suffix_matches(init, name)[i];
                assert(init[k] == list[k]);
            }
        }
    }
}

/// A bare name is resolved to the name of a field.
proof fn lemma_resolve_reads(name: Seq<char>, schema: Seq<FieldView>)
    ensures
        resolve(name, schema) matches Ok(x) ==> reads_within(x, schema),
{
    let ns = names(schema);
    if !ns.contains(name) {
        let found = suffix_matches(ns, name);
        lemma_suffix_matches(ns, name);
        if found.len() == 1 {
            let field = ns[found[0]];
            assert(named_so(field, name));
            assert(ns.contains(field));
            reveal_strlit(".");
            if field.contains('.') {
                let dot = first_index(field, '.');
                lemma_first_index(field, '.');
                assert(dot < field.len()) by {
                    let k = choose|k: int| 0 <= k < field.len() && field[k] == '.';
                    assert(field[k] == '.');
                }
                assert(field.take(dot) + "."@ + field.skip(dot + 1) =~= field);
                assert(columns(split_field(field, name)) =~= set![field]);
            } else {
                let p = "."@ + name;
                let n = field.len() - p.len();
                assert(p[0] == '.');
                if field.skip(n) == p && p.len() <= field.len() {
                    assert(field.skip(n)[0] == field[n]);
                    assert(field[n] == '.');
                }
                assert(field == name);
            }
        }
    }
}

/// A converted expression finds the columns that it reads.
proof fn lemma_convert_found(e: SqlView, schema: Seq<FieldView>)
    ensures
        convert(e, schema) matches Ok(x) ==> found(x, schema),
    decreases e,
{
    reveal_with_fuel(found, 2);
    match e {
        SqlView::Identifier(name) => {
            lemma_resolve_reads(name, schema);
            match resolve(name, schema) {
                Ok(x) => { lemma_reads_found(x, schema); },
                Err(_) => {},
            }
        },
        SqlView::Compound(parts) => {
            lemma_position(names(schema), parts[0] + "."@ + parts[1]);
            lemma_position(names(schema), parts[1]);
        },
        SqlView::Binary { left, right, .. } => {
            lemma_convert_found(*left, schema);
            lemma_convert_found(*right, schema);
        },
        SqlView::Nested(inner) => { lemma_convert_found(*inner, schema); },
        SqlView::Function { args, .. } => {
            if args.len() == 1 {
                match args[0] {
                    ArgView::Expr(a) => { lemma_convert_found(a, schema); },
                    _ => {},
                }
            }
        },
        _ => {},
    }
}

/// The columns of a relation are read by their names, and there is a field for each.
proof fn lemma_relation_outputs(schema: Seq<FieldView>, relation: Seq<char>)
    ensures
        relation_outputs(schema, relation).0.len() == relation_outputs(schema, relation).1.len(),
        all_read_within(relation_outputs(schema, relation).0, schema),
    decreases schema.len(),
{
    if schema.len() > 0 {
        let init = schema.drop_last();
        lemma_relation_outputs(init, relation);
        let o = relation_outputs(schema, relation).0;
        let f = schema.last();
        assert(names(schema)[schema.len() - 1] == f.name);
        assert forall|i: int| 0 <= i < o.len() implies reads_within(#[trigger] o[i], schema) by {
            let before = relation_outputs(init, relation).0;
            if i < before.len() {
                assert(reads_within(before[i], init));
                assert forall|k: Seq<char>| #[trigger] columns(o[i]).contains(k) implies names(
                    schema,
                ).contains(k) by {
                    let j = choose|j: int| 0 <= j < names(init).len() && names(init)[j] == k;
                    assert(names(schema)[j] == k);
                }
            } else {
                reveal_strlit(".");
                let n = relation.len() as int + 1;
                assert(belongs(f.name, relation));
                assert((relation + "."@).len() == n);
                assert(f.name.take(n) =~= relation + "."@);
                assert(f.name =~= f.name.take(n) + f.name.skip(n));
                assert(key_of(f.name.skip(n), Some(relation)) =~= f.name);
            }
        }
    }
}

/// A SELECT list gives a field for each expression, and finds the columns that it reads.
proof fn lemma_simple_outputs(items: Seq<ItemView>, schema: Seq<FieldView>)
    ensures
        simple_outputs(items, schema) matches Ok(o) ==> o.0.len() == o.1.len() && all_found(
            o.0,
            schema,
        ),
    decreases items.len(),
{
    if items.len() > 0 {
        let rest = items.skip(1);
        lemma_simple_outputs(rest, schema);
        match items[0] {
            ItemView::Unnamed(e) => { lemma_convert_found(e, schema); },
            ItemView::Aliased { expr, .. } => { lemma_convert_found(expr, schema); },
            ItemView::QualifiedWildcard(parts) => {
                lemma_relation_outputs(schema, last_part(parts));
            },
            ItemView::Wildcard => {},
        }
        match (item_outputs(items[0], schema), simple_outputs(items, schema)) {
            (Ok(head), Ok(o)) => {
                let tail = simple_outputs(rest, schema)->Ok_0;
                assert forall|i: int| 0 <= i < o.0.len() implies found(
                    #[trigger] o.0[i],
                    schema,
                ) by {
                    if i < head.0.len() {
                        assert(o.0[i] == head.0[i]);
                        if items[0] is Wildcard {
                            assert(names(schema)[i] == schema[i].name);
                            lemma_position(names(schema), schema[i].name);
                        } else if items[0] is QualifiedWildcard {
                            assert(reads_within(head.0[i], schema));
                            lemma_reads_found(head.0[i], schema);
                        }
                    } else {
                        assert(o.0[i] == tail.0[i - head.0.len()]);
                    }
                }
            },
            _ => {},
        }
    }
}

/// The aggregates of a SELECT list find the columns that they read.
proof fn lemma_listed_aggregates(items: Seq<ItemView>, schema: Seq<FieldView>)
    ensures
        listed_aggregates(items, schema) matches Ok(o) ==> all_found(o.0, schema),
    decreases items.len(),
{
    if items.len() > 0 {
        let rest = items.skip(1);
        lemma_listed_aggregates(rest, schema);
        match items[0] {
            ItemView::Unnamed(e) => { lemma_convert_found(e, schema); },
            ItemView::Aliased { expr, .. } => { lemma_convert_found(expr, schema); },
            _ => {},
        }
        match (item_aggregates(items[0], schema), listed_aggregates(items, schema)) {
            (Ok(head), Ok(o)) => {
                let tail = listed_aggregates(rest, schema)->Ok_0;
                assert forall|i: int| 0 <= i < o.0.len() implies found(
                    #[trigger] o.0[i],
                    schema,
                ) by {
                    if i < head.0.len() {
                        assert(o.0[i] == head.0[i]);
                        if let ItemView::Aliased { expr, .. } = items[0] {
                            assert(found(head.0[0], schema) == found(
                                convert(expr, schema)->Ok_0,
                                schema,
                            ));
                        }
                    } else {
                        assert(o.0[i] == tail.0[i - head.0.len()]);
                    }
                }
            },
            _ => {},
        }
    }
}

/// Converted expressions find the columns that they read.
proof fn lemma_convert_all(es: Seq<SqlView>, schema: Seq<FieldView>)
    ensures
        convert_all(es, schema) matches Ok(o) ==> all_found(o, schema),
    decreases es.len(),
{
    if es.len() > 0 {
        let rest = es.skip(1);
        lemma_convert_found(es[0], schema);
        lemma_convert_all(rest, schema);
        match convert_all(es, schema) {
            Ok(o) => {
                let tail = convert_all(rest, schema)->Ok_0;
                assert forall|i: int| 0 <= i < o.len() implies found(#[trigger] o[i], schema) by {
                    if i > 0 {
                        assert(o[i] == tail[i - 1]);
                    }
                }
            },
            Err(_) => {},
        }
    }
}

/// The keys of ORDER BY find the columns that they read.
proof fn lemma_sort_keys(order: Seq<OrderByView>, schema: Seq<FieldView>)
    ensures
        sort_keys(order, schema) matches Ok(o) ==> all_found(sort_exprs(o), schema),
    decreases order.len(),
{
    if order.len() > 0 {
        let rest = order.skip(1);
        lemma_convert_found(order[0].expr, schema);
        lemma_sort_keys(rest, schema);
        match sort_keys(order, schema) {
            Ok(o) => {
                let tail = sort_keys(rest, schema)->Ok_0;
                assert forall|i: int| 0 <= i < sort_exprs(o).len() implies found(
                    #[trigger] sort_exprs(o)[i],
                    schema,
                ) by {
                    if i > 0 {
                        assert(o[i] == tail[i - 1]);
                        assert(sort_exprs(o)[i] == sort_exprs(tail)[i - 1]);
                    }
                }
            },
            Err(_) => {},
        }
    }
}

/// The tables have the columns of the catalog, no more than can be counted.
pub open spec fn tables_fit(
    catalog: Map<Seq<char>, Seq<FieldView>>,
    t: Map<Seq<char>, Seq<Seq<Cell>>>,
) -> bool {
    forall|k: Seq<char>| #[trigger]
        catalog.dom().contains(k) ==> catalog[k].len() <= usize::MAX && forall|i: int|
            0 <= i < t[k].len() ==> (#[trigger] t[k][i]).len() == catalog[k].len()
}

/// Joined tables have the schema that planning goes on with, and fit the catalog.
proof fn lemma_joined(
    plan: PlanView,
    schema: Seq<FieldView>,
    joins: Seq<JoinView>,
    catalog: Map<Seq<char>, Seq<FieldView>>,
    t: Map<Seq<char>, Seq<Seq<Cell>>>,
)
    requires
        plan.schema() == schema,
        tables_fit(catalog, t),
        fitting(plan, t),
    ensures
        joined(plan, schema, joins, catalog) matches Ok(o) ==> o.0.schema() == o.1 && fitting(
            o.0,
            t,
        ),
    decreases joins.len(),
{
    if joins.len() > 0 {
        match factor_plan(joins[0].relation, catalog, true) {
            Ok(right) => {
                assert(fitting(right.0, t));
                match join_parts(joins[0].operator) {
                    Ok(parts) => match merged_fields(schema, right.1) {
                        Ok(fields) => match join_keys(parts.1, fields, schema.len()) {
                            Ok(on) => {
                                let join = PlanView::Join {
                                    left: Box::new(plan),
                                    right: Box::new(right.0),
                                    on,
                                    join_type: parts.0,
                                    schema: fields,
                                };
                                lemma_joined(join, fields, joins.skip(1), catalog, t);
                            },
                            Err(_) => {},
                        },
                        Err(_) => {},
                    },
                    Err(_) => {},
                }
            },
            Err(_) => {},
        }
    }
}

/// What FROM names has the schema that planning goes on with, and fits the catalog.
proof fn lemma_from_plan(
    from: FromView,
    catalog: Map<Seq<char>, Seq<FieldView>>,
    t: Map<Seq<char>, Seq<Seq<Cell>>>,
)
    requires
        tables_fit(catalog, t),
    ensures
        from_plan(from, catalog) matches Ok(o) ==> o.0.schema() == o.1 && fitting(o.0, t) && (
        from.joins.len() == 0 ==> sensible(o.0) && o.0 is Scan),
{
    match factor_plan(from.relation, catalog, from.joins.len() > 0) {
        Ok(first) => {
            assert(fitting(first.0, t));
            lemma_joined(first.0, first.1, from.joins, catalog, t);
        },
        Err(_) => {},
    }
}

/// Where the query joins, the plan of FROM is sensible, and WHERE reads the joined columns by their
/// names.
pub open spec fn well_joined(
    query: QueryView,
    catalog: Map<Seq<char>, Seq<FieldView>>,
) -> bool {
    match query.body {
        SetExprView::Other => true,
        SetExprView::Select(select) => match (
            from_plan(select.from[0], catalog),
            select.selection,
            select.group_by,
        ) {
            (Ok(from), selection, GroupByView::Expressions(groups)) => select.from[0].joins.len() > 0
                ==> {
                &&& sensible(from.0)
                &&& selection matches Some(e) ==> match convert(e, from.1) {
                    Err(_) => true,
                    Ok(x) => if lists_aggregate(select.projection) || groups.len() > 0 {
                        reads_within(x, from.1)
                    } else {
                        match simple_outputs(select.projection, from.1) {
                            Err(_) => true,
                            Ok(o) => reads_within(
                                substitute(x, bindings(o.0, names(o.1))),
                                from.1,
                            ),
                        }
                    },
                }
            },
            _ => true,
        },
    }
}

/// The query names columns so that each reference has one reading: it is well joined and, without
/// aggregation, WHERE reads above the SELECT list what it would read below it.
pub open spec fn well_named(
    query: QueryView,
    catalog: Map<Seq<char>, Seq<FieldView>>,
) -> bool {
    &&& well_joined(query, catalog)
    &&& match query.body {
        SetExprView::Other => true,
        SetExprView::Select(select) => match (
            from_plan(select.from[0], catalog),
            select.selection,
            select.group_by,
        ) {
            (Ok(from), Some(e), GroupByView::Expressions(groups)) => {
                ||| lists_aggregate(select.projection)
                ||| groups.len() > 0
                ||| match (convert(e, from.1), simple_outputs(select.projection, from.1)) {
                    (Ok(x), Ok(o)) => seen(x, o.0, names(o.1), from.1),
                    _ => true,
                }
            },
            _ => true,
        },
    }
}

/// The plan joins tables, and does nothing else.
spec fn only_joins(p: PlanView) -> bool
    decreases p,
{
    match p {
        PlanView::Scan { .. } => true,
        PlanView::Join { left, right, .. } => only_joins(*left) && only_joins(*right),
        _ => false,
    }
}

/// Joined tables are tables, joined.
proof fn lemma_joined_only(
    plan: PlanView,
    schema: Seq<FieldView>,
    joins: Seq<JoinView>,
    catalog: Map<Seq<char>, Seq<FieldView>>,
)
    requires
        only_joins(plan),
    ensures
        joined(plan, schema, joins, catalog) matches Ok(o) ==> only_joins(o.0),
    decreases joins.len(),
{
    if joins.len() > 0 {
        match (factor_plan(joins[0].relation, catalog, true), join_parts(joins[0].operator)) {
            (Ok(right), Ok(parts)) => match merged_fields(schema, right.1) {
                Ok(fields) => match join_keys(parts.1, fields, schema.len()) {
                    Ok(on) => {
                        let join = PlanView::Join {
                            left: Box::new(plan),
                            right: Box::new(right.0),
                            on,
                            join_type: parts.0,
                            schema: fields,
                        };
                        assert(only_joins(right.0));
                        lemma_joined_only(join, fields, joins.skip(1), catalog);
                    },
                    Err(_) => {},
                },
                Err(_) => {},
            },
            _ => {},
        }
    }
}

/// A predicate that reads joined tables by name passes through the joins.
proof fn lemma_joins_pass(e: ExprView, p: PlanView)
    requires
        sensible(p),
        only_joins(p),
        reads_within(e, fields_of(p)),
    ensures
        passes(e, p),
    decreases p,
{
    match p {
        PlanView::Join { left, right, join_type, schema, .. } => {
            let lf = fields_of(*left);
            let rf = fields_of(*right);
            let l = names_before(schema, left.schema().len());
            let r = names_after(schema, left.schema().len());
            let cs = flatten(e);
            let a = on_side(cs, l, r, join_type, Side::Left);
            let b = on_side(cs, l, r, join_type, Side::Right);
            lemma_join_sides(e, p);
            lemma_on_side(cs, l, r, Side::Left);
            lemma_on_side(cs, l, r, Side::Right);
            assert forall|i: int|
                0 <= i < cs.len() && side_of(#[trigger] cs[i], l, r, join_type)
                    == Side::Left implies passes(cs[i], *left) by {
                assert(a.contains(cs[i]));
                let k = choose|k: int| 0 <= k < a.len() && a[k] == cs[i];
                assert(reads_within(a[k], lf));
                lemma_joins_pass(cs[i], *left);
            }
            assert forall|i: int|
                0 <= i < cs.len() && side_of(#[trigger] cs[i], l, r, join_type)
                    == Side::Right implies passes(cs[i], *right) by {
                assert(b.contains(cs[i]));
                let k = choose|k: int| 0 <= k < b.len() && b[k] == cs[i];
                assert(reads_within(b[k], rf));
                lemma_joins_pass(cs[i], *right);
            }
        },
        _ => { lemma_reads_found(e, fields_of(p)); },
    }
}

/// What an expression finds, it finds among fields of the same names.
proof fn lemma_found_same(e: ExprView, f: Seq<FieldView>, g: Seq<FieldView>)
    requires
        names(f) == names(g),
        found(e, f),
    ensures
        found(e, g),
    decreases e,
{
    match e {
        ExprView::Binary { left, right, .. } => {
            lemma_found_same(*left, f, g);
            lemma_found_same(*right, f, g);
        },
        ExprView::Aggregate { arg, .. } => { lemma_found_same(*arg, f, g); },
        ExprView::Alias { expr, .. } => { lemma_found_same(*expr, f, g); },
        _ => {},
    }
}

/// What is seen is seen over fields of the same names.
proof fn lemma_seen_same(
    e: ExprView,
    exprs: Seq<ExprView>,
    outputs: Seq<Seq<char>>,
    f: Seq<FieldView>,
    g: Seq<FieldView>,
)
    requires
        names(f) == names(g),
        seen(e, exprs, outputs, f),
    ensures
        seen(e, exprs, outputs, g),
    decreases e,
{
    match e {
        ExprView::Binary { left, right, .. } => {
            lemma_seen_same(*left, exprs, outputs, f, g);
            lemma_seen_same(*right, exprs, outputs, f, g);
        },
        ExprView::Aggregate { arg, .. } => { lemma_seen_same(*arg, exprs, outputs, f, g); },
        ExprView::Alias { expr, .. } => { lemma_seen_same(*expr, exprs, outputs, f, g); },
        _ => {},
    }
}

/// What expressions find, they find among fields of the same names.
proof fn lemma_all_found_same(es: Seq<ExprView>, f: Seq<FieldView>, g: Seq<FieldView>)
    requires
        names(f) == names(g),
        all_found(es, f),
    ensures
        all_found(es, g),
{
    assert forall|i: int| 0 <= i < es.len() implies found(#[trigger] es[i], g) by {
        assert(found(es[i], f));
        lemma_found_same(es[i], f, g);
    }
}

/// The plan of a SELECT, with WHERE below the SELECT list, is sensible where the query is well joined,
/// and fits the tables.
proof fn lemma_select_below(
    query: QueryView,
    select: SelectView,
    catalog: Map<Seq<char>, Seq<FieldView>>,
    t: Map<Seq<char>, Seq<Seq<Cell>>>,
)
    requires
        query.body == SetExprView::Select(select),
        tables_fit(catalog, t),
        well_joined(query, catalog),
    ensures
        select_plan(select, catalog) matches Ok(p) ==> sensible(where_below(p)) && fitting(
            where_below(p),
            t,
        ),
{
    match select_plan(select, catalog) {
        Err(_) => {},
        Ok(p) => {
            lemma_from_plan(select.from[0], catalog, t);
            let from = from_plan(select.from[0], catalog)->Ok_0;
            let groups = select.group_by->Expressions_0;
            let schema = from.1;
            lemma_schema_names(from.0);
            let f = fields_of(from.0);
            assert(names(f) == names(schema));
            let first = factor_plan(
                select.from[0].relation,
                catalog,
                select.from[0].joins.len() > 0,
            )->Ok_0;
            lemma_joined_only(first.0, first.1, select.from[0].joins, catalog);
            if lists_aggregate(select.projection) || groups.len() > 0 {
                let below = where_filter(select.selection, from.0, schema)->Ok_0;
                match select.selection {
                    Some(e) => {
                        lemma_convert_found(e, schema);
                        let x = convert(e, schema)->Ok_0;
                        lemma_found_same(x, schema, f);
                        if select.from[0].joins.len() > 0 {
                            assert(reads_within(x, f));
                            lemma_joins_pass(x, from.0);
                        }
                    },
                    None => {},
                }
                assert(sensible(below) && fitting(below, t));
                assert(fields_of(below) == f);
                lemma_convert_all(groups, schema);
                lemma_listed_aggregates(select.projection, schema);
                let group_by = convert_all(groups, schema)->Ok_0;
                let o = aggregate_outputs(select.projection, group_by, schema)->Ok_0;
                assert(aggregation(select, groups, from.0, schema) == Ok::<_, crate::error::ErrorView>(p));
                lemma_all_found_same(group_by, schema, f);
                lemma_all_found_same(o.0, schema, f);
            } else {
                lemma_simple_outputs(select.projection, schema);
                let o = simple_outputs(select.projection, schema)->Ok_0;
                lemma_all_found_same(o.0, schema, f);
                assert(selection_plan(select, from.0, schema) == Ok::<_, crate::error::ErrorView>(p));
                match select.selection {
                    Some(e) => {
                        lemma_convert_found(e, schema);
                        let x = convert(e, schema)->Ok_0;
                        lemma_found_same(x, schema, f);
                        let s = substitute(x, bindings(o.0, names(o.1)));
                        lemma_substitute_found(x, o.0, names(o.1), f);
                        if select.from[0].joins.len() > 0 {
                            assert(reads_within(s, f));
                            lemma_joins_pass(s, from.0);
                        }
                        let below = PlanView::Filter { predicate: s, input: Box::new(from.0) };
                        assert(passes(s, from.0));
                        assert(sensible(below) && fitting(below, t));
                        assert(fields_of(below) == f);
                    },
                    None => {},
                }
            }
        },
    }
}

/// The plan of a SELECT is sensible where the query is well named, and fits the tables.
proof fn lemma_select_plan(
    query: QueryView,
    select: SelectView,
    catalog: Map<Seq<char>, Seq<FieldView>>,
    t: Map<Seq<char>, Seq<Seq<Cell>>>,
)
    requires
        query.body == SetExprView::Select(select),
        tables_fit(catalog, t),
        well_named(query, catalog),
    ensures
        select_plan(select, catalog) matches Ok(p) ==> sensible(p) && fitting(p, t),
{
    lemma_select_below(query, select, catalog, t);
    match select_plan(select, catalog) {
        Err(_) => {},
        Ok(p) => {
            let from = from_plan(select.from[0], catalog)->Ok_0;
            let groups = select.group_by->Expressions_0;
            lemma_from_plan(select.from[0], catalog, t);
            if !lists_aggregate(select.projection) && groups.len() == 0 {
                let o = simple_outputs(select.projection, from.1)->Ok_0;
                let projection = PlanView::Projection {
                    exprs: o.0,
                    schema: o.1,
                    input: Box::new(from.0),
                };
                match select.selection {
                    Some(e) => {
                        let x = convert(e, from.1)->Ok_0;
                        let s = substitute(x, bindings(o.0, names(o.1)));
                        let below = PlanView::Filter { predicate: s, input: Box::new(from.0) };
                        assert(sensible(below) && fitting(below, t));
                        assert(fields_of(below) == fields_of(from.0));
                        lemma_schema_names(from.0);
                        lemma_seen_same(x, o.0, names(o.1), from.1, fields_of(from.0));
                        assert(sensible(projection) && fitting(projection, t));
                        assert(passes(x, projection));
                    },
                    None => {},
                }
            }
        },
    }
}

/// The plan of a well-joined query is sensible with WHERE below the SELECT list, and fits the tables.
proof fn lemma_planned_below(
    query: QueryView,
    catalog: Map<Seq<char>, Seq<FieldView>>,
    t: Map<Seq<char>, Seq<Seq<Cell>>>,
)
    requires
        tables_fit(catalog, t),
        well_joined(query, catalog),
    ensures
        planned(StatementView::Query(query), catalog) matches Ok(p) ==> sensible(where_below(p))
            && fitting(where_below(p), t),
{
    match query.body {
        SetExprView::Other => {},
        SetExprView::Select(select) => {
            lemma_select_below(query, select, catalog, t);
            match (select_plan(select, catalog), query_plan(query, catalog)) {
                (Ok(plan), Ok(_)) => {
                    let below = where_below(plan);
                    lemma_where_below_fields(plan);
                    lemma_schema_names(below);
                    lemma_sort_keys(query.order_by, plan.schema());
                    let sorted = ordered(plan, query.order_by)->Ok_0;
                    if query.order_by.len() > 0 {
                        let exprs = sort_keys(query.order_by, plan.schema())->Ok_0;
                        lemma_all_found_same(sort_exprs(exprs), plan.schema(), fields_of(below));
                        assert(sorted == PlanView::Sort { exprs, input: Box::new(plan) });
                        assert(where_below(sorted) == PlanView::Sort {
                            exprs,
                            input: Box::new(below),
                        });
                    }
                    assert(sensible(where_below(sorted)) && fitting(where_below(sorted), t));
                },
                _ => {},
            }
        },
    }
}

/// Law: the plan of a well-named query is one that the laws on the optimizer speak of, over every
/// table with the columns of the catalog.
pub proof fn law_planned_is_sensible(
    query: QueryView,
    catalog: Map<Seq<char>, Seq<FieldView>>,
    t: Map<Seq<char>, Seq<Seq<Cell>>>,
)
    requires
        tables_fit(catalog, t),
        well_named(query, catalog),
    ensures
        planned(StatementView::Query(query), catalog) matches Ok(p) ==> sensible(p) && fitting(
            p,
            t,
        ),
{
    match query.body {
        SetExprView::Other => {},
        SetExprView::Select(select) => {
            lemma_select_plan(query, select, catalog, t);
            match (select_plan(select, catalog), query_plan(query, catalog)) {
                (Ok(plan), Ok(_)) => {
                    lemma_schema_names(plan);
                    lemma_sort_keys(query.order_by, plan.schema());
                    let sorted = ordered(plan, query.order_by)->Ok_0;
                    if query.order_by.len() > 0 {
                        let exprs = sort_keys(query.order_by, plan.schema())->Ok_0;
                        lemma_all_found_same(sort_exprs(exprs), plan.schema(), fields_of(plan));
                        assert(sorted == PlanView::Sort { exprs, input: Box::new(plan) });
                    }
                    assert(sensible(sorted) && fitting(sorted, t));
                },
                _ => {},
            }
        },
    }
}

/// Law: a well-named query, planned and run as it is and optimized, both to the end over tables with
/// the columns of the catalog, gives the same rows with the same fields, where sums of floats come
/// out the same in both.
pub proof fn law_queries_keep_their_rows(
    query: QueryView,
    catalog: Map<Seq<char>, Seq<FieldView>>,
    p: PlanView,
    files: Seq<spec_fn(Sums) -> Stream>,
    optimized_files: Seq<spec_fn(Sums) -> Stream>,
    t: Map<Seq<char>, Seq<Seq<Cell>>>,
    o: Sums,
    a: Stream,
    b: Stream,
)
    requires
        planned(StatementView::Query(query), catalog) matches Ok(x) && x == p,
        well_named(query, catalog),
        tables_fit(catalog, t),
        serves(p, files, t, o),
        serves(optimized(p), optimized_files, t, o),
        built(p, files, o) == Outcome::Value(a),
        built(optimized(p), optimized_files, o) == Outcome::Value(b),
        a.end is Done,
        b.end is Done,
    ensures
        flat_rows(a.batches) == flat_rows(b.batches),
        forall|i: int| 0 <= i < a.batches.len() ==> (#[trigger] a.batches[i]).fields == fields_of(p),
        forall|i: int| 0 <= i < b.batches.len() ==> (#[trigger] b.batches[i]).fields == fields_of(p),
{
    law_planned_is_sensible(query, catalog, t);
    law_optimizer_equivalence(p, files, optimized_files, t, o, a, b);
}

/// Law: a well-joined query, planned, optimized and run to the end over tables with the columns of
/// the catalog, gives the rows that its plan means with WHERE below the SELECT list, with the fields
/// of the plan. A query on one table is always well joined.
pub proof fn law_optimized_queries_give_rows(
    query: QueryView,
    catalog: Map<Seq<char>, Seq<FieldView>>,
    p: PlanView,
    files: Seq<spec_fn(Sums) -> Stream>,
    t: Map<Seq<char>, Seq<Seq<Cell>>>,
    o: Sums,
    s: Stream,
)
    requires
        planned(StatementView::Query(query), catalog) matches Ok(x) && x == p,
        well_joined(query, catalog),
        tables_fit(catalog, t),
        serves(optimized(p), files, t, o),
        built(optimized(p), files, o) == Outcome::Value(s),
        s.end is Done,
    ensures
        flat_rows(s.batches) == meaning(where_below(p), t, o),
        forall|i: int| 0 <= i < s.batches.len() ==> (#[trigger] s.batches[i]).fields == fields_of(p),
{
    lemma_planned_below(query, catalog, t);
    law_optimized_plans_read_below(p, files, t, o, s);
}

} // verus!
