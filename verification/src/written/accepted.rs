//! Which queries are planned, and which are refused.

use vstd::prelude::*;
use crate::error::ErrorView;
use crate::float::float_of_text;
use crate::parser::ast::{
    ArgView, ConstraintView, FactorView, FromView, GroupByView, ItemView, JoinOpView, JoinView,
    OpView, OrderByView, SelectView, SetExprView, SqlView, StatementView, ValueView,
};
use crate::planner::expressions::{
    agg_func, column_type, convert, infer, is_aggregate, named_so, suffix_matches, upper_name,
};
use crate::planner::logical_plan::{ExprView, JoinType, PlanView};
use crate::planner::query::{
    aggregate_outputs, and_parts, convert_all, equalities, equality, factor_plan, from_plan,
    join_keys, join_parts, joined, key_fields, listed_aggregates, listed_keys, lists_aggregate,
    merged_fields, planned, select_plan, simple_outputs, sort_keys,
};
use crate::semantics::values::lemma_names_concat;
use crate::text::numeral;
use crate::types::{lemma_position, names, FieldView};
use crate::written::conditions::{
    lemma_all_matches, lemma_first_named, lemma_has_field, lemma_named_column, lemma_qualifies,
};
use crate::written::groups::{call_of, item_call, lemma_call};
use crate::written::tables::{
    from_fields, lemma_from_prefix, lemma_merged_plain, table_fields, table_named,
};
use crate::written::{compares, computes, connects, field_named, has_field, names_field};

verus! {

/// The name means a field, and no other.
pub open spec fn names_one(e: SqlView, fields: Seq<FieldView>) -> bool {
    exists|i: int| #[trigger]
        names_field(e, fields, i) && forall|j: int| #[trigger] names_field(e, fields, j) ==> j == i
}

/// The literal writes a constant.
pub open spec fn is_constant(v: ValueView) -> bool {
    match v {
        ValueView::Number(s) => {
            ||| numeral(s, true) matches Some(n) && i64::MIN <= n <= i64::MAX
            ||| float_of_text(s) is Some
        },
        ValueView::Other(_) => false,
        _ => true,
    }
}

/// The expression is made of names that mean one field each, constants, operators, parentheses and
/// aggregates of one argument.
pub open spec fn is_supported(e: SqlView, fields: Seq<FieldView>) -> bool
    decreases e,
{
    match e {
        SqlView::Identifier(_) => names_one(e, fields),
        SqlView::Compound(_) => names_one(e, fields),
        SqlView::Value(v) => is_constant(v),
        SqlView::Binary { left, op, right } => {
            &&& compares(op) || connects(op) || computes(op)
            &&& is_supported(*left, fields)
            &&& is_supported(*right, fields)
        },
        SqlView::Nested(inner) => is_supported(*inner, fields),
        SqlView::Function { args, .. } => call_of(e) is Some && match args[0] {
            ArgView::Wildcard => true,
            ArgView::Expr(a) => is_supported(a, fields),
            ArgView::Other => false,
        },
        _ => false,
    }
}

/// A name that means one field is resolved.
proof fn lemma_names_one(e: SqlView, schema: Seq<FieldView>, f: Seq<FieldView>)
    requires
        e is Identifier || e is Compound,
        names(f) == names(schema),
    ensures
        convert(e, schema) is Ok <==> names_one(e, f),
{
    let ns = names(f);
    if convert(e, schema) is Ok {
        lemma_named_column(e, schema, f);
    } else if names_one(e, f) {
        let i = choose|i: int| #[trigger]
            names_field(e, f, i) && forall|j: int| #[trigger] names_field(e, f, j) ==> j == i;
        match e {
            SqlView::Identifier(name) => {
                lemma_has_field(f, name);
                assert(!has_field(f, name));
                let found = suffix_matches(ns, name);
                lemma_all_matches(ns, name);
                lemma_qualifies(f[i].name, name);
                assert(ns[i] == f[i].name);
                assert(found.contains(i));
                assert forall|k: int| 0 <= k < found.len() implies found[k] == i by {
                    let at = found[k];
                    assert(named_so(ns[at], name));
                    assert(ns[at] == f[at].name);
                    if ns[at] == name {
                        assert(ns.contains(name));
                    }
                    lemma_qualifies(f[at].name, name);
                    assert(names_field(e, f, at));
                }
                lemma_matches_ascend(ns, name);
                assert(found.len() == 1) by {
                    if found.len() > 1 {
                        assert(found[0] < found[1]);
                    }
                }
            },
            SqlView::Compound(parts) => {
                lemma_has_field(f, parts[0] + "."@ + parts[1]);
                lemma_has_field(f, parts[1]);
                if !has_field(f, parts[0] + "."@ + parts[1]) {
                    lemma_first_named(f, parts[1], i);
                }
            },
            _ => {},
        }
    }
}

/// The indices that match a name ascend.
proof fn lemma_matches_ascend(list: Seq<Seq<char>>, name: Seq<char>)
    ensures
        forall|i: int, j: int|
            0 <= i < j < suffix_matches(list, name).len() ==> #[trigger] suffix_matches(list, name)[i]
                < #[trigger] suffix_matches(list, name)[j],
    decreases list.len(),
{
    if list.len() > 0 {
        let rest = suffix_matches(list.drop_last(), name);
        let all = suffix_matches(list, name);
        lemma_matches_ascend(list.drop_last(), name);
        lemma_all_matches(list.drop_last(), name);
        assert forall|i: int, j: int| 0 <= i < j < all.len() implies #[trigger] all[i] < #[trigger] all[j] by {
            assert(rest[i] < list.len() - 1);
            if j < rest.len() {
                assert(rest[i] < rest[j]);
            }
        }
    }
}

/// Law: an expression of a query is planned exactly if it is made of what is supported, each of its
/// names meaning one field.
pub proof fn law_supported_expressions_are_planned(
    e: SqlView,
    schema: Seq<FieldView>,
    f: Seq<FieldView>,
)
    requires
        names(f) == names(schema),
    ensures
        convert(e, schema) is Ok <==> is_supported(e, f),
    decreases e,
{
    match e {
        SqlView::Identifier(_) => { lemma_names_one(e, schema, f); },
        SqlView::Compound(_) => { lemma_names_one(e, schema, f); },
        SqlView::Binary { left, right, .. } => {
            law_supported_expressions_are_planned(*left, schema, f);
            law_supported_expressions_are_planned(*right, schema, f);
        },
        SqlView::Nested(inner) => { law_supported_expressions_are_planned(*inner, schema, f); },
        SqlView::Function { name, args } => {
            lemma_call(e, schema);
            assert(call_of(e) is Some ==> args.len() == 1);
            assert(call_of(e) is Some ==> agg_func(upper_name(name)) is Some);
            if args.len() == 1 {
                if let ArgView::Expr(a) = args[0] {
                    law_supported_expressions_are_planned(a, schema, f);
                }
            }
        },
        _ => {},
    }
}

/// A planned expression has a type.
pub proof fn lemma_planned_has_type(e: SqlView, schema: Seq<FieldView>)
    requires
        convert(e, schema) is Ok,
    ensures
        infer(convert(e, schema)->Ok_0, schema) is Ok,
    decreases e,
{
    match e {
        SqlView::Identifier(_) => {
            lemma_named_column(e, schema, schema);
            let i = field_named(e, schema);
            assert(names(schema)[i] == schema[i].name);
            lemma_position(names(schema), schema[i].name);
            assert(names(schema).contains(names(schema)[i]));
            let x = convert(e, schema)->Ok_0;
            assert(x is Column);
            assert(infer(x, schema) == column_type(x->Column_name, x->Column_relation, schema));
        },
        SqlView::Compound(_) => { lemma_named_column(e, schema, schema); },
        SqlView::Binary { left, right, .. } => {
            lemma_planned_has_type(*left, schema);
            lemma_planned_has_type(*right, schema);
        },
        SqlView::Nested(inner) => { lemma_planned_has_type(*inner, schema); },
        SqlView::Function { args, .. } => {
            if let ArgView::Expr(a) = args[0] {
                lemma_planned_has_type(a, schema);
            }
        },
        _ => {},
    }
}

/// The condition of a join is equalities, connected with AND.
pub open spec fn is_condition(c: SqlView, fields: Seq<FieldView>) -> bool
    decreases c,
{
    match c {
        SqlView::Nested(inner) => is_condition(*inner, fields),
        SqlView::Binary { left, op, right } => if op is And {
            is_condition(*left, fields) && is_condition(*right, fields)
        } else {
            op is Eq && is_supported(*left, fields) && is_supported(*right, fields)
        },
        _ => false,
    }
}

/// The key pairs of some equalities are found if each of them gives one.
proof fn lemma_equalities(cs: Seq<SqlView>, schema: Seq<FieldView>, width: nat)
    ensures
        equalities(cs, schema, width) is Ok <==> forall|i: int|
            0 <= i < cs.len() ==> equality(#[trigger] cs[i], schema, width) is Ok,
        equalities(cs, schema, width) matches Ok(on) ==> on.len() == cs.len(),
    decreases cs.len(),
{
    if cs.len() > 0 {
        let rest = cs.skip(1);
        lemma_equalities(rest, schema, width);
        if equalities(cs, schema, width) is Ok {
            assert forall|i: int| 0 <= i < cs.len() implies equality(#[trigger] cs[i], schema, width) is Ok by {
                if i > 0 {
                    assert(rest[i - 1] == cs[i]);
                }
            }
        } else if forall|i: int|
            0 <= i < cs.len() ==> equality(#[trigger] cs[i], schema, width) is Ok {
            assert(equality(cs[0], schema, width) is Ok);
            assert forall|i: int| 0 <= i < rest.len() implies equality(#[trigger] rest[i], schema, width) is Ok by {
                assert(rest[i] == cs[i + 1]);
            }
        }
    }
}

/// The parts of a condition are equalities if it is one of equalities.
proof fn lemma_condition_parts(c: SqlView, schema: Seq<FieldView>, f: Seq<FieldView>, width: nat)
    requires
        names(f) == names(schema),
    ensures
        and_parts(c).len() > 0,
        is_condition(c, f) <==> forall|i: int|
            0 <= i < and_parts(c).len() ==> equality(#[trigger] and_parts(c)[i], schema, width) is Ok,
    decreases c,
{
    match c {
        SqlView::Nested(inner) => { lemma_condition_parts(*inner, schema, f, width); },
        SqlView::Binary { left, op: OpView::And, right } => {
            lemma_condition_parts(*left, schema, f, width);
            lemma_condition_parts(*right, schema, f, width);
            let a = and_parts(*left);
            let b = and_parts(*right);
            let all = and_parts(c);
            assert(all == a + b);
            if forall|i: int| 0 <= i < all.len() ==> equality(#[trigger] all[i], schema, width) is Ok {
                assert forall|i: int| 0 <= i < a.len() implies equality(#[trigger] a[i], schema, width) is Ok by {
                    assert(all[i] == a[i]);
                }
                assert forall|i: int| 0 <= i < b.len() implies equality(#[trigger] b[i], schema, width) is Ok by {
                    assert(all[a.len() + i] == b[i]);
                }
            }
            if is_condition(c, f) {
                assert forall|i: int| 0 <= i < all.len() implies equality(#[trigger] all[i], schema, width) is Ok by {
                    if i < a.len() {
                        assert(all[i] == a[i]);
                    } else {
                        assert(all[i] == b[i - a.len()]);
                    }
                }
            }
        },
        _ => {
            let all = and_parts(c);
            assert(all == seq![c]);
            assert(all[0] == c);
            if let SqlView::Binary { left, right, .. } = c {
                law_supported_expressions_are_planned(*left, schema, f);
                law_supported_expressions_are_planned(*right, schema, f);
            }
            if equality(c, schema, width) is Ok {
                assert forall|i: int| 0 <= i < all.len() implies equality(#[trigger] all[i], schema, width) is Ok by {
                    assert(i == 0);
                }
            }
        },
    }
}

/// Law: a join finds its keys exactly if its condition is equalities between supported expressions,
/// connected with AND.
pub proof fn law_equality_joins_are_planned(
    c: SqlView,
    schema: Seq<FieldView>,
    f: Seq<FieldView>,
    width: nat,
)
    requires
        names(f) == names(schema),
    ensures
        join_keys(c, schema, width) is Ok <==> is_condition(c, f),
{
    lemma_condition_parts(c, schema, f, width);
    lemma_equalities(and_parts(c), schema, width);
}

/// The FROM item is a table of the catalog, under an alias where one is asked for.
pub open spec fn is_table(
    factor: FactorView,
    catalog: Map<Seq<char>, Seq<FieldView>>,
    aliased: bool,
) -> bool {
    match factor {
        FactorView::Table { alias, args, .. } => {
            &&& !args
            &&& catalog.dom().contains(table_named(factor))
            &&& aliased ==> alias is Some
        },
        FactorView::Other => false,
    }
}

/// The join is INNER or LEFT, on a condition over the fields.
pub open spec fn is_join(j: JoinView, fields: Seq<FieldView>) -> bool {
    match j.operator {
        JoinOpView::Inner(ConstraintView::On(c)) => is_condition(c, fields),
        JoinOpView::LeftOuter(ConstraintView::On(c)) => is_condition(c, fields),
        _ => false,
    }
}

/// The join `n` of FROM joins a table on a condition over the fields up to it.
pub open spec fn is_joined(from: FromView, catalog: Map<Seq<char>, Seq<FieldView>>, n: int) -> bool {
    &&& is_table(from.joins[n].relation, catalog, true)
    &&& is_join(from.joins[n], from_fields(from, catalog, (n + 1) as nat))
}

/// FROM names a table, or joins tables under aliases on equalities.
pub open spec fn is_from(from: FromView, catalog: Map<Seq<char>, Seq<FieldView>>) -> bool {
    &&& is_table(from.relation, catalog, from.joins.len() > 0)
    &&& forall|n: int| 0 <= n < from.joins.len() ==> #[trigger] is_joined(from, catalog, n)
}

/// A FROM item that is a table is planned, with the names of its fields.
proof fn lemma_table(factor: FactorView, catalog: Map<Seq<char>, Seq<FieldView>>, aliased: bool)
    ensures
        factor_plan(factor, catalog, aliased) is Ok <==> is_table(factor, catalog, aliased),
        factor_plan(factor, catalog, aliased) matches Ok(p) ==> names(p.1) == names(
            table_fields(factor, catalog, aliased),
        ),
{
    if let Ok(p) = factor_plan(factor, catalog, aliased) {
        assert(names(p.1) =~= names(table_fields(factor, catalog, aliased)));
    }
}

/// The tables from `n` on are joined if each of them can be.
proof fn lemma_joins_planned(
    plan: PlanView,
    schema: Seq<FieldView>,
    from: FromView,
    catalog: Map<Seq<char>, Seq<FieldView>>,
    n: nat,
)
    requires
        n <= from.joins.len(),
        names(from_fields(from, catalog, from.joins.len())).no_duplicates(),
        names(schema) == names(from_fields(from, catalog, n)),
    ensures
        joined(plan, schema, from.joins.skip(n as int), catalog) is Ok <==> forall|k: int|
            n <= k < from.joins.len() ==> #[trigger] is_joined(from, catalog, k),
        joined(plan, schema, from.joins.skip(n as int), catalog) matches Ok(p) ==> names(p.1)
            == names(from_fields(from, catalog, from.joins.len())),
    decreases from.joins.len() - n,
{
    let rest = from.joins.skip(n as int);
    if n < from.joins.len() {
        let j = from.joins[n as int];
        assert(rest[0] == j);
        let lf = from_fields(from, catalog, n);
        let rf = table_fields(j.relation, catalog, true);
        let f = from_fields(from, catalog, n + 1);
        lemma_table(j.relation, catalog, true);
        if factor_plan(j.relation, catalog, true) is Ok && join_parts(j.operator) is Ok {
            let right = factor_plan(j.relation, catalog, true)->Ok_0;
            let parts = join_parts(j.operator)->Ok_0;
            assert(f == lf + rf);
            lemma_from_prefix(from, catalog, n + 1, from.joins.len());
            lemma_names_concat(lf, rf);
            lemma_names_concat(schema, right.1);
            lemma_merged_plain(schema, right.1);
            let fields = schema + right.1;
            assert(names(fields) == names(f));
            law_equality_joins_are_planned(parts.1, fields, f, schema.len());
            if join_keys(parts.1, fields, schema.len()) is Ok {
                let join = PlanView::Join {
                    left: Box::new(plan),
                    right: Box::new(right.0),
                    on: join_keys(parts.1, fields, schema.len())->Ok_0,
                    join_type: parts.0,
                    schema: fields,
                };
                assert(joined(plan, schema, rest, catalog) == joined(
                    join,
                    fields,
                    rest.skip(1),
                    catalog,
                ));
                assert(rest.skip(1) =~= from.joins.skip((n + 1) as int));
                lemma_joins_planned(join, fields, from, catalog, n + 1);
                assert(is_joined(from, catalog, n as int));
            } else {
                assert(!is_joined(from, catalog, n as int));
            }
        } else {
            assert(!is_joined(from, catalog, n as int));
        }
    } else {
        assert(rest.len() == 0);
    }
}

/// Law: FROM is planned exactly if it names a table of the catalog, or joins such tables, each under
/// an alias, on equalities. No two columns of joined tables may have one name.
pub proof fn law_tables_are_planned(from: FromView, catalog: Map<Seq<char>, Seq<FieldView>>)
    requires
        from.joins.len() > 0 ==> names(
            from_fields(from, catalog, from.joins.len()),
        ).no_duplicates(),
    ensures
        from_plan(from, catalog) is Ok <==> is_from(from, catalog),
        from_plan(from, catalog) matches Ok(p) ==> names(p.1) == names(
            from_fields(from, catalog, from.joins.len()),
        ),
{
    lemma_table(from.relation, catalog, from.joins.len() > 0);
    if factor_plan(from.relation, catalog, from.joins.len() > 0) is Ok {
        let first = factor_plan(from.relation, catalog, from.joins.len() > 0)->Ok_0;
        if from.joins.len() > 0 {
            assert(from.joins.skip(0) =~= from.joins);
            lemma_joins_planned(first.0, first.1, from, catalog, 0);
        }
    }
}

/// The kinds of the joins at the top of a plan, from the lowest up.
pub open spec fn join_kinds(p: PlanView) -> Seq<JoinType>
    decreases p,
{
    match p {
        PlanView::Join { left, join_type, .. } => join_kinds(*left).push(join_type),
        _ => Seq::empty(),
    }
}

/// Joining further tables adds a join of its kind for each of them.
proof fn lemma_join_kinds(
    plan: PlanView,
    schema: Seq<FieldView>,
    js: Seq<JoinView>,
    catalog: Map<Seq<char>, Seq<FieldView>>,
)
    ensures
        joined(plan, schema, js, catalog) matches Ok(p) ==> {
            let kinds = join_kinds(p.0);
            let n = join_kinds(plan).len();
            &&& kinds.len() == n + js.len()
            &&& kinds.take(n as int) == join_kinds(plan)
            &&& forall|k: int|
                0 <= k < js.len() ==> ((#[trigger] js[k]).operator is LeftOuter <==> kinds[n + k]
                    == JoinType::Left)
        },
    decreases js.len(),
{
    if js.len() > 0 {
        if let Ok(p) = joined(plan, schema, js, catalog) {
            let right = factor_plan(js[0].relation, catalog, true)->Ok_0;
            let parts = join_parts(js[0].operator)->Ok_0;
            let fields = merged_fields(schema, right.1)->Ok_0;
            let join = PlanView::Join {
                left: Box::new(plan),
                right: Box::new(right.0),
                on: join_keys(parts.1, fields, schema.len())->Ok_0,
                join_type: parts.0,
                schema: fields,
            };
            lemma_join_kinds(join, fields, js.skip(1), catalog);
            let kinds = join_kinds(p.0);
            let n = join_kinds(plan).len() as int;
            assert(join_kinds(join) == join_kinds(plan).push(parts.0));
            assert(kinds.take(n + 1)[n] == kinds[n]);
            assert(kinds.take(n) =~= kinds.take(n + 1).take(n));
            assert(join_kinds(join).take(n) =~= join_kinds(plan));
            assert forall|k: int| 0 <= k < js.len() implies ((#[trigger] js[k]).operator is LeftOuter
                <==> kinds[n + k] == JoinType::Left) by {
                if k > 0 {
                    assert(js.skip(1)[k - 1] == js[k]);
                }
            }
        }
    } else {
        assert(join_kinds(plan).take(join_kinds(plan).len() as int) =~= join_kinds(plan));
    }
}

/// Law: FROM is planned with a join for each that is written, a LEFT join where LEFT is written and
/// an inner one where it is not.
pub proof fn law_joins_keep_their_kind(from: FromView, catalog: Map<Seq<char>, Seq<FieldView>>)
    ensures
        from_plan(from, catalog) matches Ok(p) ==> {
            &&& join_kinds(p.0).len() == from.joins.len()
            &&& forall|k: int|
                0 <= k < from.joins.len() ==> ((#[trigger] from.joins[k]).operator is LeftOuter <==> join_kinds(
                    p.0,
                )[k] == JoinType::Left)
        },
{
    if let Ok(first) = factor_plan(from.relation, catalog, from.joins.len() > 0) {
        lemma_join_kinds(first.0, first.1, from.joins, catalog);
    }
}

/// The expression of a SELECT item, if it has one.
pub open spec fn item_expr(item: ItemView) -> Option<SqlView> {
    match item {
        ItemView::Unnamed(e) => Some(e),
        ItemView::Aliased { expr, .. } => Some(expr),
        _ => None,
    }
}

/// The expression of a SELECT item is supported, if it has one.
pub open spec fn item_supported(item: ItemView, fields: Seq<FieldView>) -> bool {
    item_expr(item) matches Some(e) ==> is_supported(e, fields)
}

/// Every expression of a SELECT list is supported.
pub open spec fn items_supported(items: Seq<ItemView>, fields: Seq<FieldView>) -> bool {
    forall|i: int| 0 <= i < items.len() ==> item_supported(#[trigger] items[i], fields)
}

/// The SELECT item is an expression that is no aggregate.
pub open spec fn is_key(item: ItemView) -> bool {
    item_expr(item) is Some && item_call(item) is None
}

/// Some item of the SELECT list is an aggregate.
pub open spec fn has_call(items: Seq<ItemView>) -> bool {
    exists|i: int| 0 <= i < items.len() && item_call(#[trigger] items[i]) is Some
}

/// Two expressions of a query are one to the planner.
pub open spec fn same_planned(a: SqlView, b: SqlView, fields: Seq<FieldView>) -> bool {
    convert(a, fields) == convert(b, fields)
}

/// The expression is one of GROUP BY.
#[verifier::opaque]
pub open spec fn is_grouped_by(e: SqlView, gs: Seq<SqlView>, fields: Seq<FieldView>) -> bool {
    exists|c: int| 0 <= c < gs.len() && same_planned(e, #[trigger] gs[c], fields)
}

/// The expression of GROUP BY is listed.
#[verifier::opaque]
pub open spec fn is_listed(g: SqlView, items: Seq<ItemView>, fields: Seq<FieldView>) -> bool {
    exists|i: int|
        0 <= i < items.len() && is_key(#[trigger] items[i]) && same_planned(
            item_expr(items[i])->Some_0,
            g,
            fields,
        )
}

/// Beside its aggregates, of which there is one, the SELECT list has the expressions of GROUP BY, all
/// of them and each once, without labels.
pub open spec fn lists_groups(items: Seq<ItemView>, gs: Seq<SqlView>, fields: Seq<FieldView>) -> bool {
    &&& has_call(items)
    &&& forall|i: int|
        0 <= i < items.len() ==> match #[trigger] items[i] {
            ItemView::Unnamed(e) => item_call(items[i]) is Some || is_grouped_by(e, gs, fields),
            ItemView::Aliased { .. } => item_call(items[i]) is Some,
            _ => false,
        }
    &&& forall|c: int| 0 <= c < gs.len() ==> is_listed(#[trigger] gs[c], items, fields)
    &&& forall|i: int, j: int|
        0 <= i < j < items.len() && is_key(#[trigger] items[i]) && is_key(#[trigger] items[j])
            ==> !same_planned(item_expr(items[i])->Some_0, item_expr(items[j])->Some_0, fields)
}

/// What a SELECT list without aggregates gives is found if its expressions are supported.
proof fn lemma_simple_planned(items: Seq<ItemView>, schema: Seq<FieldView>, f: Seq<FieldView>)
    requires
        names(f) == names(schema),
    ensures
        simple_outputs(items, schema) is Ok <==> items_supported(items, f),
    decreases items.len(),
{
    if items.len() > 0 {
        let rest = items.skip(1);
        lemma_simple_planned(rest, schema, f);
        lemma_items_supported(items, f);
        if let Some(e) = item_expr(items[0]) {
            law_supported_expressions_are_planned(e, schema, f);
            if convert(e, schema) is Ok {
                lemma_planned_has_type(e, schema);
            }
        }
    }
}

/// The expressions of a list are supported if those of its first item and of the rest are.
proof fn lemma_items_supported(items: Seq<ItemView>, f: Seq<FieldView>)
    requires
        items.len() > 0,
    ensures
        items_supported(items, f) <==> item_supported(items[0], f) && items_supported(
            items.skip(1),
            f,
        ),
{
    let rest = items.skip(1);
    if items_supported(items, f) {
        assert forall|i: int| 0 <= i < rest.len() implies item_supported(#[trigger] rest[i], f) by {
            assert(rest[i] == items[i + 1]);
        }
    }
    if item_supported(items[0], f) && items_supported(rest, f) {
        assert forall|i: int| 0 <= i < items.len() implies item_supported(#[trigger] items[i], f) by {
            if i > 0 {
                assert(rest[i - 1] == items[i]);
            }
        }
    }
}

/// Some expressions are planned if each of them is supported.
proof fn lemma_all_planned(es: Seq<SqlView>, schema: Seq<FieldView>, f: Seq<FieldView>)
    requires
        names(f) == names(schema),
    ensures
        convert_all(es, schema) is Ok <==> forall|i: int|
            0 <= i < es.len() ==> is_supported(#[trigger] es[i], f),
        convert_all(es, schema) matches Ok(xs) ==> xs.len() == es.len() && forall|i: int|
            0 <= i < es.len() ==> convert(#[trigger] es[i], schema) == Ok::<ExprView, ErrorView>(
                xs[i],
            ),
    decreases es.len(),
{
    if es.len() > 0 {
        let rest = es.skip(1);
        lemma_all_planned(rest, schema, f);
        law_supported_expressions_are_planned(es[0], schema, f);
        if forall|i: int| 0 <= i < es.len() ==> is_supported(#[trigger] es[i], f) {
            assert forall|i: int| 0 <= i < rest.len() implies is_supported(#[trigger] rest[i], f) by {
                assert(rest[i] == es[i + 1]);
            }
            assert(is_supported(es[0], f));
        }
        if convert_all(es, schema) is Ok {
            let xs = convert_all(es, schema)->Ok_0;
            let ys = convert_all(rest, schema)->Ok_0;
            assert forall|i: int| 0 <= i < es.len() implies is_supported(#[trigger] es[i], f) && convert(
                es[i],
                schema,
            ) == Ok::<ExprView, ErrorView>(xs[i]) by {
                if i > 0 {
                    assert(rest[i - 1] == es[i]);
                    assert(xs[i] == ys[i - 1]);
                }
            }
        }
    }
}

/// The expressions beside the aggregates of a list, planned.
pub open spec fn planned_keys(items: Seq<ItemView>, schema: Seq<FieldView>) -> Seq<ExprView>
    decreases items.len(),
{
    if items.len() == 0 {
        Seq::empty()
    } else if is_key(items[0]) {
        seq![convert(item_expr(items[0])->Some_0, schema)->Ok_0] + planned_keys(items.skip(1), schema)
    } else {
        planned_keys(items.skip(1), schema)
    }
}

/// A list without labels on its keys lists them, and its aggregates are found, if its expressions are
/// supported and it has no wildcard.
proof fn lemma_aggregates_planned(items: Seq<ItemView>, schema: Seq<FieldView>, f: Seq<FieldView>)
    requires
        names(f) == names(schema),
    ensures
        listed_keys(items, schema) is Ok && listed_aggregates(items, schema) is Ok <==> (
        items_supported(items, f) && forall|i: int|
            0 <= i < items.len() ==> item_expr(#[trigger] items[i]) is Some && (items[i] is Aliased
                ==> item_call(items[i]) is Some)),
        listed_keys(items, schema) is Ok && listed_aggregates(items, schema) is Ok ==> {
            &&& listed_keys(items, schema)->Ok_0 == planned_keys(items, schema)
            &&& (listed_aggregates(items, schema)->Ok_0.0.len() > 0 <==> has_call(items))
        },
    decreases items.len(),
{
    if items.len() > 0 {
        let rest = items.skip(1);
        lemma_aggregates_planned(rest, schema, f);
        lemma_items_supported(items, f);
        let plain = |s: Seq<ItemView>| forall|i: int|
            0 <= i < s.len() ==> item_expr(#[trigger] s[i]) is Some && (s[i] is Aliased ==> item_call(
                s[i],
            ) is Some);
        if plain(items) {
            assert forall|i: int| 0 <= i < rest.len() implies item_expr(#[trigger] rest[i]) is Some && (
            rest[i] is Aliased ==> item_call(rest[i]) is Some) by {
                assert(rest[i] == items[i + 1]);
            }
        }
        if plain(rest) && item_expr(items[0]) is Some && (items[0] is Aliased ==> item_call(items[0]) is Some) {
            assert forall|i: int| 0 <= i < items.len() implies item_expr(#[trigger] items[i]) is Some && (
            items[i] is Aliased ==> item_call(items[i]) is Some) by {
                if i > 0 {
                    assert(rest[i - 1] == items[i]);
                }
            }
        }
        assert(has_call(items) <==> item_call(items[0]) is Some || has_call(rest)) by {
            if has_call(rest) {
                let i = choose|i: int| 0 <= i < rest.len() && item_call(#[trigger] rest[i]) is Some;
                assert(items[i + 1] == rest[i]);
            }
            if has_call(items) && item_call(items[0]) is None {
                let i = choose|i: int| 0 <= i < items.len() && item_call(#[trigger] items[i]) is Some;
                assert(rest[i - 1] == items[i]);
            }
        }
        if let Some(e) = item_expr(items[0]) {
            law_supported_expressions_are_planned(e, schema, f);
            lemma_call(e, schema);
            if convert(e, schema) is Ok {
                lemma_planned_has_type(e, schema);
            }
        }
    }
}

/// Planning an expression goes by the names of the fields alone.
proof fn lemma_convert_by_names(e: SqlView, schema: Seq<FieldView>, f: Seq<FieldView>)
    requires
        names(f) == names(schema),
    ensures
        convert(e, f) == convert(e, schema),
    decreases e,
{
    match e {
        SqlView::Binary { left, right, .. } => {
            lemma_convert_by_names(*left, schema, f);
            lemma_convert_by_names(*right, schema, f);
        },
        SqlView::Nested(inner) => { lemma_convert_by_names(*inner, schema, f); },
        SqlView::Function { args, .. } => {
            if args.len() == 1 {
                if let ArgView::Expr(a) = args[0] {
                    lemma_convert_by_names(a, schema, f);
                }
            }
        },
        _ => {},
    }
}

/// The item is a key that is planned as `x`.
pub open spec fn keyed(item: ItemView, schema: Seq<FieldView>, x: ExprView) -> bool {
    is_key(item) && convert(item_expr(item)->Some_0, schema)->Ok_0 == x
}

/// The planned keys are those of the items, and none is there twice if no two items have it.
proof fn lemma_planned_keys(items: Seq<ItemView>, schema: Seq<FieldView>)
    ensures
        forall|x: ExprView| #[trigger]
            planned_keys(items, schema).contains(x) <==> exists|i: int|
                0 <= i < items.len() && keyed(#[trigger] items[i], schema, x),
        planned_keys(items, schema).no_duplicates() <==> forall|i: int, j: int, x: ExprView|
            0 <= i < j < items.len() && #[trigger] keyed(items[i], schema, x) ==> !(#[trigger] keyed(
                items[j],
                schema,
                x,
            )),
    decreases items.len(),
{
    if items.len() > 0 {
        let rest = items.skip(1);
        let keys = planned_keys(items, schema);
        let more = planned_keys(rest, schema);
        lemma_planned_keys(rest, schema);
        let head = convert(item_expr(items[0])->Some_0, schema)->Ok_0;
        let d: int = if is_key(items[0]) { 1 } else { 0 };
        assert(keys == (if is_key(items[0]) { seq![head] } else { Seq::empty() }) + more);
        assert forall|x: ExprView| #[trigger] keys.contains(x) <==> exists|i: int|
            0 <= i < items.len() && keyed(#[trigger] items[i], schema, x) by {
            if keys.contains(x) {
                let k = choose|k: int| 0 <= k < keys.len() && keys[k] == x;
                if k < d {
                    assert(keyed(items[0], schema, x));
                } else {
                    assert(more[k - d] == x);
                    assert(more.contains(x));
                    let i = choose|i: int| 0 <= i < rest.len() && keyed(#[trigger] rest[i], schema, x);
                    assert(items[i + 1] == rest[i]);
                }
            }
            if exists|i: int| 0 <= i < items.len() && keyed(#[trigger] items[i], schema, x) {
                let i = choose|i: int| 0 <= i < items.len() && keyed(#[trigger] items[i], schema, x);
                if i == 0 {
                    assert(keys[0] == x);
                } else {
                    assert(rest[i - 1] == items[i]);
                    assert(more.contains(x));
                    let k = choose|k: int| 0 <= k < more.len() && more[k] == x;
                    assert(keys[k + d] == x);
                }
            }
        }
        if keys.no_duplicates() {
            assert(more.no_duplicates()) by {
                assert forall|a: int, b: int|
                    0 <= a < more.len() && 0 <= b < more.len() && a != b implies more[a] != more[b] by {
                    assert(keys[a + d] == more[a]);
                    assert(keys[b + d] == more[b]);
                }
            }
            assert forall|i: int, j: int, x: ExprView|
                0 <= i < j < items.len() && #[trigger] keyed(items[i], schema, x) implies !(
            #[trigger] keyed(items[j], schema, x)) by {
                assert(rest[j - 1] == items[j]);
                if i > 0 {
                    assert(rest[i - 1] == items[i]);
                    assert(keyed(rest[i - 1], schema, x));
                } else if keyed(items[j], schema, x) {
                    assert(keyed(rest[j - 1], schema, x));
                    assert(more.contains(x));
                    let k = choose|k: int| 0 <= k < more.len() && more[k] == x;
                    assert(keys[k + 1] == x && keys[0] == x);
                }
            }
        } else if forall|i: int, j: int, x: ExprView|
            0 <= i < j < items.len() && #[trigger] keyed(items[i], schema, x) ==> !(#[trigger] keyed(
                items[j],
                schema,
                x,
            )) {
            assert forall|i: int, j: int, x: ExprView|
                0 <= i < j < rest.len() && #[trigger] keyed(rest[i], schema, x) implies !(
            #[trigger] keyed(rest[j], schema, x)) by {
                assert(rest[i] == items[i + 1]);
                assert(rest[j] == items[j + 1]);
                assert(keyed(items[i + 1], schema, x));
            }
            assert(more.no_duplicates());
            assert forall|a: int, b: int|
                0 <= a < b < keys.len() implies keys[a] != keys[b] by {
                if a >= d {
                    assert(keys[a] == more[a - d]);
                    assert(keys[b] == more[b - d]);
                } else {
                    assert(keys[b] == more[b - d]);
                    assert(more.contains(keys[b]));
                    let x = keys[b];
                    let i = choose|i: int| 0 <= i < rest.len() && keyed(#[trigger] rest[i], schema, x);
                    assert(items[i + 1] == rest[i]);
                    assert(keyed(items[i + 1], schema, x));
                    assert(!keyed(items[0], schema, x));
                }
            }
            assert(keys.no_duplicates());
        }
    }
}

/// The fields of planned keys are found.
proof fn lemma_key_fields(es: Seq<SqlView>, schema: Seq<FieldView>, keys: Seq<ExprView>)
    requires
        keys.len() == es.len(),
        forall|i: int|
            0 <= i < es.len() ==> convert(#[trigger] es[i], schema) == Ok::<ExprView, ErrorView>(
                keys[i],
            ),
    ensures
        key_fields(keys, schema) is Ok,
    decreases es.len(),
{
    if es.len() > 0 {
        assert(convert(es[0], schema) == Ok::<ExprView, ErrorView>(keys[0]));
        lemma_planned_has_type(es[0], schema);
        assert forall|i: int| 0 <= i < es.skip(1).len() implies convert(
            #[trigger] es.skip(1)[i],
            schema,
        ) == Ok::<ExprView, ErrorView>(keys.skip(1)[i]) by {
            assert(es.skip(1)[i] == es[i + 1]);
        }
        lemma_key_fields(es.skip(1), schema, keys.skip(1));
    }
}

/// The keys of a list are planned over the fields, and so are the groups.
spec fn keys_planned(
    items: Seq<ItemView>,
    gs: Seq<SqlView>,
    group_by: Seq<ExprView>,
    schema: Seq<FieldView>,
    f: Seq<FieldView>,
) -> bool {
    &&& gs.len() == group_by.len()
    &&& forall|c: int|
        0 <= c < gs.len() ==> convert(#[trigger] gs[c], f) == Ok::<ExprView, ErrorView>(group_by[c])
    &&& forall|i: int|
        0 <= i < items.len() ==> item_expr(#[trigger] items[i]) is Some && (is_key(items[i])
            ==> items[i] is Unnamed && convert(item_expr(items[i])->Some_0, f) is Ok && convert(
            item_expr(items[i])->Some_0,
            schema,
        ) == convert(item_expr(items[i])->Some_0, f))
}

/// A list whose keys are the groups, each once, lists the groups.
proof fn lemma_keys_list_groups(
    items: Seq<ItemView>,
    gs: Seq<SqlView>,
    group_by: Seq<ExprView>,
    schema: Seq<FieldView>,
    f: Seq<FieldView>,
)
    requires
        keys_planned(items, gs, group_by, schema, f),
        planned_keys(items, schema).no_duplicates(),
        planned_keys(items, schema).to_set() == group_by.to_set(),
        has_call(items),
    ensures
        lists_groups(items, gs, f),
{
    let keys = planned_keys(items, schema);
    lemma_planned_keys(items, schema);
    assert forall|i: int| 0 <= i < items.len() implies match #[trigger] items[i] {
        ItemView::Unnamed(e) => item_call(items[i]) is Some || is_grouped_by(e, gs, f),
        ItemView::Aliased { .. } => item_call(items[i]) is Some,
        _ => false,
    } by {
        reveal(is_grouped_by);
        assert(item_expr(items[i]) is Some);
        if is_key(items[i]) {
            let x = convert(item_expr(items[i])->Some_0, schema)->Ok_0;
            assert(keyed(items[i], schema, x));
            assert(keys.contains(x));
            assert(keys.to_set().contains(x));
            assert(group_by.to_set().contains(x));
            let c = choose|c: int| 0 <= c < group_by.len() && group_by[c] == x;
            assert(same_planned(item_expr(items[i])->Some_0, gs[c], f));
        }
    }
    assert forall|c: int| 0 <= c < gs.len() implies is_listed(#[trigger] gs[c], items, f) by {
        reveal(is_listed);
        let x = group_by[c];
        assert(group_by.to_set().contains(x));
        assert(keys.to_set().contains(x));
        assert(keys.contains(x));
        let i = choose|i: int| 0 <= i < items.len() && keyed(#[trigger] items[i], schema, x);
        assert(is_key(items[i]));
        assert(same_planned(item_expr(items[i])->Some_0, gs[c], f));
    }
    assert forall|i: int, j: int|
        0 <= i < j < items.len() && is_key(#[trigger] items[i]) && is_key(
            #[trigger] items[j],
        ) implies !same_planned(item_expr(items[i])->Some_0, item_expr(items[j])->Some_0, f) by {
        let x = convert(item_expr(items[i])->Some_0, schema)->Ok_0;
        assert(keyed(items[i], schema, x));
        assert(!keyed(items[j], schema, x));
    }
}

/// The keys of a list that lists the groups are the groups, each once.
proof fn lemma_groups_are_keys(
    items: Seq<ItemView>,
    gs: Seq<SqlView>,
    group_by: Seq<ExprView>,
    schema: Seq<FieldView>,
    f: Seq<FieldView>,
)
    requires
        keys_planned(items, gs, group_by, schema, f),
        lists_groups(items, gs, f),
    ensures
        planned_keys(items, schema).no_duplicates(),
        planned_keys(items, schema).to_set() == group_by.to_set(),
{
    let keys = planned_keys(items, schema);
    lemma_planned_keys(items, schema);
    assert forall|x: ExprView| #[trigger] keys.to_set().contains(x) <==> group_by.to_set().contains(
        x,
    ) by {
        if keys.contains(x) {
            let i = choose|i: int| 0 <= i < items.len() && keyed(#[trigger] items[i], schema, x);
            assert(is_key(items[i]));
            reveal(is_grouped_by);
            let c = choose|c: int|
                0 <= c < gs.len() && same_planned(item_expr(items[i])->Some_0, #[trigger] gs[c], f);
            assert(group_by[c] == x);
        }
        if group_by.contains(x) {
            let c = choose|c: int| 0 <= c < group_by.len() && group_by[c] == x;
            assert(convert(gs[c], f) == Ok::<ExprView, ErrorView>(x));
            assert(is_listed(gs[c], items, f));
            reveal(is_listed);
            let i = choose|i: int|
                0 <= i < items.len() && is_key(#[trigger] items[i]) && same_planned(
                    item_expr(items[i])->Some_0,
                    gs[c],
                    f,
                );
            assert(keyed(items[i], schema, x));
            assert(keys.contains(x));
        }
    }
    assert(keys.to_set() =~= group_by.to_set());
    assert forall|i: int, j: int, x: ExprView|
        0 <= i < j < items.len() && #[trigger] keyed(items[i], schema, x) implies !(#[trigger] keyed(
        items[j],
        schema,
        x,
    )) by {
        if keyed(items[j], schema, x) {
            assert(is_key(items[i]) && is_key(items[j]));
            assert(same_planned(item_expr(items[i])->Some_0, item_expr(items[j])->Some_0, f));
        }
    }
}

/// An aggregation is planned if its list is supported and lists the groups.
proof fn lemma_aggregation_planned(
    items: Seq<ItemView>,
    gs: Seq<SqlView>,
    group_by: Seq<ExprView>,
    schema: Seq<FieldView>,
    f: Seq<FieldView>,
)
    requires
        names(f) == names(schema),
        convert_all(gs, schema) == Ok::<Seq<ExprView>, ErrorView>(group_by),
    ensures
        aggregate_outputs(items, group_by, schema) is Ok <==> items_supported(items, f)
            && lists_groups(items, gs, f),
{
    lemma_aggregates_planned(items, schema, f);
    lemma_all_planned(gs, schema, f);
    lemma_key_fields(gs, schema, group_by);
    if listed_keys(items, schema) is Ok && listed_aggregates(items, schema) is Ok {
        assert(keys_planned(items, gs, group_by, schema, f)) by {
            assert forall|i: int| 0 <= i < items.len() implies item_expr(#[trigger] items[i]) is Some && (
            is_key(items[i]) ==> items[i] is Unnamed && convert(item_expr(items[i])->Some_0, f) is Ok
                && convert(item_expr(items[i])->Some_0, schema) == convert(
                item_expr(items[i])->Some_0,
                f,
            )) by {
                let e = item_expr(items[i])->Some_0;
                assert(item_supported(items[i], f));
                law_supported_expressions_are_planned(e, schema, f);
                lemma_convert_by_names(e, schema, f);
            }
            assert forall|c: int| 0 <= c < gs.len() implies convert(#[trigger] gs[c], f) == Ok::<
                ExprView,
                ErrorView,
            >(group_by[c]) by {
                lemma_convert_by_names(gs[c], schema, f);
            }
        }
        if aggregate_outputs(items, group_by, schema) is Ok {
            lemma_keys_list_groups(items, gs, group_by, schema, f);
        }
        if lists_groups(items, gs, f) {
            lemma_groups_are_keys(items, gs, group_by, schema, f);
        }
    } else {
        assert(aggregate_outputs(items, group_by, schema) is Err);
    }
}

/// WHERE is not there, or supported.
pub open spec fn is_where(selection: Option<SqlView>, fields: Seq<FieldView>) -> bool {
    selection matches Some(e) ==> is_supported(e, fields)
}

/// The SELECT has no clause but its list, one FROM item, WHERE and GROUP BY.
pub open spec fn is_simple(select: SelectView) -> bool {
    &&& !select.into && !select.distinct && !select.having && !select.qualify && !select.top
    &&& select.lateral_views == 0 && select.cluster_by == 0 && select.distribute_by == 0
    &&& select.sort_by == 0 && select.named_window == 0
    &&& select.from.len() == 1
    &&& select.group_by is Expressions
}

/// The SELECT can be planned: its clauses are supported, and where it aggregates, its list is that of
/// the groups.
pub open spec fn is_select(select: SelectView, catalog: Map<Seq<char>, Seq<FieldView>>) -> bool {
    let f = from_fields(select.from[0], catalog, select.from[0].joins.len());
    &&& is_simple(select)
    &&& is_from(select.from[0], catalog)
    &&& is_where(select.selection, f)
    &&& items_supported(select.projection, f)
    &&& match select.group_by {
        GroupByView::Expressions(gs) => has_call(select.projection) || gs.len() > 0 ==> {
            &&& forall|c: int| 0 <= c < gs.len() ==> is_supported(#[trigger] gs[c], f)
            &&& lists_groups(select.projection, gs, f)
        },
        GroupByView::All => false,
    }
}

/// Law: a SELECT is planned exactly if it has none of the clauses that are not supported, and its
/// FROM, WHERE, GROUP BY and list are what they have to be. No two columns of joined tables may have
/// one name.
pub proof fn law_selects_are_planned(select: SelectView, catalog: Map<Seq<char>, Seq<FieldView>>)
    requires
        forall|i: int|
            0 <= i < select.from.len() && (#[trigger] select.from[i]).joins.len() > 0 ==> names(
                from_fields(select.from[i], catalog, select.from[i].joins.len()),
            ).no_duplicates(),
    ensures
        select_plan(select, catalog) is Ok <==> is_select(select, catalog),
{
    let items = select.projection;
    if is_simple(select) {
        let from = select.from[0];
        let gs = select.group_by->Expressions_0;
        let f = from_fields(from, catalog, from.joins.len());
        law_tables_are_planned(from, catalog);
        if from_plan(from, catalog) is Ok {
            let p = from_plan(from, catalog)->Ok_0;
            let schema = p.1;
            if let Some(e) = select.selection {
                law_supported_expressions_are_planned(e, schema, f);
            }
            lemma_simple_planned(items, schema, f);
            lemma_all_planned(gs, schema, f);
            if let Ok(group_by) = convert_all(gs, schema) {
                lemma_aggregation_planned(items, gs, group_by, schema, f);
            }
            if items_supported(items, f) {
                assert(lists_aggregate(items) <==> has_call(items)) by {
                    if lists_aggregate(items) {
                        let i = choose|i: int|
                            0 <= i < items.len() && match #[trigger] items[i] {
                                ItemView::Unnamed(e) => is_aggregate(e),
                                ItemView::Aliased { expr, .. } => is_aggregate(expr),
                                _ => false,
                            };
                        let e = item_expr(items[i])->Some_0;
                        assert(item_supported(items[i], f));
                        law_supported_expressions_are_planned(e, schema, f);
                        lemma_call(e, schema);
                        assert(item_call(items[i]) is Some);
                    }
                    if has_call(items) {
                        let i = choose|i: int|
                            0 <= i < items.len() && item_call(#[trigger] items[i]) is Some;
                        lemma_call(item_expr(items[i])->Some_0, schema);
                    }
                }
            }
        }
    }
}

/// ORDER BY is of supported expressions.
pub open spec fn is_order(order: Seq<OrderByView>, fields: Seq<FieldView>) -> bool {
    forall|i: int| 0 <= i < order.len() ==> is_supported((#[trigger] order[i]).expr, fields)
}

/// LIMIT is not there, or a number of rows.
pub open spec fn is_limit(limit: Option<SqlView>) -> bool {
    match limit {
        Some(SqlView::Value(ValueView::Number(s))) => numeral(s, false) matches Some(n) && 0 <= n
            <= usize::MAX,
        Some(_) => false,
        None => true,
    }
}

/// The keys of ORDER BY are planned if they are supported.
proof fn lemma_order_planned(order: Seq<OrderByView>, schema: Seq<FieldView>)
    ensures
        sort_keys(order, schema) is Ok <==> is_order(order, schema),
    decreases order.len(),
{
    if order.len() > 0 {
        let rest = order.skip(1);
        lemma_order_planned(rest, schema);
        law_supported_expressions_are_planned(order[0].expr, schema, schema);
        if is_order(order, schema) {
            assert(is_supported(order[0].expr, schema));
            assert forall|i: int| 0 <= i < rest.len() implies is_supported(
                (#[trigger] rest[i]).expr,
                schema,
            ) by {
                assert(rest[i] == order[i + 1]);
            }
        }
        if is_supported(order[0].expr, schema) && is_order(rest, schema) {
            assert forall|i: int| 0 <= i < order.len() implies is_supported(
                (#[trigger] order[i]).expr,
                schema,
            ) by {
                if i > 0 {
                    assert(rest[i - 1] == order[i]);
                }
            }
        }
    }
}

/// Law: a statement is planned exactly if it is a query without WITH, of a SELECT that is planned,
/// its ORDER BY over the fields of the result and its LIMIT a number.
pub proof fn law_queries_are_planned(
    statement: StatementView,
    catalog: Map<Seq<char>, Seq<FieldView>>,
)
    ensures
        planned(statement, catalog) is Ok <==> match statement {
            StatementView::Query(q) => !q.with && is_limit(q.limit) && match q.body {
                SetExprView::Select(s) => select_plan(s, catalog) matches Ok(p) && is_order(
                    q.order_by,
                    p.schema(),
                ),
                SetExprView::Other => false,
            },
            StatementView::Other => false,
        },
{
    if let StatementView::Query(q) = statement {
        if let SetExprView::Select(s) = q.body {
            if let Ok(p) = select_plan(s, catalog) {
                lemma_order_planned(q.order_by, p.schema());
            }
        }
    }
}

} // verus!
