//! From a parsed query to a logical plan.

use vstd::prelude::*;
use crate::error::{plan_error, result_view, ArborError, ErrorView};
use crate::optimizer::columns::{collect_columns, columns, ColumnSet};
use crate::optimizer::predicate_pushdown::{names_after, names_before};
use crate::parser::ast::{
    BinaryOperator, ConstraintView, FactorView, FromView, GroupByExpr, GroupByView, ItemView, Join,
    JoinConstraint, JoinOpView, JoinOperator, JoinView, OpView, OrderByExpr, OrderByView, Query,
    QueryView, Select, SelectItem, SelectView, SetExpr, SetExprView, SqlExpr, SqlView, Statement,
    StatementView, TableFactor, TableWithJoins, Value, ValueView,
};
use crate::planner::expressions::{
    convert, convert_expr, default_name, default_output_name, infer, infer_expr_type, is_aggregate,
    is_aggregate_sql_expr, last_part, object_name_last, outcome,
};
use crate::planner::logical_plan::{
    Expr, ExprView, JoinType, LogicalPlan, PlanView, SortExpr, SortView,
};
use crate::text::{begins, join2, join3, numeral_in, parse_usize, starts_with};
use crate::types::{lemma_views_push, names, views, Catalog, Field, FieldView, Schema};

verus! {

/// Some outputs, then those of a result.
pub open spec fn followed(
    head: (Seq<ExprView>, Seq<FieldView>),
    rest: Result<(Seq<ExprView>, Seq<FieldView>), ErrorView>,
) -> Result<(Seq<ExprView>, Seq<FieldView>), ErrorView> {
    match rest {
        Ok(t) => Ok((head.0 + t.0, head.1 + t.1)),
        Err(x) => Err(x),
    }
}

/// One output under the given name.
pub open spec fn one_output(
    e: SqlView,
    label: Option<Seq<char>>,
    schema: Seq<FieldView>,
) -> Result<(Seq<ExprView>, Seq<FieldView>), ErrorView> {
    match convert(e, schema) {
        Err(x) => Err(x),
        Ok(ex) => match infer(ex, schema) {
            Err(x) => Err(x),
            Ok(t) => Ok(
                (
                    seq![ex],
                    seq![
                        FieldView {
                            name: match label {
                                Some(n) => n,
                                None => default_name(ex),
                            },
                            data_type: t,
                        },
                    ],
                ),
            ),
        },
    }
}

/// The field belongs to the relation: its name begins with the relation's and a dot.
pub open spec fn belongs(field: Seq<char>, relation: Seq<char>) -> bool {
    begins(field, relation + "."@)
}

/// The fields of a schema as columns without qualifier.
pub open spec fn all_columns(schema: Seq<FieldView>) -> Seq<ExprView> {
    Seq::new(schema.len(), |i: int| ExprView::Column { name: schema[i].name, relation: None })
}

/// The fields of one relation, and the columns that they are.
pub open spec fn relation_outputs(schema: Seq<FieldView>, relation: Seq<char>) -> (
    Seq<ExprView>,
    Seq<FieldView>,
)
    decreases schema.len(),
{
    if schema.len() == 0 {
        (Seq::empty(), Seq::empty())
    } else {
        let rest = relation_outputs(schema.drop_last(), relation);
        let f = schema.last();
        if belongs(f.name, relation) {
            (
                rest.0.push(
                    ExprView::Column {
                        name: f.name.skip(relation.len() as int + 1),
                        relation: Some(relation),
                    },
                ),
                rest.1.push(f),
            )
        } else {
            rest
        }
    }
}

/// What one SELECT item gives, without aggregation.
pub open spec fn item_outputs(item: ItemView, schema: Seq<FieldView>) -> Result<
    (Seq<ExprView>, Seq<FieldView>),
    ErrorView,
> {
    match item {
        ItemView::Unnamed(e) => one_output(e, None, schema),
        ItemView::Aliased { expr, alias } => one_output(expr, Some(alias), schema),
        ItemView::Wildcard => Ok((all_columns(schema), schema)),
        ItemView::QualifiedWildcard(parts) => Ok(relation_outputs(schema, last_part(parts))),
    }
}

/// What a SELECT list gives, without aggregation; the first item that fails decides.
pub open spec fn simple_outputs(items: Seq<ItemView>, schema: Seq<FieldView>) -> Result<
    (Seq<ExprView>, Seq<FieldView>),
    ErrorView,
>
    decreases items.len(),
{
    if items.len() == 0 {
        Ok((Seq::empty(), Seq::empty()))
    } else {
        match item_outputs(items[0], schema) {
            Err(x) => Err(x),
            Ok(head) => followed(head, simple_outputs(items.skip(1), schema)),
        }
    }
}

/// The plain columns that one SELECT item of an aggregation lists.
pub open spec fn item_keys(item: ItemView, schema: Seq<FieldView>) -> Result<
    Seq<ExprView>,
    ErrorView,
> {
    match item {
        ItemView::Unnamed(e) => if is_aggregate(e) {
            Ok(Seq::empty())
        } else {
            match convert(e, schema) {
                Ok(x) => Ok(seq![x]),
                Err(x) => Err(x),
            }
        },
        ItemView::Aliased { expr, .. } => if is_aggregate(expr) {
            Ok(Seq::empty())
        } else {
            Err(
                ErrorView::Plan("non-aggregate SELECT items must be ungrouped columns without AS"@),
            )
        },
        _ => Ok(Seq::empty()),
    }
}

/// The plain columns that a SELECT list of an aggregation lists.
pub open spec fn listed_keys(items: Seq<ItemView>, schema: Seq<FieldView>) -> Result<
    Seq<ExprView>,
    ErrorView,
>
    decreases items.len(),
{
    if items.len() == 0 {
        Ok(Seq::empty())
    } else {
        match item_keys(items[0], schema) {
            Err(x) => Err(x),
            Ok(head) => match listed_keys(items.skip(1), schema) {
                Ok(rest) => Ok(head + rest),
                Err(x) => Err(x),
            },
        }
    }
}

/// The fields of GROUP BY keys.
pub open spec fn key_fields(keys: Seq<ExprView>, schema: Seq<FieldView>) -> Result<
    Seq<FieldView>,
    ErrorView,
>
    decreases keys.len(),
{
    if keys.len() == 0 {
        Ok(Seq::empty())
    } else {
        match infer(keys[0], schema) {
            Err(x) => Err(x),
            Ok(t) => match key_fields(keys.skip(1), schema) {
                Ok(rest) => Ok(
                    seq![FieldView { name: default_name(keys[0]), data_type: t }] + rest,
                ),
                Err(x) => Err(x),
            },
        }
    }
}

/// The aggregate that one SELECT item gives, if it is one.
pub open spec fn item_aggregates(item: ItemView, schema: Seq<FieldView>) -> Result<
    (Seq<ExprView>, Seq<FieldView>),
    ErrorView,
> {
    match item {
        ItemView::Unnamed(e) => if is_aggregate(e) {
            one_output(e, None, schema)
        } else {
            Ok((Seq::empty(), Seq::empty()))
        },
        ItemView::Aliased { expr, alias } => if is_aggregate(expr) {
            match one_output(expr, Some(alias), schema) {
                Ok(o) => Ok(
                    (seq![ExprView::Alias { expr: Box::new(o.0[0]), name: alias }], o.1),
                ),
                Err(x) => Err(x),
            }
        } else {
            Ok((Seq::empty(), Seq::empty()))
        },
        _ => Err(ErrorView::Plan("wildcard not allowed with GROUP BY"@)),
    }
}

/// The aggregates that a SELECT list gives.
pub open spec fn listed_aggregates(items: Seq<ItemView>, schema: Seq<FieldView>) -> Result<
    (Seq<ExprView>, Seq<FieldView>),
    ErrorView,
>
    decreases items.len(),
{
    if items.len() == 0 {
        Ok((Seq::empty(), Seq::empty()))
    } else {
        match item_aggregates(items[0], schema) {
            Err(x) => Err(x),
            Ok(head) => followed(head, listed_aggregates(items.skip(1), schema)),
        }
    }
}

/// The aggregates of an aggregation, and its fields: GROUP BY keys, then aggregates.
pub open spec fn aggregate_outputs(
    items: Seq<ItemView>,
    group_by: Seq<ExprView>,
    schema: Seq<FieldView>,
) -> Result<(Seq<ExprView>, Seq<FieldView>), ErrorView> {
    match listed_keys(items, schema) {
        Err(x) => Err(x),
        Ok(keys) => if !keys.no_duplicates() {
            Err(ErrorView::Plan("duplicate GROUP BY column in SELECT"@))
        } else if keys.to_set() != group_by.to_set() {
            Err(
                ErrorView::Plan("SELECT must list exactly the GROUP BY columns (non-aggregate)"@),
            )
        } else {
            match key_fields(group_by, schema) {
                Err(x) => Err(x),
                Ok(fields) => match listed_aggregates(items, schema) {
                    Err(x) => Err(x),
                    Ok(o) => if o.0.len() == 0 {
                        Err(
                            ErrorView::Plan(
                                "aggregation query requires at least one aggregate function"@,
                            ),
                        )
                    } else {
                        Ok((o.0, fields + o.1))
                    },
                },
            }
        },
    }
}

/// Some item of the SELECT list is an aggregate.
pub open spec fn lists_aggregate(items: Seq<ItemView>) -> bool {
    exists|i: int|
        0 <= i < items.len() && match #[trigger] items[i] {
            ItemView::Unnamed(e) => is_aggregate(e),
            ItemView::Aliased { expr, .. } => is_aggregate(expr),
            _ => false,
        }
}

/// Some expressions of a query, converted; the first that fails decides.
pub open spec fn convert_all(es: Seq<SqlView>, schema: Seq<FieldView>) -> Result<
    Seq<ExprView>,
    ErrorView,
>
    decreases es.len(),
{
    if es.len() == 0 {
        Ok(Seq::empty())
    } else {
        match convert(es[0], schema) {
            Err(x) => Err(x),
            Ok(head) => match convert_all(es.skip(1), schema) {
                Ok(rest) => Ok(seq![head] + rest),
                Err(x) => Err(x),
            },
        }
    }
}

/// The sort keys of ORDER BY, ascending where nothing is said.
pub open spec fn sort_keys(order: Seq<OrderByView>, schema: Seq<FieldView>) -> Result<
    Seq<SortView>,
    ErrorView,
>
    decreases order.len(),
{
    if order.len() == 0 {
        Ok(Seq::empty())
    } else {
        match convert(order[0].expr, schema) {
            Err(x) => Err(x),
            Ok(e) => match sort_keys(order.skip(1), schema) {
                Ok(rest) => Ok(
                    seq![
                        SortView {
                            expr: e,
                            asc: match order[0].asc {
                                Some(b) => b,
                                None => true,
                            },
                        },
                    ] + rest,
                ),
                Err(x) => Err(x),
            },
        }
    }
}

/// The number that LIMIT gives.
pub open spec fn limit_number(e: SqlView) -> Result<usize, ErrorView> {
    match e {
        SqlView::Value(ValueView::Number(s)) => match numeral_in(s, false, 0, usize::MAX as int) {
            Some(n) => Ok(n as usize),
            None => Err(ErrorView::Plan("invalid LIMIT value '"@ + s + "'"@)),
        },
        SqlView::Value(_) => Err(ErrorView::Plan("LIMIT must be a numeric literal"@)),
        _ => Err(ErrorView::Plan("LIMIT must be a simple literal"@)),
    }
}

/// The fields of a table under an alias.
pub open spec fn prefixed(base: Seq<FieldView>, alias: Seq<char>) -> Seq<FieldView> {
    Seq::new(
        base.len(),
        |i: int|
            FieldView { name: alias + "."@ + base[i].name, data_type: base[i].data_type },
    )
}

/// The scan of a table and its fields; under a join the fields carry the table's alias.
pub open spec fn factor_plan(
    factor: FactorView,
    catalog: Map<Seq<char>, Seq<FieldView>>,
    join_chain: bool,
) -> Result<(PlanView, Seq<FieldView>), ErrorView> {
    match factor {
        FactorView::Table { name, alias, args: false } => {
            let key = last_part(name);
            if !catalog.dom().contains(key) {
                Err(ErrorView::Plan("unknown table '"@ + key + "'"@))
            } else if join_chain {
                match alias {
                    None => Err(ErrorView::Plan("table alias is required in JOIN chains"@)),
                    Some(a) => Ok(scan_of(key, prefixed(catalog[key], a))),
                }
            } else {
                Ok(scan_of(key, catalog[key]))
            }
        },
        _ => Err(ErrorView::Plan("unsupported table factor (subquery, TVF, etc.)"@)),
    }
}

/// The scan of all the columns of a table.
pub open spec fn scan_of(table: Seq<char>, schema: Seq<FieldView>) -> (PlanView, Seq<FieldView>) {
    (PlanView::Scan { table, schema, projection: None }, schema)
}

/// The kind of a join and its condition.
pub open spec fn join_parts(op: JoinOpView) -> Result<(JoinType, SqlView), ErrorView> {
    match op {
        JoinOpView::Inner(ConstraintView::On(e)) => Ok((JoinType::Inner, e)),
        JoinOpView::LeftOuter(ConstraintView::On(e)) => Ok((JoinType::Left, e)),
        JoinOpView::Other => Err(ErrorView::Plan("unsupported JOIN form"@)),
        _ => Err(ErrorView::Plan("only INNER/LEFT JOIN ... ON supported"@)),
    }
}

/// The fields so far, then those of the right input, a name that is taken being marked.
pub open spec fn merged_fields(fields: Seq<FieldView>, right: Seq<FieldView>) -> Result<
    Seq<FieldView>,
    ErrorView,
>
    decreases right.len(),
{
    if right.len() == 0 {
        Ok(fields)
    } else {
        let f = right[0];
        if !names(fields).contains(f.name) {
            merged_fields(fields.push(f), right.skip(1))
        } else if names(fields).contains(f.name + "_dup"@) {
            Err(ErrorView::Plan("duplicate column names in JOIN; rename in SQL"@))
        } else {
            merged_fields(
                fields.push(FieldView { name: f.name + "_dup"@, data_type: f.data_type }),
                right.skip(1),
            )
        }
    }
}

/// The merged fields are no fewer than those of the left input.
proof fn lemma_merged_width(fields: Seq<FieldView>, right: Seq<FieldView>)
    ensures
        merged_fields(fields, right) matches Ok(all) ==> all.len() >= fields.len(),
    decreases right.len(),
{
    if right.len() > 0 {
        let f = right[0];
        lemma_merged_width(fields.push(f), right.skip(1));
        lemma_merged_width(
            fields.push(FieldView { name: f.name + "_dup"@, data_type: f.data_type }),
            right.skip(1),
        );
    }
}

/// The conjuncts of a join condition, without parentheses around conjunctions.
pub open spec fn and_parts(e: SqlView) -> Seq<SqlView>
    decreases e,
{
    match e {
        SqlView::Nested(inner) => and_parts(*inner),
        SqlView::Binary { left, op: OpView::And, right } => and_parts(*left) + and_parts(*right),
        _ => seq![e],
    }
}

/// The pair with its sides exchanged, where they read columns of the other input each. The first
/// `width` fields are those of the left input.
pub open spec fn turned(
    pair: (ExprView, ExprView),
    schema: Seq<FieldView>,
    width: nat,
) -> (ExprView, ExprView) {
    let left = names_before(schema, width);
    let right = names_after(schema, width);
    let l = columns(pair.0);
    let r = columns(pair.1);
    if !(l.subset_of(left) && r.subset_of(right)) && l.subset_of(right) && r.subset_of(left) {
        (pair.1, pair.0)
    } else {
        pair
    }
}

/// The left and the right key of an equality.
pub open spec fn equality(c: SqlView, schema: Seq<FieldView>, width: nat) -> Result<
    (ExprView, ExprView),
    ErrorView,
> {
    match c {
        SqlView::Binary { left, op: OpView::Eq, right } => match convert(*left, schema) {
            Err(x) => Err(x),
            Ok(l) => match convert(*right, schema) {
                Err(x) => Err(x),
                Ok(r) => Ok(turned((l, r), schema, width)),
            },
        },
        _ => Err(ErrorView::Plan("only equi-join AND conjunctions are supported"@)),
    }
}

/// The left and the right key of each equality.
pub open spec fn equalities(cs: Seq<SqlView>, schema: Seq<FieldView>, width: nat) -> Result<
    Seq<(ExprView, ExprView)>,
    ErrorView,
>
    decreases cs.len(),
{
    if cs.len() == 0 {
        Ok(Seq::empty())
    } else {
        match equality(cs[0], schema, width) {
            Err(x) => Err(x),
            Ok(head) => match equalities(cs.skip(1), schema, width) {
                Ok(rest) => Ok(seq![head] + rest),
                Err(x) => Err(x),
            },
        }
    }
}

/// The key pairs of a join condition.
pub open spec fn join_keys(e: SqlView, schema: Seq<FieldView>, width: nat) -> Result<
    Seq<(ExprView, ExprView)>,
    ErrorView,
> {
    match equalities(and_parts(e), schema, width) {
        Err(x) => Err(x),
        Ok(pairs) => if pairs.len() == 0 {
            Err(ErrorView::Plan("JOIN requires at least one equality predicate"@))
        } else {
            Ok(pairs)
        },
    }
}

/// A plan joined with further tables, one after the other.
pub open spec fn joined(
    plan: PlanView,
    schema: Seq<FieldView>,
    joins: Seq<JoinView>,
    catalog: Map<Seq<char>, Seq<FieldView>>,
) -> Result<(PlanView, Seq<FieldView>), ErrorView>
    decreases joins.len(),
{
    if joins.len() == 0 {
        Ok((plan, schema))
    } else {
        match factor_plan(joins[0].relation, catalog, true) {
            Err(x) => Err(x),
            Ok(right) => match join_parts(joins[0].operator) {
                Err(x) => Err(x),
                Ok(parts) => match merged_fields(schema, right.1) {
                    Err(x) => Err(x),
                    Ok(fields) => match join_keys(parts.1, fields, schema.len()) {
                        Err(x) => Err(x),
                        Ok(on) => joined(
                            PlanView::Join {
                                left: Box::new(plan),
                                right: Box::new(right.0),
                                on,
                                join_type: parts.0,
                                schema: fields,
                            },
                            fields,
                            joins.skip(1),
                            catalog,
                        ),
                    },
                },
            },
        }
    }
}

/// The plan of a FROM item and its fields.
pub open spec fn from_plan(from: FromView, catalog: Map<Seq<char>, Seq<FieldView>>) -> Result<
    (PlanView, Seq<FieldView>),
    ErrorView,
> {
    match factor_plan(from.relation, catalog, from.joins.len() > 0) {
        Err(x) => Err(x),
        Ok(first) => joined(first.0, first.1, from.joins, catalog),
    }
}

/// A filter for WHERE, where there is one.
pub open spec fn where_filter(
    selection: Option<SqlView>,
    input: PlanView,
    schema: Seq<FieldView>,
) -> Result<PlanView, ErrorView> {
    match selection {
        None => Ok(input),
        Some(e) => match convert(e, schema) {
            Err(x) => Err(x),
            Ok(predicate) => Ok(PlanView::Filter { predicate, input: Box::new(input) }),
        },
    }
}

/// The plan of an aggregation: WHERE below, then grouping.
pub open spec fn aggregation(
    select: SelectView,
    groups: Seq<SqlView>,
    input: PlanView,
    schema: Seq<FieldView>,
) -> Result<PlanView, ErrorView> {
    match where_filter(select.selection, input, schema) {
        Err(x) => Err(x),
        Ok(below) => match convert_all(groups, schema) {
            Err(x) => Err(x),
            Ok(group_by) => match aggregate_outputs(select.projection, group_by, schema) {
                Err(x) => Err(x),
                Ok(o) => Ok(
                    PlanView::Aggregate {
                        group_by,
                        aggr_exprs: o.0,
                        schema: o.1,
                        input: Box::new(below),
                    },
                ),
            },
        },
    }
}

/// The plan of a SELECT without aggregation: projection, WHERE above it.
pub open spec fn selection_plan(
    select: SelectView,
    input: PlanView,
    schema: Seq<FieldView>,
) -> Result<PlanView, ErrorView> {
    match simple_outputs(select.projection, schema) {
        Err(x) => Err(x),
        Ok(o) => where_filter(
            select.selection,
            PlanView::Projection { exprs: o.0, schema: o.1, input: Box::new(input) },
            schema,
        ),
    }
}

/// The plan of a SELECT.
pub open spec fn select_plan(select: SelectView, catalog: Map<Seq<char>, Seq<FieldView>>) -> Result<
    PlanView,
    ErrorView,
> {
    if select.into {
        Err(ErrorView::Plan("INTO is not supported"@))
    } else if select.distinct {
        Err(ErrorView::Plan("DISTINCT is not supported"@))
    } else if select.having {
        Err(ErrorView::Plan("HAVING is not supported"@))
    } else if select.lateral_views > 0 || select.cluster_by > 0 || select.distribute_by > 0
        || select.sort_by > 0 || select.named_window > 0 || select.qualify || select.top {
        Err(ErrorView::Plan("unsupported SELECT clause"@))
    } else if select.from.len() != 1 {
        Err(ErrorView::Plan("exactly one FROM item is required"@))
    } else {
        match from_plan(select.from[0], catalog) {
            Err(x) => Err(x),
            Ok(from) => match select.group_by {
                GroupByView::All => Err(ErrorView::Plan("GROUP BY ALL is not supported"@)),
                GroupByView::Expressions(groups) => if lists_aggregate(select.projection)
                    || groups.len() > 0 {
                    aggregation(select, groups, from.0, from.1)
                } else {
                    selection_plan(select, from.0, from.1)
                },
            },
        }
    }
}

/// ORDER BY above a plan, where there is one.
pub open spec fn ordered(plan: PlanView, order: Seq<OrderByView>) -> Result<PlanView, ErrorView> {
    if order.len() == 0 {
        Ok(plan)
    } else {
        match sort_keys(order, plan.schema()) {
            Err(x) => Err(x),
            Ok(exprs) => Ok(PlanView::Sort { exprs, input: Box::new(plan) }),
        }
    }
}

/// LIMIT above a plan, where there is one.
pub open spec fn limited(plan: PlanView, limit: Option<SqlView>) -> Result<PlanView, ErrorView> {
    match limit {
        None => Ok(plan),
        Some(e) => match limit_number(e) {
            Err(x) => Err(x),
            Ok(n) => Ok(PlanView::Limit { n, input: Box::new(plan) }),
        },
    }
}

/// The plan of a query.
pub open spec fn query_plan(query: QueryView, catalog: Map<Seq<char>, Seq<FieldView>>) -> Result<
    PlanView,
    ErrorView,
> {
    if query.with {
        Err(ErrorView::Plan("WITH / CTE is not supported"@))
    } else {
        match query.body {
            SetExprView::Other => Err(
                ErrorView::Plan("only simple SELECT bodies are supported"@),
            ),
            SetExprView::Select(select) => match select_plan(select, catalog) {
                Err(x) => Err(x),
                Ok(plan) => match ordered(plan, query.order_by) {
                    Err(x) => Err(x),
                    Ok(sorted) => limited(sorted, query.limit),
                },
            },
        }
    }
}

/// The plan of a statement.
pub open spec fn planned(statement: StatementView, catalog: Map<Seq<char>, Seq<FieldView>>) -> Result<
    PlanView,
    ErrorView,
> {
    match statement {
        StatementView::Query(q) => query_plan(q, catalog),
        StatementView::Other => Err(ErrorView::Plan("expected SELECT statement"@)),
    }
}

/// Expressions and the schema that they fill.
pub struct ProjectionBuild {
    /// The expressions.
    pub exprs: Vec<Expr>,
    /// The schema.
    pub schema: Schema,
}

impl View for ProjectionBuild {
    type V = (Seq<ExprView>, Seq<FieldView>);

    open spec fn view(&self) -> (Seq<ExprView>, Seq<FieldView>) {
        (views(self.exprs@), self.schema@)
    }
}

/// Builds one output under the given name.
fn build_output(e: &SqlExpr, label: Option<&String>, from_schema: &Schema) -> (r: Result<
    (Expr, Field),
    ArborError,
>)
    ensures
        match r {
            Ok(o) => one_output(
                e@,
                match label {
                    Some(n) => Some(n@),
                    None => None,
                },
                from_schema@,
            ) == Ok::<_, ErrorView>((seq![o.0@], seq![o.1@])),
            Err(x) => one_output(
                e@,
                match label {
                    Some(n) => Some(n@),
                    None => None,
                },
                from_schema@,
            ) == Err::<(Seq<ExprView>, Seq<FieldView>), _>(x@),
        },
{
    let ex = match convert_expr(e, from_schema) {
        Ok(x) => x,
        Err(x) => return Err(x),
    };
    let name = match label {
        Some(n) => n.clone(),
        None => default_output_name(&ex),
    };
    let data_type = match infer_expr_type(&ex, from_schema) {
        Ok(t) => t,
        Err(x) => return Err(x),
    };
    Ok((ex, Field { name, data_type }))
}

/// Whether a field belongs to a relation.
pub fn qualified_field_belongs(field_name: &str, relation: &str) -> (r: bool)
    ensures
        r == belongs(field_name@, relation@),
{
    starts_with(field_name, join2(relation, ".").as_str())
}

/// The column of a relation that a qualified field is.
pub fn parse_qualified_column(field_name: &str, relation: &str) -> (r: Result<Expr, ArborError>)
    ensures
        result_view(r) == if belongs(field_name@, relation@) {
            Ok::<ExprView, ErrorView>(
                ExprView::Column {
                    name: field_name@.skip(relation@.len() as int + 1),
                    relation: Some(relation@),
                },
            )
        } else {
            Err(
                ErrorView::Plan(
                    "expected column '"@ + field_name@ + "' to start with '"@ + (relation@ + "."@)
                        + "'"@,
                ),
            )
        },
{
    let prefix = join2(relation, ".");
    if !starts_with(field_name, prefix.as_str()) {
        let text = join3("expected column '", field_name, "' to start with '");
        return Err(ArborError::Plan(join3(text.as_str(), prefix.as_str(), "'")));
    }
    let n: usize = field_name.unicode_len();
    let m: usize = prefix.as_str().unicode_len();
    let name = field_name.substring_char(m, n).to_string();
    proof {
        reveal_strlit(".");
        assert(name@ =~= field_name@.skip(relation@.len() as int + 1));
    }
    Ok(Expr::Column { name, relation: Some(relation.to_string()) })
}

/// Adds every field of the schema, as a column without qualifier.
fn push_all_columns(exprs: &mut Vec<Expr>, fields: &mut Vec<Field>, from_schema: &Schema)
    ensures
        views(final(exprs)@) == views(old(exprs)@) + all_columns(from_schema@),
        views(final(fields)@) == views(old(fields)@) + from_schema@,
{
    let ghost e0 = views(exprs@);
    let ghost f0 = views(fields@);
    let ghost all = all_columns(from_schema@);
    let mut i: usize = 0;
    proof {
        assert(e0 =~= e0 + all.take(0));
        assert(f0 =~= f0 + from_schema@.take(0));
    }
    while i < from_schema.fields.len()
        invariant
            i <= from_schema.fields.len(),
            all == all_columns(from_schema@),
            views(exprs@) == e0 + all.take(i as int),
            views(fields@) == f0 + from_schema@.take(i as int),
        decreases from_schema.fields.len() - i,
    {
        let e = Expr::Column { name: from_schema.fields[i].name.clone(), relation: None };
        let f = from_schema.fields[i].clone();
        proof {
            lemma_views_push(exprs@, e);
            lemma_views_push(fields@, f);
            assert((e0 + all.take(i as int)).push(e@) =~= e0 + all.take(i + 1));
            assert((f0 + from_schema@.take(i as int)).push(f@) =~= f0 + from_schema@.take(i + 1));
        }
        exprs.push(e);
        fields.push(f);
        i = i + 1;
    }
    proof {
        assert(all.take(i as int) =~= all);
        assert(from_schema@.take(i as int) =~= from_schema@);
    }
}

/// Adds the fields of one relation, and the columns that they are.
fn push_relation_columns(
    exprs: &mut Vec<Expr>,
    fields: &mut Vec<Field>,
    from_schema: &Schema,
    relation: &str,
)
    ensures
        views(final(exprs)@) == views(old(exprs)@) + relation_outputs(from_schema@, relation@).0,
        views(final(fields)@) == views(old(fields)@) + relation_outputs(from_schema@, relation@).1,
{
    let ghost e0 = views(exprs@);
    let ghost f0 = views(fields@);
    let ghost all = from_schema@;
    let mut i: usize = 0;
    proof {
        assert(all.take(0) =~= Seq::empty());
        assert(e0 =~= e0 + relation_outputs(all.take(0), relation@).0);
        assert(f0 =~= f0 + relation_outputs(all.take(0), relation@).1);
    }
    while i < from_schema.fields.len()
        invariant
            i <= from_schema.fields.len(),
            all == from_schema@,
            views(exprs@) == e0 + relation_outputs(all.take(i as int), relation@).0,
            views(fields@) == f0 + relation_outputs(all.take(i as int), relation@).1,
        decreases from_schema.fields.len() - i,
    {
        let ghost before = relation_outputs(all.take(i as int), relation@);
        proof {
            let t = all.take(i + 1);
            assert(t.drop_last() =~= all.take(i as int));
            assert(t.last() == from_schema.fields[i as int]@);
        }
        let name = from_schema.fields[i].name.as_str();
        if qualified_field_belongs(name, relation) {
            match parse_qualified_column(name, relation) {
                Ok(e) => {
                    let f = from_schema.fields[i].clone();
                    proof {
                        lemma_views_push(exprs@, e);
                        lemma_views_push(fields@, f);
                        assert((e0 + before.0).push(e@) =~= e0 + before.0.push(e@));
                        assert((f0 + before.1).push(f@) =~= f0 + before.1.push(f@));
                    }
                    exprs.push(e);
                    fields.push(f);
                },
                Err(_) => {},
            }
        }
        i = i + 1;
    }
    proof {
        assert(all.take(i as int) =~= all);
    }
}

fn build_simple_projection(items: &Vec<SelectItem>, from_schema: &Schema) -> (r: Result<
    ProjectionBuild,
    ArborError,
>)
    ensures
        result_view(r) == simple_outputs(views(items@), from_schema@),
{
    let mut exprs: Vec<Expr> = Vec::new();
    let mut fields: Vec<Field> = Vec::new();
    let ghost all = views(items@);
    let ghost whole = simple_outputs(all, from_schema@);
    let mut i: usize = 0;
    proof {
        assert(all.skip(0) =~= all);
        lemma_followed_start(views(exprs@), views(fields@), whole);
    }
    while i < items.len()
        invariant
            i <= items.len(),
            all == views(items@),
            whole == simple_outputs(all, from_schema@),
            whole == followed(
                (views(exprs@), views(fields@)),
                simple_outputs(all.skip(i as int), from_schema@),
            ),
        decreases items.len() - i,
    {
        let ghost e0 = views(exprs@);
        let ghost f0 = views(fields@);
        let ghost rest = simple_outputs(all.skip(i as int).skip(1), from_schema@);
        proof {
            assert(all.skip(i as int)[0] == items[i as int]@);
            assert(all.skip(i as int).skip(1) =~= all.skip(i + 1));
        }
        match &items[i] {
            SelectItem::UnnamedExpr(e) => {
                match build_output(e, None, from_schema) {
                    Err(x) => return Err(x),
                    Ok(o) => {
                        proof {
                            lemma_views_push(exprs@, o.0);
                            lemma_views_push(fields@, o.1);
                            lemma_followed(e0, f0, seq![o.0@], seq![o.1@], rest);
                            assert(e0.push(o.0@) =~= e0 + seq![o.0@]);
                            assert(f0.push(o.1@) =~= f0 + seq![o.1@]);
                        }
                        exprs.push(o.0);
                        fields.push(o.1);
                    },
                }
            },
            SelectItem::ExprWithAlias { expr, alias } => {
                match build_output(expr, Some(alias), from_schema) {
                    Err(x) => return Err(x),
                    Ok(o) => {
                        proof {
                            lemma_views_push(exprs@, o.0);
                            lemma_views_push(fields@, o.1);
                            lemma_followed(e0, f0, seq![o.0@], seq![o.1@], rest);
                            assert(e0.push(o.0@) =~= e0 + seq![o.0@]);
                            assert(f0.push(o.1@) =~= f0 + seq![o.1@]);
                        }
                        exprs.push(o.0);
                        fields.push(o.1);
                    },
                }
            },
            SelectItem::Wildcard => {
                proof {
                    lemma_followed(e0, f0, all_columns(from_schema@), from_schema@, rest);
                }
                push_all_columns(&mut exprs, &mut fields, from_schema);
            },
            SelectItem::QualifiedWildcard(prefix) => {
                let rel = object_name_last(prefix);
                proof {
                    let o = relation_outputs(from_schema@, rel@);
                    lemma_followed(e0, f0, o.0, o.1, rest);
                }
                push_relation_columns(&mut exprs, &mut fields, from_schema, rel.as_str());
            },
        }
        i = i + 1;
    }
    proof {
        assert(all.skip(i as int) =~= Seq::empty());
        assert(views(exprs@) + Seq::<ExprView>::empty() =~= views(exprs@));
        assert(views(fields@) + Seq::<FieldView>::empty() =~= views(fields@));
    }
    Ok(ProjectionBuild { exprs, schema: Schema { fields } })
}

/// Nothing, then a result, is the result.
proof fn lemma_followed_start(
    e: Seq<ExprView>,
    f: Seq<FieldView>,
    r: Result<(Seq<ExprView>, Seq<FieldView>), ErrorView>,
)
    requires
        e.len() == 0,
        f.len() == 0,
    ensures
        followed((e, f), r) == r,
{
    if r is Ok {
        assert(e + r->Ok_0.0 =~= r->Ok_0.0);
        assert(f + r->Ok_0.1 =~= r->Ok_0.1);
    }
}

/// Outputs can be put together from the front or from the back.
proof fn lemma_followed(
    e: Seq<ExprView>,
    f: Seq<FieldView>,
    e2: Seq<ExprView>,
    f2: Seq<FieldView>,
    r: Result<(Seq<ExprView>, Seq<FieldView>), ErrorView>,
)
    ensures
        followed((e, f), followed((e2, f2), r)) == followed((e + e2, f + f2), r),
{
    if r is Ok {
        assert(e + (e2 + r->Ok_0.0) =~= (e + e2) + r->Ok_0.0);
        assert(f + (f2 + r->Ok_0.1) =~= (f + f2) + r->Ok_0.1);
    }
}

/// Whether the list holds an expression equal to `e` before index `end`.
fn holds_before(list: &Vec<Expr>, end: usize, e: &Expr) -> (r: bool)
    requires
        end <= list.len(),
    ensures
        r == views(list@).take(end as int).contains(e@),
{
    let ghost all = views(list@);
    let mut i: usize = 0;
    while i < end
        invariant
            i <= end <= list.len(),
            all == views(list@),
            forall|k: int| 0 <= k < i ==> all[k] != e@,
        decreases end - i,
    {
        if list[i] == *e {
            proof {
                assert(all.take(end as int)[i as int] == e@);
            }
            return true;
        }
        i = i + 1;
    }
    false
}

/// Whether no expression is listed twice.
fn all_distinct(list: &Vec<Expr>) -> (r: bool)
    ensures
        r == views(list@).no_duplicates(),
{
    let ghost all = views(list@);
    let mut i: usize = 0;
    while i < list.len()
        invariant
            i <= list.len(),
            all == views(list@),
            forall|j: int, k: int| 0 <= j < k < i ==> all[j] != all[k],
        decreases list.len() - i,
    {
        if holds_before(list, i, &list[i]) {
            proof {
                let t = all.take(i as int);
                let j = choose|j: int| 0 <= j < t.len() && t[j] == all[i as int];
                assert(all[j] == all[i as int]);
            }
            return false;
        }
        proof {
            assert forall|j: int, k: int| 0 <= j < k < i + 1 implies all[j] != all[k] by {
                if k == i {
                    assert(all.take(i as int)[j] == all[j]);
                }
            }
        }
        i = i + 1;
    }
    true
}

/// Whether every expression of `list` is in `other`.
fn all_within(list: &Vec<Expr>, other: &Vec<Expr>) -> (r: bool)
    ensures
        r == views(list@).to_set().subset_of(views(other@).to_set()),
{
    let ghost all = views(list@);
    let ghost them = views(other@);
    proof {
        assert(them.take(other.len() as int) =~= them);
    }
    let mut i: usize = 0;
    while i < list.len()
        invariant
            i <= list.len(),
            all == views(list@),
            them == views(other@),
            them.take(other.len() as int) == them,
            forall|k: int| 0 <= k < i ==> them.contains(#[trigger] all[k]),
        decreases list.len() - i,
    {
        if !holds_before(other, other.len(), &list[i]) {
            proof {
                assert(all.to_set().contains(all[i as int]));
                assert(!them.to_set().contains(all[i as int]));
            }
            return false;
        }
        i = i + 1;
    }
    proof {
        assert forall|e: ExprView| all.to_set().contains(e) implies them.to_set().contains(e) by {
            let k = choose|k: int| 0 <= k < all.len() && all[k] == e;
            assert(them.contains(all[k]));
        }
    }
    true
}

/// The plain columns that a SELECT list of an aggregation lists.
fn collect_keys(items: &Vec<SelectItem>, from_schema: &Schema) -> (r: Result<
    Vec<Expr>,
    ArborError,
>)
    ensures
        match r {
            Ok(v) => listed_keys(views(items@), from_schema@) == Ok::<_, ErrorView>(views(v@)),
            Err(x) => listed_keys(views(items@), from_schema@) == Err::<Seq<ExprView>, _>(x@),
        },
{
    let mut out: Vec<Expr> = Vec::new();
    let ghost all = views(items@);
    let ghost whole = listed_keys(all, from_schema@);
    let mut i: usize = 0;
    proof {
        assert(all.skip(0) =~= all);
        if whole is Ok {
            assert(views(out@) + whole->Ok_0 =~= whole->Ok_0);
        }
    }
    while i < items.len()
        invariant
            i <= items.len(),
            all == views(items@),
            whole == listed_keys(all, from_schema@),
            match listed_keys(all.skip(i as int), from_schema@) {
                Ok(rest) => whole == Ok::<_, ErrorView>(views(out@) + rest),
                Err(x) => whole == Err::<Seq<ExprView>, _>(x),
            },
        decreases items.len() - i,
    {
        let ghost before = views(out@);
        let ghost rest = listed_keys(all.skip(i + 1), from_schema@);
        proof {
            assert(all.skip(i as int)[0] == items[i as int]@);
            assert(all.skip(i as int).skip(1) =~= all.skip(i + 1));
            if rest is Ok {
                assert(Seq::<ExprView>::empty() + rest->Ok_0 =~= rest->Ok_0);
            }
        }
        match &items[i] {
            SelectItem::UnnamedExpr(e) => {
                if !is_aggregate_sql_expr(e) {
                    match convert_expr(e, from_schema) {
                        Err(x) => return Err(x),
                        Ok(ex) => {
                            proof {
                                lemma_views_push(out@, ex);
                                if rest is Ok {
                                    assert(before + (seq![ex@] + rest->Ok_0) =~= before.push(ex@)
                                        + rest->Ok_0);
                                }
                            }
                            out.push(ex);
                        },
                    }
                }
            },
            SelectItem::ExprWithAlias { expr, .. } => {
                if !is_aggregate_sql_expr(expr) {
                    return Err(
                        plan_error(
                            "non-aggregate SELECT items must be ungrouped columns without AS",
                        ),
                    );
                }
            },
            _ => {},
        }
        i = i + 1;
    }
    proof {
        assert(all.skip(i as int) =~= Seq::empty());
        assert(views(out@) + Seq::<ExprView>::empty() =~= views(out@));
    }
    Ok(out)
}

/// The fields of GROUP BY keys.
fn collect_key_fields(keys: &Vec<Expr>, from_schema: &Schema) -> (r: Result<
    Vec<Field>,
    ArborError,
>)
    ensures
        match r {
            Ok(v) => key_fields(views(keys@), from_schema@) == Ok::<_, ErrorView>(views(v@)),
            Err(x) => key_fields(views(keys@), from_schema@) == Err::<Seq<FieldView>, _>(x@),
        },
{
    let mut out: Vec<Field> = Vec::new();
    let ghost all = views(keys@);
    let ghost whole = key_fields(all, from_schema@);
    let mut i: usize = 0;
    proof {
        assert(all.skip(0) =~= all);
        if whole is Ok {
            assert(views(out@) + whole->Ok_0 =~= whole->Ok_0);
        }
    }
    while i < keys.len()
        invariant
            i <= keys.len(),
            all == views(keys@),
            whole == key_fields(all, from_schema@),
            match key_fields(all.skip(i as int), from_schema@) {
                Ok(rest) => whole == Ok::<_, ErrorView>(views(out@) + rest),
                Err(x) => whole == Err::<Seq<FieldView>, _>(x),
            },
        decreases keys.len() - i,
    {
        let ghost before = views(out@);
        let ghost rest = key_fields(all.skip(i + 1), from_schema@);
        proof {
            assert(all.skip(i as int)[0] == keys[i as int]@);
            assert(all.skip(i as int).skip(1) =~= all.skip(i + 1));
        }
        let name = default_output_name(&keys[i]);
        let data_type = match infer_expr_type(&keys[i], from_schema) {
            Ok(t) => t,
            Err(x) => return Err(x),
        };
        let f = Field { name, data_type };
        proof {
            lemma_views_push(out@, f);
            if rest is Ok {
                assert(before + (seq![f@] + rest->Ok_0) =~= before.push(f@) + rest->Ok_0);
            }
        }
        out.push(f);
        i = i + 1;
    }
    proof {
        assert(all.skip(i as int) =~= Seq::empty());
        assert(views(out@) + Seq::<FieldView>::empty() =~= views(out@));
    }
    Ok(out)
}

/// The aggregates that a SELECT list gives.
fn collect_aggregates(items: &Vec<SelectItem>, from_schema: &Schema) -> (r: Result<
    ProjectionBuild,
    ArborError,
>)
    ensures
        result_view(r) == listed_aggregates(views(items@), from_schema@),
{
    let mut exprs: Vec<Expr> = Vec::new();
    let mut fields: Vec<Field> = Vec::new();
    let ghost all = views(items@);
    let ghost whole = listed_aggregates(all, from_schema@);
    let mut i: usize = 0;
    proof {
        assert(all.skip(0) =~= all);
        lemma_followed_start(views(exprs@), views(fields@), whole);
    }
    while i < items.len()
        invariant
            i <= items.len(),
            all == views(items@),
            whole == listed_aggregates(all, from_schema@),
            whole == followed(
                (views(exprs@), views(fields@)),
                listed_aggregates(all.skip(i as int), from_schema@),
            ),
        decreases items.len() - i,
    {
        let ghost e0 = views(exprs@);
        let ghost f0 = views(fields@);
        let ghost rest = listed_aggregates(all.skip(i as int).skip(1), from_schema@);
        proof {
            assert(all.skip(i as int)[0] == items[i as int]@);
            assert(all.skip(i as int).skip(1) =~= all.skip(i + 1));
            lemma_followed_start(Seq::empty(), Seq::empty(), rest);
        }
        match &items[i] {
            SelectItem::UnnamedExpr(e) => {
                if is_aggregate_sql_expr(e) {
                    match build_output(e, None, from_schema) {
                        Err(x) => return Err(x),
                        Ok(o) => {
                            proof {
                                lemma_views_push(exprs@, o.0);
                                lemma_views_push(fields@, o.1);
                                lemma_followed(e0, f0, seq![o.0@], seq![o.1@], rest);
                                assert(e0.push(o.0@) =~= e0 + seq![o.0@]);
                                assert(f0.push(o.1@) =~= f0 + seq![o.1@]);
                            }
                            exprs.push(o.0);
                            fields.push(o.1);
                        },
                    }
                }
            },
            SelectItem::ExprWithAlias { expr, alias } => {
                if is_aggregate_sql_expr(expr) {
                    match build_output(expr, Some(alias), from_schema) {
                        Err(x) => return Err(x),
                        Ok(o) => {
                            let ghost inner = o.0@;
                            let e = Expr::Alias { expr: Box::new(o.0), name: alias.clone() };
                            proof {
                                assert(seq![inner][0] == inner);
                                lemma_views_push(exprs@, e);
                                lemma_views_push(fields@, o.1);
                                lemma_followed(e0, f0, seq![e@], seq![o.1@], rest);
                                assert(e0.push(e@) =~= e0 + seq![e@]);
                                assert(f0.push(o.1@) =~= f0 + seq![o.1@]);
                            }
                            exprs.push(e);
                            fields.push(o.1);
                        },
                    }
                }
            },
            SelectItem::Wildcard => {
                return Err(plan_error("wildcard not allowed with GROUP BY"));
            },
            SelectItem::QualifiedWildcard(_) => {
                return Err(plan_error("wildcard not allowed with GROUP BY"));
            },
        }
        i = i + 1;
    }
    proof {
        assert(all.skip(i as int) =~= Seq::empty());
        assert(views(exprs@) + Seq::<ExprView>::empty() =~= views(exprs@));
        assert(views(fields@) + Seq::<FieldView>::empty() =~= views(fields@));
    }
    Ok(ProjectionBuild { exprs, schema: Schema { fields } })
}

fn build_aggregate_outputs(
    items: &Vec<SelectItem>,
    group_by: &Vec<Expr>,
    from_schema: &Schema,
) -> (r: Result<ProjectionBuild, ArborError>)
    ensures
        result_view(r) == aggregate_outputs(views(items@), views(group_by@), from_schema@),
{
    let keys = match collect_keys(items, from_schema) {
        Ok(v) => v,
        Err(x) => return Err(x),
    };
    if !all_distinct(&keys) {
        return Err(plan_error("duplicate GROUP BY column in SELECT"));
    }
    if !(all_within(&keys, group_by) && all_within(group_by, &keys)) {
        proof {
            assert(views(keys@).to_set() != views(group_by@).to_set());
        }
        return Err(plan_error("SELECT must list exactly the GROUP BY columns (non-aggregate)"));
    }
    proof {
        assert(views(keys@).to_set() =~= views(group_by@).to_set());
    }
    let mut fields = match collect_key_fields(group_by, from_schema) {
        Ok(v) => v,
        Err(x) => return Err(x),
    };
    let built = match collect_aggregates(items, from_schema) {
        Ok(b) => b,
        Err(x) => return Err(x),
    };
    if built.exprs.len() == 0 {
        return Err(plan_error("aggregation query requires at least one aggregate function"));
    }
    let ProjectionBuild { exprs, schema } = built;
    let mut rest = schema.fields;
    let ghost a = fields@;
    let ghost b = rest@;
    fields.append(&mut rest);
    proof {
        assert(views(fields@) =~= views(a) + views(b));
    }
    Ok(ProjectionBuild { exprs, schema: Schema { fields } })
}

fn select_items_contain_aggregate(items: &Vec<SelectItem>) -> (r: bool)
    ensures
        r == lists_aggregate(views(items@)),
{
    let ghost all = views(items@);
    let mut i: usize = 0;
    while i < items.len()
        invariant
            i <= items.len(),
            all == views(items@),
            forall|k: int|
                0 <= k < i ==> match #[trigger] all[k] {
                    ItemView::Unnamed(e) => !is_aggregate(e),
                    ItemView::Aliased { expr, .. } => !is_aggregate(expr),
                    _ => true,
                },
        decreases items.len() - i,
    {
        proof {
            assert(all[i as int] == items[i as int]@);
        }
        match &items[i] {
            SelectItem::UnnamedExpr(e) => {
                if is_aggregate_sql_expr(e) {
                    return true;
                }
            },
            SelectItem::ExprWithAlias { expr, .. } => {
                if is_aggregate_sql_expr(expr) {
                    return true;
                }
            },
            _ => {},
        }
        i = i + 1;
    }
    false
}

fn convert_order_by(order: &Vec<OrderByExpr>, schema: &Schema) -> (r: Result<
    Vec<SortExpr>,
    ArborError,
>)
    ensures
        match r {
            Ok(v) => sort_keys(views(order@), schema@) == Ok::<_, ErrorView>(views(v@)),
            Err(x) => sort_keys(views(order@), schema@) == Err::<Seq<SortView>, _>(x@),
        },
{
    let mut out: Vec<SortExpr> = Vec::new();
    let ghost all = views(order@);
    let ghost whole = sort_keys(all, schema@);
    let mut i: usize = 0;
    proof {
        assert(all.skip(0) =~= all);
        if whole is Ok {
            assert(views(out@) + whole->Ok_0 =~= whole->Ok_0);
        }
    }
    while i < order.len()
        invariant
            i <= order.len(),
            all == views(order@),
            whole == sort_keys(all, schema@),
            match sort_keys(all.skip(i as int), schema@) {
                Ok(rest) => whole == Ok::<_, ErrorView>(views(out@) + rest),
                Err(x) => whole == Err::<Seq<SortView>, _>(x),
            },
        decreases order.len() - i,
    {
        let ghost before = views(out@);
        let ghost rest = sort_keys(all.skip(i + 1), schema@);
        proof {
            assert(all.skip(i as int)[0] == order[i as int]@);
            assert(all.skip(i as int).skip(1) =~= all.skip(i + 1));
        }
        let asc = match order[i].asc {
            Some(b) => b,
            None => true,
        };
        let expr = match convert_expr(&order[i].expr, schema) {
            Ok(x) => x,
            Err(x) => return Err(x),
        };
        let key = SortExpr { expr, asc };
        proof {
            lemma_views_push(out@, key);
            if rest is Ok {
                assert(before + (seq![key@] + rest->Ok_0) =~= before.push(key@) + rest->Ok_0);
            }
        }
        out.push(key);
        i = i + 1;
    }
    proof {
        assert(all.skip(i as int) =~= Seq::empty());
        assert(views(out@) + Seq::<SortView>::empty() =~= views(out@));
    }
    Ok(out)
}

fn parse_limit(e: &SqlExpr) -> (r: Result<usize, ArborError>)
    ensures
        outcome(r) == limit_number(e@),
{
    match e {
        SqlExpr::Value(v) => match v {
            Value::Number(s) => match parse_usize(s.as_str()) {
                Some(n) => Ok(n),
                None => Err(ArborError::Plan(join3("invalid LIMIT value '", s.as_str(), "'"))),
            },
            _ => Err(plan_error("LIMIT must be a numeric literal")),
        },
        _ => Err(plan_error("LIMIT must be a simple literal")),
    }
}

/// A plan with the schema of its rows.
pub struct Planned {
    /// The plan.
    pub plan: LogicalPlan,
    /// The schema.
    pub schema: Schema,
}

impl View for Planned {
    type V = (PlanView, Seq<FieldView>);

    open spec fn view(&self) -> (PlanView, Seq<FieldView>) {
        (self.plan@, self.schema@)
    }
}

fn prefix_schema(base: &Schema, alias: &str) -> (r: Schema)
    ensures
        r@ == prefixed(base@, alias@),
{
    let mut fields: Vec<Field> = Vec::new();
    let ghost all = prefixed(base@, alias@);
    let mut i: usize = 0;
    while i < base.fields.len()
        invariant
            i <= base.fields.len(),
            all == prefixed(base@, alias@),
            fields.len() == i,
            forall|k: int| 0 <= k < i ==> (#[trigger] fields[k])@ == all[k],
        decreases base.fields.len() - i,
    {
        let f = Field {
            name: join3(alias, ".", base.fields[i].name.as_str()),
            data_type: base.fields[i].data_type.clone(),
        };
        proof {
            assert(f@ == all[i as int]);
        }
        fields.push(f);
        i = i + 1;
    }
    let r = Schema { fields };
    proof {
        assert(r@ =~= all);
    }
    r
}

fn plan_table_factor(factor: &TableFactor, catalog: &Catalog, join_chain: bool) -> (r: Result<
    Planned,
    ArborError,
>)
    ensures
        result_view(r) == factor_plan(factor@, catalog@, join_chain),
{
    match factor {
        TableFactor::Table { name, alias, args: false } => {
            let table_key = object_name_last(name);
            let base_schema = match catalog.get(table_key.as_str()) {
                Some(s) => s,
                None => {
                    return Err(
                        ArborError::Plan(join3("unknown table '", table_key.as_str(), "'")),
                    );
                },
            };
            let logical_schema = if join_chain {
                match alias {
                    Some(a) => prefix_schema(base_schema, a.as_str()),
                    None => {
                        return Err(plan_error("table alias is required in JOIN chains"));
                    },
                }
            } else {
                base_schema.clone()
            };
            let plan = LogicalPlan::Scan {
                table_name: table_key,
                schema: logical_schema.clone(),
                projection: None,
            };
            Ok(Planned { plan, schema: logical_schema })
        },
        _ => Err(plan_error("unsupported table factor (subquery, TVF, etc.)")),
    }
}

fn join_operator_to_parts(op: &JoinOperator) -> (r: Result<(JoinType, &SqlExpr), ArborError>)
    ensures
        match r {
            Ok(p) => join_parts(op@) == Ok::<_, ErrorView>((p.0, p.1@)),
            Err(x) => join_parts(op@) == Err::<(JoinType, SqlView), _>(x@),
        },
{
    match op {
        JoinOperator::Inner(JoinConstraint::On(e)) => Ok((JoinType::Inner, e)),
        JoinOperator::LeftOuter(JoinConstraint::On(e)) => Ok((JoinType::Left, e)),
        JoinOperator::Other => Err(plan_error("unsupported JOIN form")),
        _ => Err(plan_error("only INNER/LEFT JOIN ... ON supported")),
    }
}

fn is_named(fields: &Vec<Field>, name: &str) -> (r: bool)
    ensures
        r == names(views(fields@)).contains(name@),
{
    let ghost list = names(views(fields@));
    let mut i: usize = 0;
    while i < fields.len()
        invariant
            i <= fields.len(),
            list == names(views(fields@)),
            forall|k: int| 0 <= k < i ==> list[k] != name@,
        decreases fields.len() - i,
    {
        if *fields[i].name.as_str() == *name {
            proof {
                assert(list[i as int] == name@);
            }
            return true;
        }
        i = i + 1;
    }
    false
}

fn merge_for_join(left: &Schema, right: &Schema) -> (r: Result<Schema, ArborError>)
    ensures
        result_view(r) == merged_fields(left@, right@),
{
    let mut fields: Vec<Field> = left.fields.clone();
    let ghost all = right@;
    let mut i: usize = 0;
    proof {
        assert(views(fields@) =~= left@);
        assert(all.skip(0) =~= all);
    }
    while i < right.fields.len()
        invariant
            i <= right.fields.len(),
            all == right@,
            merged_fields(left@, all) == merged_fields(views(fields@), all.skip(i as int)),
        decreases right.fields.len() - i,
    {
        proof {
            assert(all.skip(i as int)[0] == right.fields[i as int]@);
            assert(all.skip(i as int).skip(1) =~= all.skip(i + 1));
        }
        let mut name = right.fields[i].name.clone();
        if is_named(&fields, name.as_str()) {
            name = join2(name.as_str(), "_dup");
            if is_named(&fields, name.as_str()) {
                return Err(plan_error("duplicate column names in JOIN; rename in SQL"));
            }
        }
        let f = Field { name, data_type: right.fields[i].data_type.clone() };
        proof {
            lemma_views_push(fields@, f);
        }
        fields.push(f);
        i = i + 1;
    }
    proof {
        assert(all.skip(i as int) =~= Seq::empty());
    }
    Ok(Schema { fields })
}

/// The views of some expressions held by reference.
pub open spec fn ref_views(s: Seq<&SqlExpr>) -> Seq<SqlView> {
    Seq::new(s.len(), |i: int| s[i]@)
}

fn collect_and<'a>(expr: &'a SqlExpr, out: &mut Vec<&'a SqlExpr>)
    ensures
        ref_views(final(out)@) == ref_views(old(out)@) + and_parts(expr@),
    decreases expr,
{
    let ghost before = ref_views(out@);
    match expr {
        SqlExpr::Nested(inner) => {
            collect_and(inner, out);
        },
        SqlExpr::BinaryOp { left, op: BinaryOperator::And, right } => {
            collect_and(left, out);
            collect_and(right, out);
            proof {
                let l = and_parts((**left)@);
                let r = and_parts((**right)@);
                assert((before + l) + r =~= before + (l + r));
            }
        },
        _ => {
            out.push(expr);
            proof {
                assert(ref_views(out@) =~= before + seq![expr@]);
            }
        },
    }
}

/// The pairs of left and right keys of a join condition; the first `width` fields are those of the
/// left input.
fn flatten_join_quals(expr: &SqlExpr, schema: &Schema, width: usize) -> (r: Result<
    Vec<(Expr, Expr)>,
    ArborError,
>)
    requires
        width <= schema.fields.len(),
    ensures
        match r {
            Ok(v) => join_keys(expr@, schema@, width as nat) == Ok::<_, ErrorView>(views(v@)),
            Err(x) => join_keys(expr@, schema@, width as nat) == Err::<Seq<(ExprView, ExprView)>, _>(x@),
        },
{
    let mut conjuncts: Vec<&SqlExpr> = Vec::new();
    collect_and(expr, &mut conjuncts);
    let ghost all = and_parts(expr@);
    let mut pairs: Vec<(Expr, Expr)> = Vec::new();
    let left_names = ColumnSet::of_fields(schema, 0, width);
    let right_names = ColumnSet::of_fields(schema, width, schema.fields.len());
    let ghost whole = equalities(all, schema@, width as nat);
    let mut i: usize = 0;
    proof {
        assert(ref_views(conjuncts@) =~= all);
        assert(all.skip(0) =~= all);
        if whole is Ok {
            assert(views(pairs@) + whole->Ok_0 =~= whole->Ok_0);
        }
    }
    while i < conjuncts.len()
        invariant
            i <= conjuncts.len(),
            width <= schema.fields.len(),
            left_names@ == names_before(schema@, width as nat),
            right_names@ == names_after(schema@, width as nat),
            all == ref_views(conjuncts@),
            all == and_parts(expr@),
            whole == equalities(all, schema@, width as nat),
            match equalities(all.skip(i as int), schema@, width as nat) {
                Ok(rest) => whole == Ok::<_, ErrorView>(views(pairs@) + rest),
                Err(x) => whole == Err::<Seq<(ExprView, ExprView)>, _>(x),
            },
        decreases conjuncts.len() - i,
    {
        let ghost before = views(pairs@);
        let ghost rest = equalities(all.skip(i + 1), schema@, width as nat);
        proof {
            assert(all.skip(i as int)[0] == conjuncts[i as int]@);
            assert(all.skip(i as int).skip(1) =~= all.skip(i + 1));
        }
        match conjuncts[i] {
            SqlExpr::BinaryOp { left, op: BinaryOperator::Eq, right } => {
                let l = match convert_expr(left, schema) {
                    Ok(x) => x,
                    Err(x) => return Err(x),
                };
                let r = match convert_expr(right, schema) {
                    Ok(x) => x,
                    Err(x) => return Err(x),
                };
                let lc = collect_columns(&l);
                let rc = collect_columns(&r);
                let straight = lc.is_within(&left_names) && rc.is_within(&right_names);
                let pair = if !straight && lc.is_within(&right_names) && rc.is_within(&left_names) {
                    (r, l)
                } else {
                    (l, r)
                };
                proof {
                    assert(pair@ == turned((l@, r@), schema@, width as nat));
                    lemma_views_push(pairs@, pair);
                    if rest is Ok {
                        assert(before + (seq![pair@] + rest->Ok_0) =~= before.push(pair@)
                            + rest->Ok_0);
                    }
                }
                pairs.push(pair);
            },
            _ => {
                return Err(plan_error("only equi-join AND conjunctions are supported"));
            },
        }
        i = i + 1;
    }
    proof {
        assert(all.skip(i as int) =~= Seq::empty());
        assert(views(pairs@) + Seq::<(ExprView, ExprView)>::empty() =~= views(pairs@));
    }
    if pairs.len() == 0 {
        return Err(plan_error("JOIN requires at least one equality predicate"));
    }
    Ok(pairs)
}

fn plan_table_with_joins(twj: &TableWithJoins, catalog: &Catalog) -> (r: Result<
    Planned,
    ArborError,
>)
    ensures
        result_view(r) == from_plan(twj@, catalog@),
{
    let join_chain = twj.joins.len() > 0;
    let first = match plan_table_factor(&twj.relation, catalog, join_chain) {
        Ok(p) => p,
        Err(x) => return Err(x),
    };
    let ghost all = views(twj.joins@);
    let ghost whole = joined(first.plan@, first.schema@, all, catalog@);
    let mut plan = first.plan;
    let mut schema = first.schema;
    let mut i: usize = 0;
    proof {
        assert(all.skip(0) =~= all);
    }
    while i < twj.joins.len()
        invariant
            i <= twj.joins.len(),
            all == views(twj.joins@),
            join_chain == (twj.joins.len() > 0),
            whole == joined(plan@, schema@, all.skip(i as int), catalog@),
            whole == from_plan(twj@, catalog@),
        decreases twj.joins.len() - i,
    {
        let join = &twj.joins[i];
        proof {
            assert(all.skip(i as int)[0] == join@);
            assert(all.skip(i as int).skip(1) =~= all.skip(i + 1));
        }
        let right = match plan_table_factor(&join.relation, catalog, join_chain) {
            Ok(p) => p,
            Err(x) => return Err(x),
        };
        let (join_type, on_expr) = match join_operator_to_parts(&join.join_operator) {
            Ok(p) => p,
            Err(x) => return Err(x),
        };
        let join_schema = match merge_for_join(&schema, &right.schema) {
            Ok(s) => s,
            Err(x) => return Err(x),
        };
        proof {
            lemma_merged_width(schema@, right.schema@);
        }
        let on = match flatten_join_quals(on_expr, &join_schema, schema.fields.len()) {
            Ok(v) => v,
            Err(x) => return Err(x),
        };
        plan = LogicalPlan::Join {
            left: Box::new(plan),
            right: Box::new(right.plan),
            on,
            join_type,
            schema: join_schema.clone(),
        };
        schema = join_schema;
        i = i + 1;
    }
    proof {
        assert(all.skip(i as int) =~= Seq::empty());
    }
    Ok(Planned { plan, schema })
}

/// Converts some expressions of a query.
fn convert_exprs(es: &Vec<SqlExpr>, schema: &Schema) -> (r: Result<Vec<Expr>, ArborError>)
    ensures
        match r {
            Ok(v) => convert_all(views(es@), schema@) == Ok::<_, ErrorView>(views(v@)),
            Err(x) => convert_all(views(es@), schema@) == Err::<Seq<ExprView>, _>(x@),
        },
{
    let mut out: Vec<Expr> = Vec::new();
    let ghost all = views(es@);
    let ghost whole = convert_all(all, schema@);
    let mut i: usize = 0;
    proof {
        assert(all.skip(0) =~= all);
        if whole is Ok {
            assert(views(out@) + whole->Ok_0 =~= whole->Ok_0);
        }
    }
    while i < es.len()
        invariant
            i <= es.len(),
            all == views(es@),
            whole == convert_all(all, schema@),
            match convert_all(all.skip(i as int), schema@) {
                Ok(rest) => whole == Ok::<_, ErrorView>(views(out@) + rest),
                Err(x) => whole == Err::<Seq<ExprView>, _>(x),
            },
        decreases es.len() - i,
    {
        let ghost before = views(out@);
        let ghost rest = convert_all(all.skip(i + 1), schema@);
        proof {
            assert(all.skip(i as int)[0] == es[i as int]@);
            assert(all.skip(i as int).skip(1) =~= all.skip(i + 1));
        }
        let e = match convert_expr(&es[i], schema) {
            Ok(x) => x,
            Err(x) => return Err(x),
        };
        proof {
            lemma_views_push(out@, e);
            if rest is Ok {
                assert(before + (seq![e@] + rest->Ok_0) =~= before.push(e@) + rest->Ok_0);
            }
        }
        out.push(e);
        i = i + 1;
    }
    proof {
        assert(all.skip(i as int) =~= Seq::empty());
        assert(views(out@) + Seq::<ExprView>::empty() =~= views(out@));
    }
    Ok(out)
}

/// Puts the filter of WHERE on a plan.
fn add_where(selection: &Option<SqlExpr>, input: LogicalPlan, schema: &Schema) -> (r: Result<
    LogicalPlan,
    ArborError,
>)
    ensures
        result_view(r) == where_filter(
            crate::parser::ast::opt_sql_view(*selection),
            input@,
            schema@,
        ),
{
    match selection {
        None => Ok(input),
        Some(e) => match convert_expr(e, schema) {
            Ok(predicate) => Ok(LogicalPlan::Filter { predicate, input: Box::new(input) }),
            Err(x) => Err(x),
        },
    }
}

fn plan_aggregation(
    select: &Select,
    groups: &Vec<SqlExpr>,
    from_plan: LogicalPlan,
    from_schema: &Schema,
) -> (r: Result<LogicalPlan, ArborError>)
    ensures
        result_view(r) == aggregation(select@, views(groups@), from_plan@, from_schema@),
{
    let below = match add_where(&select.selection, from_plan, from_schema) {
        Ok(p) => p,
        Err(x) => return Err(x),
    };
    let group_by = match convert_exprs(groups, from_schema) {
        Ok(v) => v,
        Err(x) => return Err(x),
    };
    let built = match build_aggregate_outputs(&select.projection, &group_by, from_schema) {
        Ok(b) => b,
        Err(x) => return Err(x),
    };
    Ok(
        LogicalPlan::Aggregate {
            group_by,
            aggr_exprs: built.exprs,
            schema: built.schema,
            input: Box::new(below),
        },
    )
}

fn plan_selection(select: &Select, from_plan: LogicalPlan, from_schema: &Schema) -> (r: Result<
    LogicalPlan,
    ArborError,
>)
    ensures
        result_view(r) == selection_plan(select@, from_plan@, from_schema@),
{
    let built = match build_simple_projection(&select.projection, from_schema) {
        Ok(b) => b,
        Err(x) => return Err(x),
    };
    let projection = LogicalPlan::Projection {
        schema: built.schema,
        exprs: built.exprs,
        input: Box::new(from_plan),
    };
    add_where(&select.selection, projection, from_schema)
}

fn plan_select(select: &Select, catalog: &Catalog) -> (r: Result<LogicalPlan, ArborError>)
    ensures
        result_view(r) == select_plan(select@, catalog@),
{
    if select.into {
        return Err(plan_error("INTO is not supported"));
    }
    if select.distinct {
        return Err(plan_error("DISTINCT is not supported"));
    }
    if select.having {
        return Err(plan_error("HAVING is not supported"));
    }
    if select.lateral_views > 0 || select.cluster_by > 0 || select.distribute_by > 0
        || select.sort_by > 0 || select.named_window > 0 || select.qualify || select.top {
        return Err(plan_error("unsupported SELECT clause"));
    }
    if select.from.len() != 1 {
        return Err(plan_error("exactly one FROM item is required"));
    }
    let from = match plan_table_with_joins(&select.from[0], catalog) {
        Ok(p) => p,
        Err(x) => return Err(x),
    };
    let groups = match &select.group_by {
        GroupByExpr::Expressions(es) => es,
        GroupByExpr::All => {
            return Err(plan_error("GROUP BY ALL is not supported"));
        },
    };
    let has_agg = select_items_contain_aggregate(&select.projection);
    if has_agg || groups.len() > 0 {
        plan_aggregation(select, groups, from.plan, &from.schema)
    } else {
        plan_selection(select, from.plan, &from.schema)
    }
}

fn plan_query_body(query: &Query, catalog: &Catalog) -> (r: Result<LogicalPlan, ArborError>)
    ensures
        result_view(r) == query_plan(query@, catalog@),
{
    if query.with {
        return Err(plan_error("WITH / CTE is not supported"));
    }
    let select = match &query.body {
        SetExpr::Select(s) => s,
        SetExpr::Other => {
            return Err(plan_error("only simple SELECT bodies are supported"));
        },
    };
    let mut plan = match plan_select(select, catalog) {
        Ok(p) => p,
        Err(x) => return Err(x),
    };
    if query.order_by.len() > 0 {
        let exprs = match convert_order_by(&query.order_by, plan.schema()) {
            Ok(v) => v,
            Err(x) => return Err(x),
        };
        let ghost keys = views(exprs@);
        let ghost below = plan@;
        plan = LogicalPlan::Sort { exprs, input: Box::new(plan) };
        proof {
            assert(plan@ == PlanView::Sort { exprs: keys, input: Box::new(below) });
        }
    }
    match &query.limit {
        Some(lim) => match parse_limit(lim) {
            Ok(n) => Ok(LogicalPlan::Limit { n, input: Box::new(plan) }),
            Err(x) => Err(x),
        },
        None => Ok(plan),
    }
}

/// Builds a [`LogicalPlan`] from a parsed `SELECT` [`Statement`].
pub fn plan_query(statement: &Statement, catalog: &Catalog) -> (r: Result<LogicalPlan, ArborError>)
    ensures
        result_view(r) == planned(statement@, catalog@),
{
    match statement {
        Statement::Query(q) => plan_query_body(q, catalog),
        Statement::Other => Err(plan_error("expected SELECT statement")),
    }
}

} // verus!
