//! Push filters toward scans and join inputs.

use vstd::prelude::*;
use crate::error::ArborError;
use crate::optimizer::columns::{collect_columns, columns, sets_meet, ColumnSet};
use crate::optimizer::OptimizerRule;
use crate::planner::logical_plan::{
    column_key, key_of, BinaryOp, Expr, ExprView, JoinType, LogicalPlan, PlanView,
};
use crate::types::{lemma_views_push, names, views, FieldView, ScalarValue, ScalarView, Schema};

verus! {

/// The conjuncts of an expression, from left to right.
pub open spec fn flatten(e: ExprView) -> Seq<ExprView>
    decreases e,
{
    match e {
        ExprView::Binary { left, op: BinaryOp::And, right } => flatten(*left) + flatten(*right),
        _ => seq![e],
    }
}

/// The conjunction of some expressions, grouped to the left; TRUE where there is none.
pub open spec fn conjunction(es: Seq<ExprView>) -> ExprView
    decreases es.len(),
{
    if es.len() == 0 {
        ExprView::Literal(ScalarView::Boolean(true))
    } else if es.len() == 1 {
        es[0]
    } else {
        ExprView::Binary {
            left: Box::new(conjunction(es.drop_last())),
            op: BinaryOp::And,
            right: Box::new(es.last()),
        }
    }
}

/// Where a conjunct of a filter above a join is evaluated.
#[derive(Clone, Copy, PartialEq, Eq, Structural)]
pub enum Side {
    /// On the rows of the left input.
    Left,
    /// On the rows of the right input.
    Right,
    /// On the joined rows.
    Above,
}

/// A conjunct that reads columns of one input only goes to that input. A left join makes up rows of
/// its right input, so that what reads those stays above it.
pub open spec fn side_of(
    c: ExprView,
    left: Set<Seq<char>>,
    right: Set<Seq<char>>,
    join_type: JoinType,
) -> Side {
    let l = sets_meet(columns(c), left);
    let r = sets_meet(columns(c), right);
    if l && !r {
        Side::Left
    } else if r && !l && join_type == JoinType::Inner {
        Side::Right
    } else {
        Side::Above
    }
}

/// The conjuncts that go to one side, in order.
pub open spec fn on_side(
    cs: Seq<ExprView>,
    left: Set<Seq<char>>,
    right: Set<Seq<char>>,
    join_type: JoinType,
    side: Side,
) -> Seq<ExprView>
    decreases cs.len(),
{
    if cs.len() == 0 {
        Seq::empty()
    } else {
        let rest = on_side(cs.drop_last(), left, right, join_type, side);
        if side_of(cs.last(), left, right, join_type) == side {
            rest.push(cs.last())
        } else {
            rest
        }
    }
}

/// An expression without its outermost label.
pub open spec fn strip_alias(e: ExprView) -> ExprView {
    match e {
        ExprView::Alias { expr, .. } => *expr,
        _ => e,
    }
}

/// What each output name of a projection stands for; of two equal names, the later.
pub open spec fn bindings(exprs: Seq<ExprView>, outputs: Seq<Seq<char>>) -> Map<
    Seq<char>,
    ExprView,
>
    decreases exprs.len(),
{
    if exprs.len() == 0 {
        Map::empty()
    } else {
        bindings(exprs.drop_last(), outputs).insert(
            outputs[exprs.len() - 1],
            strip_alias(exprs.last()),
        )
    }
}

/// The expression with each bound column replaced by what it stands for.
pub open spec fn substitute(e: ExprView, m: Map<Seq<char>, ExprView>) -> ExprView
    decreases e,
{
    match e {
        ExprView::Column { name, relation } => {
            let k = key_of(name, relation);
            if m.dom().contains(k) { m[k] } else { e }
        },
        ExprView::Binary { left, op, right } => ExprView::Binary {
            left: Box::new(substitute(*left, m)),
            op,
            right: Box::new(substitute(*right, m)),
        },
        ExprView::Aggregate { func, arg } => ExprView::Aggregate {
            func,
            arg: Box::new(substitute(*arg, m)),
        },
        ExprView::Alias { expr, name } => ExprView::Alias {
            expr: Box::new(substitute(*expr, m)),
            name,
        },
        _ => e,
    }
}

/// The number of joins in a plan.
pub open spec fn joins(p: PlanView) -> nat
    decreases p,
{
    match p {
        PlanView::Scan { .. } => 0,
        PlanView::Filter { input, .. } => joins(*input),
        PlanView::Projection { input, .. } => joins(*input),
        PlanView::Aggregate { input, .. } => joins(*input),
        PlanView::Sort { input, .. } => joins(*input),
        PlanView::Join { left, right, .. } => 1 + joins(*left) + joins(*right),
        PlanView::Limit { input, .. } => joins(*input),
        PlanView::Empty { .. } => 0,
    }
}

/// The number of nodes in a plan.
pub open spec fn nodes(p: PlanView) -> nat
    decreases p,
{
    match p {
        PlanView::Scan { .. } => 1,
        PlanView::Filter { input, .. } => 1 + nodes(*input),
        PlanView::Projection { input, .. } => 1 + nodes(*input),
        PlanView::Aggregate { input, .. } => 1 + nodes(*input),
        PlanView::Sort { input, .. } => 1 + nodes(*input),
        PlanView::Join { left, right, .. } => 1 + nodes(*left) + nodes(*right),
        PlanView::Limit { input, .. } => 1 + nodes(*input),
        PlanView::Empty { .. } => 1,
    }
}

/// A filter on `input` for some conjuncts; `input` itself where there is none.
pub open spec fn filtered(cs: Seq<ExprView>, input: PlanView) -> PlanView {
    if cs.len() == 0 {
        input
    } else {
        PlanView::Filter { predicate: conjunction(cs), input: Box::new(input) }
    }
}

/// The first `width` names, as a set.
pub open spec fn names_before(fields: Seq<FieldView>, width: nat) -> Set<Seq<char>> {
    names(fields).subrange(0, if width < fields.len() { width as int } else { fields.len() as int }).to_set()
}

/// The names from index `width` on, as a set.
pub open spec fn names_after(fields: Seq<FieldView>, width: nat) -> Set<Seq<char>> {
    names(fields).subrange(
        if width < fields.len() { width as int } else { fields.len() as int },
        fields.len() as int,
    ).to_set()
}

/// What becomes of a filter on a plan whose own filters are pushed down already.
pub open spec fn push_filter(predicate: ExprView, input: PlanView) -> PlanView
    decreases joins(input), 0nat,
{
    match input {
        PlanView::Filter { predicate: inner, input: child } => PlanView::Filter {
            predicate: ExprView::Binary {
                left: Box::new(predicate),
                op: BinaryOp::And,
                right: Box::new(inner),
            },
            input: child,
        },
        PlanView::Projection { exprs, schema, input: child } => if exprs.len() <= schema.len() {
            PlanView::Projection {
                exprs,
                schema,
                input: Box::new(
                    PlanView::Filter {
                        predicate: substitute(predicate, bindings(exprs, names(schema))),
                        input: child,
                    },
                ),
            }
        } else {
            PlanView::Filter { predicate, input: Box::new(input) }
        },
        PlanView::Join { left, right, on, join_type, schema } => {
            let l = names_before(schema, left.schema().len());
            let r = names_after(schema, left.schema().len());
            let cs = flatten(predicate);
            filtered(
                on_side(cs, l, r, join_type, Side::Above),
                PlanView::Join {
                    left: Box::new(push_down(filtered(on_side(cs, l, r, join_type, Side::Left), *left))),
                    right: Box::new(push_down(filtered(on_side(cs, l, r, join_type, Side::Right), *right))),
                    on,
                    join_type,
                    schema,
                },
            )
        },
        _ => PlanView::Filter { predicate, input: Box::new(input) },
    }
}

/// The plan with its filters pushed toward scans and join inputs.
pub open spec fn push_down(p: PlanView) -> PlanView
    decreases joins(p), nodes(p),
{
    match p {
        PlanView::Filter { predicate, input } => {
            let below = push_down(*input);
            if joins(below) <= joins(*input) {
                push_filter(predicate, below)
            } else {
                p
            }
        },
        PlanView::Projection { exprs, schema, input } => PlanView::Projection {
            exprs,
            schema,
            input: Box::new(push_down(*input)),
        },
        PlanView::Aggregate { group_by, aggr_exprs, schema, input } => PlanView::Aggregate {
            group_by,
            aggr_exprs,
            schema,
            input: Box::new(push_down(*input)),
        },
        PlanView::Sort { exprs, input } => PlanView::Sort {
            exprs,
            input: Box::new(push_down(*input)),
        },
        PlanView::Join { left, right, on, join_type, schema } => PlanView::Join {
            left: Box::new(push_down(*left)),
            right: Box::new(push_down(*right)),
            on,
            join_type,
            schema,
        },
        PlanView::Limit { n, input } => PlanView::Limit { n, input: Box::new(push_down(*input)) },
        _ => p,
    }
}

/// Pushing filters down keeps the number of joins and the output schema.
pub proof fn lemma_push_down_keeps(p: PlanView)
    ensures
        joins(push_down(p)) == joins(p),
        push_down(p).schema() == p.schema(),
    decreases joins(p), nodes(p),
{
    match p {
        PlanView::Filter { predicate, input } => {
            lemma_push_down_keeps(*input);
            lemma_push_filter_keeps(predicate, push_down(*input));
        },
        PlanView::Projection { input, .. } => { lemma_push_down_keeps(*input); },
        PlanView::Aggregate { input, .. } => { lemma_push_down_keeps(*input); },
        PlanView::Sort { input, .. } => { lemma_push_down_keeps(*input); },
        PlanView::Join { left, right, .. } => {
            lemma_push_down_keeps(*left);
            lemma_push_down_keeps(*right);
        },
        PlanView::Limit { input, .. } => { lemma_push_down_keeps(*input); },
        _ => {},
    }
}

/// Pushing one filter keeps the number of joins and the output schema.
pub proof fn lemma_push_filter_keeps(predicate: ExprView, input: PlanView)
    ensures
        joins(push_filter(predicate, input)) == joins(input),
        push_filter(predicate, input).schema() == input.schema(),
    decreases joins(input), 0nat,
{
    reveal_with_fuel(joins, 3);
    reveal_with_fuel(PlanView::schema, 3);
    match input {
        PlanView::Join { left, right, on, join_type, schema } => {
            let l = names_before(schema, left.schema().len());
            let r = names_after(schema, left.schema().len());
            let cs = flatten(predicate);
            lemma_push_down_keeps(filtered(on_side(cs, l, r, join_type, Side::Left), *left));
            lemma_push_down_keeps(filtered(on_side(cs, l, r, join_type, Side::Right), *right));
        },
        _ => {},
    }
}

/// Pushes [`LogicalPlan::Filter`] nodes toward scans and join inputs where safe.
pub struct PredicatePushdown;

impl OptimizerRule for PredicatePushdown {
    open spec fn accepts(&self, plan: PlanView) -> bool {
        true
    }

    open spec fn rewrites(&self, plan: PlanView, out: PlanView) -> bool {
        out == push_down(plan)
    }

    fn name(&self) -> (r: &str)
        ensures
            r@ == "predicate_pushdown"@,
    {
        "predicate_pushdown"
    }

    fn optimize(&self, plan: LogicalPlan) -> (r: Result<LogicalPlan, ArborError>)
        ensures
            r is Ok,
    {
        Ok(optimize_rec(plan))
    }
}

fn optimize_rec(plan: LogicalPlan) -> (r: LogicalPlan)
    ensures
        r@ == push_down(plan@),
    decreases joins(plan@), nodes(plan@),
{
    match plan {
        LogicalPlan::Filter { predicate, input } => {
            proof {
                lemma_push_down_keeps((*input)@);
                assert(nodes((*input)@) >= 1);
            }
            let below = optimize_rec(*input);
            push_filter_or_merge(predicate, below)
        },
        LogicalPlan::Projection { exprs, schema, input } => LogicalPlan::Projection {
            exprs,
            schema,
            input: Box::new(optimize_rec(*input)),
        },
        LogicalPlan::Aggregate { group_by, aggr_exprs, schema, input } => LogicalPlan::Aggregate {
            group_by,
            aggr_exprs,
            schema,
            input: Box::new(optimize_rec(*input)),
        },
        LogicalPlan::Sort { exprs, input } => LogicalPlan::Sort {
            exprs,
            input: Box::new(optimize_rec(*input)),
        },
        LogicalPlan::Join { left, right, on, join_type, schema } => {
            let left = optimize_rec(*left);
            let right = optimize_rec(*right);
            LogicalPlan::Join {
                left: Box::new(left),
                right: Box::new(right),
                on,
                join_type,
                schema,
            }
        },
        LogicalPlan::Limit { n, input } => LogicalPlan::Limit {
            n,
            input: Box::new(optimize_rec(*input)),
        },
        other => other,
    }
}

fn push_filter_or_merge(predicate: Expr, input: LogicalPlan) -> (r: LogicalPlan)
    ensures
        r@ == push_filter(predicate@, input@),
    decreases joins(input@), 1nat,
{
    match input {
        LogicalPlan::Filter { predicate: inner_pred, input: inner } => {
            let merged = Expr::BinaryExpr {
                left: Box::new(predicate),
                op: BinaryOp::And,
                right: Box::new(inner_pred),
            };
            let r = LogicalPlan::Filter { predicate: merged, input: inner };
            proof {
                assert(r@ == push_filter(predicate@, input@));
            }
            r
        },
        LogicalPlan::Projection { exprs, schema, input: child } => {
            let rewritten = try_rewrite_filter_below_projection(&predicate, &exprs, &schema);
            match rewritten {
                Some(below) => {
                    let filter = LogicalPlan::Filter { predicate: below, input: child };
                    proof {
                        assert(filter@ == PlanView::Filter {
                            predicate: below@,
                            input: Box::new((*child)@),
                        });
                    }
                    LogicalPlan::Projection { exprs, schema, input: Box::new(filter) }
                },
                None => {
                    let projection = LogicalPlan::Projection { exprs, schema, input: child };
                    proof {
                        assert(projection@ == input@);
                    }
                    LogicalPlan::Filter { predicate, input: Box::new(projection) }
                },
            }
        },
        LogicalPlan::Join { left, right, on, join_type, schema } => {
            push_predicates_into_join(predicate, *left, *right, on, join_type, schema)
        },
        other => {
            let r = LogicalPlan::Filter { predicate, input: Box::new(other) };
            proof {
                assert(r@ == push_filter(predicate@, input@));
            }
            r
        },
    }
}

fn push_predicates_into_join(
    predicate: Expr,
    left: LogicalPlan,
    right: LogicalPlan,
    on: Vec<(Expr, Expr)>,
    join_type: JoinType,
    schema: Schema,
) -> (r: LogicalPlan)
    ensures
        r@ == push_filter(
            predicate@,
            PlanView::Join {
                left: Box::new(left@),
                right: Box::new(right@),
                on: views(on@),
                join_type,
                schema: schema@,
            },
        ),
    decreases 1 + joins(left@) + joins(right@), 0nat,
{
    let width: usize = left.schema().fields.len();
    let total: usize = schema.fields.len();
    let cut: usize = if width < total { width } else { total };
    let left_names = ColumnSet::of_fields(&schema, 0, cut);
    let right_names = ColumnSet::of_fields(&schema, cut, total);
    let ghost cs = flatten(predicate@);
    let conjuncts = flatten_and(predicate);
    let mut above: Vec<Expr> = Vec::new();
    let mut left_preds: Vec<Expr> = Vec::new();
    let mut right_preds: Vec<Expr> = Vec::new();
    let mut i: usize = 0;
    proof {
        assert(views(above@) =~= Seq::empty());
        assert(cs.take(0) =~= Seq::empty());
    }
    while i < conjuncts.len()
        invariant
            i <= conjuncts.len(),
            views(conjuncts@) == cs,
            views(above@) == on_side(cs.take(i as int), left_names@, right_names@, join_type, Side::Above),
            views(left_preds@) == on_side(cs.take(i as int), left_names@, right_names@, join_type, Side::Left),
            views(right_preds@) == on_side(
                cs.take(i as int),
                left_names@,
                right_names@, join_type,
                Side::Right,
            ),
        decreases conjuncts.len() - i,
    {
        let c = conjuncts[i].clone();
        let cols = collect_columns(&c);
        let touches_left = cols.meets(&left_names);
        let touches_right = cols.meets(&right_names);
        proof {
            let t = cs.take(i + 1);
            assert(t.drop_last() =~= cs.take(i as int));
            assert(t.last() == c@);
            lemma_views_push(above@, c);
            lemma_views_push(left_preds@, c);
            lemma_views_push(right_preds@, c);
        }
        if touches_left && touches_right {
            above.push(c);
        } else if touches_left {
            left_preds.push(c);
        } else if touches_right && join_type == JoinType::Inner {
            right_preds.push(c);
        } else {
            above.push(c);
        }
        i = i + 1;
    }
    proof {
        assert(cs.take(conjuncts.len() as int) =~= cs);
    }
    let mut new_left = left;
    if left_preds.len() > 0 {
        new_left = LogicalPlan::Filter {
            predicate: and_all(left_preds),
            input: Box::new(new_left),
        };
    }
    let mut new_right = right;
    if right_preds.len() > 0 {
        new_right = LogicalPlan::Filter {
            predicate: and_all(right_preds),
            input: Box::new(new_right),
        };
    }
    proof {
        assert(new_left@ == filtered(on_side(cs, left_names@, right_names@, join_type, Side::Left), left@));
        assert(new_right@ == filtered(on_side(cs, left_names@, right_names@, join_type, Side::Right), right@));
        assert(left_names@ == names_before(schema@, left@.schema().len()));
        assert(right_names@ == names_after(schema@, left@.schema().len()));
        assert(joins(new_left@) == joins(left@));
        assert(joins(new_right@) == joins(right@));
    }
    let pushed_left = optimize_rec(new_left);
    let pushed_right = optimize_rec(new_right);
    let join = LogicalPlan::Join {
        left: Box::new(pushed_left),
        right: Box::new(pushed_right),
        on,
        join_type,
        schema,
    };
    proof {
        assert(join@ == PlanView::Join {
            left: Box::new(pushed_left@),
            right: Box::new(pushed_right@),
            on: views(on@),
            join_type,
            schema: schema@,
        });
    }
    if above.len() == 0 {
        join
    } else {
        LogicalPlan::Filter { predicate: and_all(above), input: Box::new(join) }
    }
}

/// What the bound names of a list stand for; of two equal names, the later.
spec fn entries_map(entries: Seq<(String, Expr)>) -> Map<Seq<char>, ExprView>
    decreases entries.len(),
{
    if entries.len() == 0 {
        Map::empty()
    } else {
        entries_map(entries.drop_last()).insert(entries.last().0@, entries.last().1@)
    }
}

/// Finds what `key` stands for.
fn bound_to<'a>(entries: &'a Vec<(String, Expr)>, key: &str) -> (r: Option<&'a Expr>)
    ensures
        match r {
            Some(e) => entries_map(entries@).dom().contains(key@) && entries_map(entries@)[key@]
                == e@,
            None => !entries_map(entries@).dom().contains(key@),
        },
{
    let mut i: usize = entries.len();
    proof {
        assert(entries@.take(entries.len() as int) =~= entries@);
    }
    while i > 0
        invariant
            i <= entries.len(),
            entries_map(entries@).dom().contains(key@) <==> entries_map(
                entries@.take(i as int),
            ).dom().contains(key@),
            entries_map(entries@).dom().contains(key@) ==> entries_map(entries@)[key@]
                == entries_map(entries@.take(i as int))[key@],
        decreases i,
    {
        i = i - 1;
        proof {
            let t = entries@.take(i + 1);
            assert(t.drop_last() =~= entries@.take(i as int));
            assert(t.last() == entries@[i as int]);
        }
        if *entries[i].0.as_str() == *key {
            return Some(&entries[i].1);
        }
    }
    None
}

fn try_rewrite_filter_below_projection(
    pred: &Expr,
    proj_exprs: &Vec<Expr>,
    proj_schema: &Schema,
) -> (r: Option<Expr>)
    ensures
        match r {
            Some(e) => proj_exprs.len() <= proj_schema.fields.len() && e@ == substitute(
                pred@,
                bindings(views(proj_exprs@), names(proj_schema@)),
            ),
            None => proj_exprs.len() > proj_schema.fields.len(),
        },
{
    let mut map: Vec<(String, Expr)> = Vec::new();
    let ghost es = views(proj_exprs@);
    let ghost outs = names(proj_schema@);
    let mut i: usize = 0;
    proof {
        assert(es.take(0) =~= Seq::empty());
    }
    while i < proj_exprs.len()
        invariant
            i <= proj_exprs.len(),
            i <= proj_schema.fields.len(),
            es == views(proj_exprs@),
            outs == names(proj_schema@),
            entries_map(map@) == bindings(es.take(i as int), outs),
        decreases proj_exprs.len() - i,
    {
        if i >= proj_schema.fields.len() {
            return None;
        }
        let key = proj_schema.fields[i].name.clone();
        let inner = match &proj_exprs[i] {
            Expr::Alias { expr, .. } => (**expr).clone(),
            o => o.clone(),
        };
        let ghost before = map@;
        map.push((key, inner));
        proof {
            assert(map@.drop_last() =~= before);
            let t = es.take(i + 1);
            assert(t.drop_last() =~= es.take(i as int));
            assert(t.last() == proj_exprs[i as int]@);
        }
        i = i + 1;
    }
    proof {
        assert(es.take(proj_exprs.len() as int) =~= es);
    }
    Some(substitute_columns(pred, &map))
}

fn substitute_columns(expr: &Expr, map: &Vec<(String, Expr)>) -> (r: Expr)
    ensures
        r@ == substitute(expr@, entries_map(map@)),
    decreases expr,
{
    match expr {
        Expr::Column { name, relation } => {
            let k = column_key(name.as_str(), relation.as_ref());
            match bound_to(map, k.as_str()) {
                Some(rep) => rep.clone(),
                None => expr.clone(),
            }
        },
        Expr::BinaryExpr { left, op, right } => Expr::BinaryExpr {
            left: Box::new(substitute_columns(left, map)),
            op: *op,
            right: Box::new(substitute_columns(right, map)),
        },
        Expr::AggregateFunc { func, arg } => Expr::AggregateFunc {
            func: *func,
            arg: Box::new(substitute_columns(arg, map)),
        },
        Expr::Alias { expr, name } => Expr::Alias {
            expr: Box::new(substitute_columns(expr, map)),
            name: name.clone(),
        },
        _ => expr.clone(),
    }
}

fn flatten_and(expr: Expr) -> (r: Vec<Expr>)
    ensures
        views(r@) == flatten(expr@),
    decreases expr,
{
    match expr {
        Expr::BinaryExpr { left, op: BinaryOp::And, right } => {
            let mut v = flatten_and(*left);
            let mut w = flatten_and(*right);
            let ghost a = v@;
            let ghost b = w@;
            v.append(&mut w);
            proof {
                assert(views(v@) =~= views(a) + views(b));
            }
            v
        },
        other => {
            let mut v: Vec<Expr> = Vec::new();
            v.push(other);
            proof {
                assert(views(v@) =~= seq![other@]);
            }
            v
        },
    }
}

fn and_all(exprs: Vec<Expr>) -> (r: Expr)
    ensures
        r@ == conjunction(views(exprs@)),
{
    let ghost es = views(exprs@);
    if exprs.len() == 0 {
        return Expr::Literal(ScalarValue::Boolean(true));
    }
    let mut acc = exprs[0].clone();
    let mut i: usize = 1;
    proof {
        assert(es.take(1) =~= seq![es[0]]);
    }
    while i < exprs.len()
        invariant
            1 <= i <= exprs.len(),
            es == views(exprs@),
            acc@ == conjunction(es.take(i as int)),
        decreases exprs.len() - i,
    {
        let e = exprs[i].clone();
        proof {
            let t = es.take(i + 1);
            assert(t.drop_last() =~= es.take(i as int));
            assert(t.last() == e@);
        }
        acc = Expr::BinaryExpr { left: Box::new(acc), op: BinaryOp::And, right: Box::new(e) };
        i = i + 1;
    }
    proof {
        assert(es.take(exprs.len() as int) =~= es);
    }
    acc
}

} // verus!
