//! What the optimizer achieves: constants are computed, scans read what is used, filters stand low.

use vstd::prelude::*;
use crate::executor::scan::{request_of, requests, scan_fields, RequestView};
use crate::optimizer::columns::{columns, columns_of_all, sets_meet};
use crate::optimizer::constant_folding::{
    fold, fold_all, fold_down, fold_pairs, fold_sorts, folded, int_defined, lemma_quotient_fits,
    truncated_quotient,
};
use crate::optimizer::predicate_pushdown::{
    filtered, flatten, joins, lemma_push_down_keeps, names_after, names_before, nodes, on_side,
    push_down, push_filter, Side,
};
use crate::optimizer::projection_pruning::{
    is_identity, kept, left_keys, prune, pruned, right_keys, scan_projection, sort_exprs, wanted,
};
use crate::planner::logical_plan::{key_of, BinaryOp, ExprView, JoinType, PlanView};
use crate::optimizer::optimized;
use crate::semantics::planning::{
    filters_vary, law_folding_leaves_no_constant_filter, law_kept_columns,
};
use crate::types::{lemma_position_is, names, FieldView, ScalarView};
use crate::written::qualifies;

verus! {

/// The number is one of 64 bits.
pub open spec fn in_64_bits(n: int) -> bool {
    i64::MIN <= n <= i64::MAX
}

/// The operator has a result on two constants.
pub open spec fn has_result(a: ScalarView, op: BinaryOp, b: ScalarView) -> bool {
    match (a, b) {
        (ScalarView::Int64(x), ScalarView::Int64(y)) => match op {
            BinaryOp::Plus => in_64_bits(x + y),
            BinaryOp::Minus => in_64_bits(x - y),
            BinaryOp::Mul => in_64_bits(x * y),
            BinaryOp::Div => y != 0 && !(x == i64::MIN && y == -1),
            BinaryOp::And => false,
            BinaryOp::Or => false,
            _ => true,
        },
        (ScalarView::Float64(_), ScalarView::Float64(_)) => op != BinaryOp::And && op != BinaryOp::Or,
        (ScalarView::Int64(_), ScalarView::Float64(_)) => computes_number(op),
        (ScalarView::Float64(_), ScalarView::Int64(_)) => computes_number(op),
        (ScalarView::Utf8(_), ScalarView::Utf8(_)) => !computes_number(op) && op != BinaryOp::And && op
            != BinaryOp::Or,
        (ScalarView::Boolean(_), ScalarView::Boolean(_)) => !computes_number(op),
        _ => false,
    }
}

/// The operator computes a number.
pub open spec fn computes_number(op: BinaryOp) -> bool {
    op == BinaryOp::Plus || op == BinaryOp::Minus || op == BinaryOp::Mul || op == BinaryOp::Div
}

/// Law: an operator between two constants is folded exactly if it has a result on them.
pub proof fn law_constants_are_folded(a: ScalarView, op: BinaryOp, b: ScalarView)
    ensures
        fold(
            ExprView::Binary {
                left: Box::new(ExprView::Literal(a)),
                op,
                right: Box::new(ExprView::Literal(b)),
            },
        ) is Literal <==> has_result(a, op, b),
{
    reveal_with_fuel(fold, 2);
    assert(folded(a, op, b) is Some <==> has_result(a, op, b)) by {
        if let (ScalarView::Int64(x), ScalarView::Int64(y)) = (a, b) {
            if op == BinaryOp::Div && y != 0 {
                if x == i64::MIN && y == -1 {
                    assert(truncated_quotient(x as int, y as int) == 0x8000_0000_0000_0000);
                } else {
                    lemma_quotient_fits(x, y);
                    assert(int_defined(op, x, y));
                }
            }
        }
    }
}

/// No operator between two constants that has a result is left in the expression.
pub open spec fn is_folded(e: ExprView) -> bool
    decreases e,
{
    match e {
        ExprView::Binary { left, op, right } => {
            &&& is_folded(*left)
            &&& is_folded(*right)
            &&& match (*left, *right) {
                (ExprView::Literal(a), ExprView::Literal(b)) => !has_result(a, op, b),
                _ => true,
            }
        },
        ExprView::Aggregate { arg, .. } => is_folded(*arg),
        ExprView::Alias { expr, .. } => is_folded(*expr),
        _ => true,
    }
}

/// Nothing is left to fold in any expression of the plan.
pub open spec fn plan_is_folded(p: PlanView) -> bool
    decreases p,
{
    match p {
        PlanView::Filter { predicate, input } => is_folded(predicate) && plan_is_folded(*input),
        PlanView::Projection { exprs, input, .. } => all_folded(exprs) && plan_is_folded(*input),
        PlanView::Aggregate { group_by, aggr_exprs, input, .. } => {
            &&& all_folded(group_by)
            &&& all_folded(aggr_exprs)
            &&& plan_is_folded(*input)
        },
        PlanView::Sort { exprs, input } => {
            &&& forall|i: int| 0 <= i < exprs.len() ==> is_folded((#[trigger] exprs[i]).expr)
            &&& plan_is_folded(*input)
        },
        PlanView::Join { left, right, on, .. } => {
            &&& forall|i: int|
                0 <= i < on.len() ==> is_folded((#[trigger] on[i]).0) && is_folded(on[i].1)
            &&& plan_is_folded(*left)
            &&& plan_is_folded(*right)
        },
        PlanView::Limit { input, .. } => plan_is_folded(*input),
        _ => true,
    }
}

/// Nothing is left to fold in any of the expressions.
pub open spec fn all_folded(es: Seq<ExprView>) -> bool {
    forall|i: int| 0 <= i < es.len() ==> is_folded(#[trigger] es[i])
}

/// Law: folding an expression leaves nothing to fold.
pub proof fn law_folding_folds(e: ExprView)
    ensures
        is_folded(fold(e)),
    decreases e,
{
    match e {
        ExprView::Binary { left, op, right } => {
            law_folding_folds(*left);
            law_folding_folds(*right);
            if let (ExprView::Literal(a), ExprView::Literal(b)) = (fold(*left), fold(*right)) {
                law_constants_are_folded(a, op, b);
                reveal_with_fuel(fold, 2);
            }
        },
        ExprView::Aggregate { arg, .. } => { law_folding_folds(*arg); },
        ExprView::Alias { expr, .. } => { law_folding_folds(*expr); },
        _ => {},
    }
}

proof fn lemma_all_folded(es: Seq<ExprView>)
    ensures
        all_folded(fold_all(es)),
{
    assert forall|i: int| 0 <= i < es.len() implies is_folded(#[trigger] fold_all(es)[i]) by {
        law_folding_folds(es[i]);
    }
}

/// Law: folding a plan leaves nothing to fold in it.
pub proof fn law_plans_are_folded(p: PlanView)
    ensures
        plan_is_folded(fold_down(p)),
    decreases p,
{
    match p {
        PlanView::Filter { predicate, input } => {
            law_plans_are_folded(*input);
            law_folding_folds(predicate);
        },
        PlanView::Projection { exprs, input, .. } => {
            law_plans_are_folded(*input);
            lemma_all_folded(exprs);
        },
        PlanView::Aggregate { group_by, aggr_exprs, input, .. } => {
            law_plans_are_folded(*input);
            lemma_all_folded(group_by);
            lemma_all_folded(aggr_exprs);
        },
        PlanView::Sort { exprs, input } => {
            law_plans_are_folded(*input);
            assert forall|i: int| 0 <= i < exprs.len() implies is_folded(
                (#[trigger] fold_sorts(exprs)[i]).expr,
            ) by {
                law_folding_folds(exprs[i].expr);
            }
        },
        PlanView::Join { left, right, on, .. } => {
            law_plans_are_folded(*left);
            law_plans_are_folded(*right);
            assert forall|i: int| 0 <= i < on.len() implies is_folded((#[trigger] fold_pairs(on)[i]).0)
                && is_folded(fold_pairs(on)[i].1) by {
                law_folding_folds(on[i].0);
                law_folding_folds(on[i].1);
            }
        },
        PlanView::Limit { input, .. } => { law_plans_are_folded(*input); },
        _ => {},
    }
}

/// The keys of the columns that the expressions of a plan read.
pub open spec fn used_in(p: PlanView) -> Set<Seq<char>>
    decreases p,
{
    match p {
        PlanView::Filter { predicate, input } => columns(predicate).union(used_in(*input)),
        PlanView::Projection { exprs, input, .. } => columns_of_all(exprs).union(used_in(*input)),
        PlanView::Aggregate { group_by, aggr_exprs, input, .. } => columns_of_all(group_by).union(
            columns_of_all(aggr_exprs),
        ).union(used_in(*input)),
        PlanView::Sort { exprs, input } => columns_of_all(sort_exprs(exprs)).union(used_in(*input)),
        PlanView::Join { left, right, on, .. } => columns_of_all(left_keys(on)).union(
            columns_of_all(right_keys(on)),
        ).union(used_in(*left)).union(used_in(*right)),
        PlanView::Limit { input, .. } => used_in(*input),
        _ => Set::empty(),
    }
}

/// A column of the name answers one of the keys: by its name, or by what follows the qualifier.
pub open spec fn answers_one(name: Seq<char>, keys: Set<Seq<char>>) -> bool {
    exists|k: Seq<char>| #[trigger] keys.contains(k) && (k == name || qualifies(k, name))
}

/// The column is one that a scan reads.
pub open spec fn reads_column(projection: Option<Seq<usize>>, i: int) -> bool {
    match projection {
        Some(idxs) => idxs.contains(i as usize),
        None => true,
    }
}

/// Every scan of the plan reads columns only that answer one of the keys.
pub open spec fn reads_only(p: PlanView, keys: Set<Seq<char>>) -> bool
    decreases p,
{
    match p {
        PlanView::Scan { schema, projection, .. } => forall|i: int|
            0 <= i < schema.len() && reads_column(projection, i) ==> answers_one(
                (#[trigger] schema[i]).name,
                keys,
            ),
        PlanView::Filter { input, .. } => reads_only(*input, keys),
        PlanView::Projection { input, .. } => reads_only(*input, keys),
        PlanView::Aggregate { input, .. } => reads_only(*input, keys),
        PlanView::Sort { input, .. } => reads_only(*input, keys),
        PlanView::Join { left, right, .. } => reads_only(*left, keys) && reads_only(*right, keys),
        PlanView::Limit { input, .. } => reads_only(*input, keys),
        PlanView::Empty { .. } => true,
    }
}

/// No table of the plan has more columns than can be counted.
pub open spec fn scans_small(p: PlanView) -> bool
    decreases p,
{
    match p {
        PlanView::Scan { schema, .. } => schema.len() <= usize::MAX,
        PlanView::Filter { input, .. } => scans_small(*input),
        PlanView::Projection { input, .. } => scans_small(*input),
        PlanView::Aggregate { input, .. } => scans_small(*input),
        PlanView::Sort { input, .. } => scans_small(*input),
        PlanView::Join { left, right, .. } => scans_small(*left) && scans_small(*right),
        PlanView::Limit { input, .. } => scans_small(*input),
        PlanView::Empty { .. } => true,
    }
}

/// A scan that is cut down to some needs reads columns only that answer them.
proof fn lemma_scan_reads(schema: Seq<FieldView>, needs: Set<Seq<char>>, keys: Set<Seq<char>>)
    requires
        schema.len() <= usize::MAX,
        needs.subset_of(keys),
    ensures
        forall|i: int|
            0 <= i < schema.len() && reads_column(scan_projection(names(schema), needs), i)
                ==> answers_one((#[trigger] schema[i]).name, keys),
{
    let list = names(schema);
    let all = wanted(list, needs);
    law_kept_columns(list, all);
    let idxs = kept(list, all);
    assert forall|i: int|
        0 <= i < schema.len() && reads_column(scan_projection(list, needs), i) implies answers_one(
        (#[trigger] schema[i]).name,
        keys,
    ) by {
        let name = schema[i].name;
        assert(list[i] == name);
        if idxs.len() == list.len() {
            crate::semantics::pruning::lemma_kept_all(list, all);
        }
        assert(all.contains(name));
        if needs.contains(name) {
            assert(keys.contains(name));
        } else {
            let k = choose|k: Seq<char>| #[trigger]
                needs.contains(k) && !list.contains(k)
                    && crate::optimizer::projection_pruning::qualifies(k, name);
            crate::written::conditions::lemma_qualifies(k, name);
            assert(keys.contains(k));
        }
    }
}

/// A plan cut down to some needs reads columns only that answer them or its own expressions.
proof fn lemma_prune_reads(p: PlanView, needs: Set<Seq<char>>, keys: Set<Seq<char>>)
    requires
        needs.subset_of(keys),
        used_in(p).subset_of(keys),
        scans_small(p),
    ensures
        reads_only(prune(p, needs), keys),
    decreases p,
{
    match p {
        PlanView::Scan { schema, .. } => { lemma_scan_reads(schema, needs, keys); },
        PlanView::Filter { predicate, input } => {
            lemma_prune_reads(*input, needs.union(columns(predicate)), keys);
        },
        PlanView::Projection { exprs, input, .. } => {
            lemma_prune_reads(*input, columns_of_all(exprs), keys);
        },
        PlanView::Aggregate { group_by, aggr_exprs, input, .. } => {
            lemma_prune_reads(
                *input,
                columns_of_all(group_by).union(columns_of_all(aggr_exprs)),
                keys,
            );
        },
        PlanView::Sort { exprs, input } => {
            lemma_prune_reads(*input, needs.union(columns_of_all(sort_exprs(exprs))), keys);
        },
        PlanView::Join { left, right, on, .. } => {
            lemma_prune_reads(*left, needs.union(columns_of_all(left_keys(on))), keys);
            lemma_prune_reads(*right, needs.union(columns_of_all(right_keys(on))), keys);
        },
        PlanView::Limit { input, .. } => { lemma_prune_reads(*input, needs, keys); },
        PlanView::Empty { .. } => {},
    }
}

/// Law: after pruning, a scan reads a column only if the result has it or an expression of the plan
/// reads it.
pub proof fn law_scans_read_what_is_used(p: PlanView)
    requires
        scans_small(p),
    ensures
        reads_only(pruned(p), names(p.schema()).to_set().union(used_in(p))),
{
    lemma_prune_reads(
        p,
        names(p.schema()).to_set(),
        names(p.schema()).to_set().union(used_in(p)),
    );
}

/// The expressions are the columns of the input, one after the other and under their names.
pub open spec fn copies(
    exprs: Seq<ExprView>,
    schema: Seq<FieldView>,
    input: Seq<FieldView>,
) -> bool {
    &&& exprs.len() == input.len()
    &&& schema.len() == input.len()
    &&& names(input).no_duplicates()
    &&& forall|i: int|
        0 <= i < input.len() ==> schema[i].name == (#[trigger] input[i]).name && (exprs[i]
            matches ExprView::Column { name, relation } && key_of(name, relation) == input[i].name)
}

/// No projection of the plan copies its input.
pub open spec fn copies_nothing(p: PlanView) -> bool
    decreases p,
{
    match p {
        PlanView::Projection { exprs, schema, input } => !copies(exprs, schema, input.schema())
            && copies_nothing(*input),
        PlanView::Filter { input, .. } => copies_nothing(*input),
        PlanView::Aggregate { input, .. } => copies_nothing(*input),
        PlanView::Sort { input, .. } => copies_nothing(*input),
        PlanView::Join { left, right, .. } => copies_nothing(*left) && copies_nothing(*right),
        PlanView::Limit { input, .. } => copies_nothing(*input),
        _ => true,
    }
}

/// Expressions that copy the columns of an input are the identity on it.
proof fn lemma_copies(exprs: Seq<ExprView>, schema: Seq<FieldView>, input: Seq<FieldView>)
    requires
        copies(exprs, schema, input),
    ensures
        is_identity(exprs, schema, input),
{
    assert(names(schema) =~= names(input)) by {
        assert forall|i: int| 0 <= i < input.len() implies names(schema)[i] == names(input)[i] by {
            assert(schema[i].name == input[i].name);
        }
    }
    assert forall|i: int| 0 <= i < exprs.len() implies match #[trigger] exprs[i] {
        ExprView::Column { name, relation } => crate::types::position(
            names(input),
            key_of(name, relation),
        ) == Some(i),
        _ => false,
    } by {
        let k = input[i].name;
        assert(names(input)[i] == k);
        assert forall|j: int| 0 <= j < i implies names(input)[j] != k by {
            assert(names(input)[j] != names(input)[i]);
        }
        lemma_position_is(names(input), k, i);
    }
}

proof fn lemma_prune_copies_nothing(p: PlanView, needs: Set<Seq<char>>)
    ensures
        copies_nothing(prune(p, needs)),
    decreases p,
{
    match p {
        PlanView::Filter { predicate, input } => {
            lemma_prune_copies_nothing(*input, needs.union(columns(predicate)));
        },
        PlanView::Projection { exprs, schema, input } => {
            lemma_prune_copies_nothing(*input, columns_of_all(exprs));
            let below = prune(*input, columns_of_all(exprs));
            if copies(exprs, schema, below.schema()) {
                lemma_copies(exprs, schema, below.schema());
            }
        },
        PlanView::Aggregate { group_by, aggr_exprs, input, .. } => {
            lemma_prune_copies_nothing(
                *input,
                columns_of_all(group_by).union(columns_of_all(aggr_exprs)),
            );
        },
        PlanView::Sort { exprs, input } => {
            lemma_prune_copies_nothing(*input, needs.union(columns_of_all(sort_exprs(exprs))));
        },
        PlanView::Join { left, right, on, .. } => {
            lemma_prune_copies_nothing(*left, needs.union(columns_of_all(left_keys(on))));
            lemma_prune_copies_nothing(*right, needs.union(columns_of_all(right_keys(on))));
        },
        PlanView::Limit { input, .. } => { lemma_prune_copies_nothing(*input, needs); },
        _ => {},
    }
}

/// Law: pruning leaves no projection that copies its input.
pub proof fn law_copies_are_dropped(p: PlanView)
    ensures
        copies_nothing(pruned(p)),
{
    lemma_prune_copies_nothing(p, names(p.schema()).to_set());
}

/// Law: a filter on a projection becomes a filter below it.
pub proof fn law_filters_pass_projections(
    predicate: ExprView,
    exprs: Seq<ExprView>,
    schema: Seq<FieldView>,
    input: PlanView,
)
    requires
        exprs.len() <= schema.len(),
    ensures
        push_down(
            PlanView::Filter {
                predicate,
                input: Box::new(PlanView::Projection { exprs, schema, input: Box::new(input) }),
            },
        ) matches PlanView::Projection { exprs: e, schema: s, input: below } && e == exprs && s
            == schema && (*below matches PlanView::Filter { input: child, .. } && *child
            == push_down(input)),
{
    reveal_with_fuel(push_down, 3);
    lemma_push_down_keeps(PlanView::Projection { exprs, schema, input: Box::new(input) });
}

/// Law: filters on a scan become one filter on it.
pub proof fn law_filters_are_merged(
    a: ExprView,
    b: ExprView,
    table: Seq<char>,
    schema: Seq<FieldView>,
    projection: Option<Seq<usize>>,
)
    ensures
        ({
            let scan = PlanView::Scan { table, schema, projection };
            let inner = PlanView::Filter { predicate: b, input: Box::new(scan) };
            push_down(PlanView::Filter { predicate: a, input: Box::new(inner) })
                matches PlanView::Filter { input, .. } && *input == scan
        }),
{
    reveal_with_fuel(push_down, 4);
    let scan = PlanView::Scan { table, schema, projection };
    let inner = PlanView::Filter { predicate: b, input: Box::new(scan) };
    lemma_push_down_keeps(scan);
    lemma_push_down_keeps(inner);
}

/// The expression reads a column of one of the names.
pub open spec fn reads_one(c: ExprView, list: Seq<Seq<char>>) -> bool {
    exists|i: int| 0 <= i < list.len() && columns(c).contains(#[trigger] list[i])
}

/// Some conjuncts in three parts, none lost and none doubled: what reads the left input only, what
/// reads the right input only, which stays above a LEFT join, and the rest.
pub open spec fn is_split(
    cs: Seq<ExprView>,
    ls: Seq<ExprView>,
    rs: Seq<ExprView>,
    above: Seq<ExprView>,
    left: Seq<Seq<char>>,
    right: Seq<Seq<char>>,
    join_type: JoinType,
) -> bool {
    &&& cs.to_multiset() == ls.to_multiset().add(rs.to_multiset()).add(above.to_multiset())
    &&& forall|i: int|
        0 <= i < ls.len() ==> reads_one(#[trigger] ls[i], left) && !reads_one(ls[i], right)
    &&& forall|i: int|
        0 <= i < rs.len() ==> reads_one(#[trigger] rs[i], right) && !reads_one(rs[i], left)
    &&& rs.len() > 0 ==> join_type == JoinType::Inner
    &&& forall|i: int|
        0 <= i < above.len() ==> (reads_one(#[trigger] above[i], left) <==> reads_one(
            above[i],
            right,
        )) || (join_type != JoinType::Inner && !reads_one(above[i], left))
}

/// Two sets share a name if the second has one that the first has.
proof fn lemma_reads_one(c: ExprView, list: Seq<Seq<char>>)
    ensures
        sets_meet(columns(c), list.to_set()) == reads_one(c, list),
{
    if sets_meet(columns(c), list.to_set()) {
        let n = choose|n: Seq<char>|
            #![auto]
            columns(c).contains(n) && list.to_set().contains(n);
        let i = choose|i: int| 0 <= i < list.len() && list[i] == n;
        assert(columns(c).contains(list[i]));
    }
    if reads_one(c, list) {
        let i = choose|i: int| 0 <= i < list.len() && columns(c).contains(#[trigger] list[i]);
        assert(list.to_set().contains(list[i]));
    }
}

/// The conjuncts of the three sides are a split.
proof fn lemma_sides_split(
    cs: Seq<ExprView>,
    left: Seq<Seq<char>>,
    right: Seq<Seq<char>>,
    join_type: JoinType,
)
    ensures
        is_split(
            cs,
            on_side(cs, left.to_set(), right.to_set(), join_type, Side::Left),
            on_side(cs, left.to_set(), right.to_set(), join_type, Side::Right),
            on_side(cs, left.to_set(), right.to_set(), join_type, Side::Above),
            left,
            right,
            join_type,
        ),
    decreases cs.len(),
{
    let l = left.to_set();
    let r = right.to_set();
    let ls = on_side(cs, l, r, join_type, Side::Left);
    let rs = on_side(cs, l, r, join_type, Side::Right);
    let above = on_side(cs, l, r, join_type, Side::Above);
    broadcast use vstd::seq_lib::group_to_multiset_ensures;
    if cs.len() > 0 {
        let init = cs.drop_last();
        let c = cs.last();
        lemma_sides_split(init, left, right, join_type);
        lemma_reads_one(c, left);
        lemma_reads_one(c, right);
        assert(cs =~= init.push(c));
        let l0 = on_side(init, l, r, join_type, Side::Left);
        let r0 = on_side(init, l, r, join_type, Side::Right);
        let a0 = on_side(init, l, r, join_type, Side::Above);
        assert(cs.to_multiset() =~= ls.to_multiset().add(rs.to_multiset()).add(above.to_multiset()));
        assert forall|i: int| 0 <= i < ls.len() implies reads_one(#[trigger] ls[i], left) && !reads_one(
            ls[i],
            right,
        ) by {
            if i < l0.len() {
                assert(ls[i] == l0[i]);
            }
        }
        assert forall|i: int| 0 <= i < rs.len() implies reads_one(#[trigger] rs[i], right)
            && !reads_one(rs[i], left) by {
            if i < r0.len() {
                assert(rs[i] == r0[i]);
            }
        }
        assert forall|i: int| 0 <= i < above.len() implies (reads_one(#[trigger] above[i], left)
            <==> reads_one(above[i], right)) || (join_type != JoinType::Inner && !reads_one(
            above[i],
            left,
        )) by {
            if i < a0.len() {
                assert(above[i] == a0[i]);
            }
        }
    } else {
        assert(cs =~= Seq::empty());
        assert(cs.to_multiset() =~= ls.to_multiset().add(rs.to_multiset()).add(above.to_multiset()));
    }
    assert(is_split(cs, ls, rs, above, left, right, join_type));
}

/// Law: a filter on a join is split: each of its conjuncts that reads one input only goes to that
/// input, and from there further down, and the others stay above.
pub proof fn law_filters_split_at_joins(
    predicate: ExprView,
    left: PlanView,
    right: PlanView,
    on: Seq<(ExprView, ExprView)>,
    join_type: JoinType,
    schema: Seq<FieldView>,
)
    requires
        left.schema().len() <= schema.len(),
    ensures
        ({
            let n = left.schema().len() as int;
            let join = PlanView::Join {
                left: Box::new(left),
                right: Box::new(right),
                on,
                join_type,
                schema,
            };
            exists|ls: Seq<ExprView>, rs: Seq<ExprView>, above: Seq<ExprView>| #[trigger]
                is_split(
                    flatten(predicate),
                    ls,
                    rs,
                    above,
                    names(schema).take(n),
                    names(schema).skip(n),
                    join_type,
                ) && push_down(PlanView::Filter { predicate, input: Box::new(join) }) == filtered(
                    above,
                    PlanView::Join {
                        left: Box::new(push_down(filtered(ls, push_down(left)))),
                        right: Box::new(push_down(filtered(rs, push_down(right)))),
                        on,
                        join_type,
                        schema,
                    },
                )
        }),
{
    let n = left.schema().len() as int;
    let join = PlanView::Join {
        left: Box::new(left),
        right: Box::new(right),
        on,
        join_type,
        schema,
    };
    lemma_push_down_keeps(left);
    lemma_push_down_keeps(join);
    let below = push_down(join);
    assert(below == (PlanView::Join {
        left: Box::new(push_down(left)),
        right: Box::new(push_down(right)),
        on,
        join_type,
        schema,
    }));
    let cs = flatten(predicate);
    let l = names(schema).take(n);
    let r = names(schema).skip(n);
    assert(names(schema).subrange(0, n) =~= l);
    assert(names(schema).subrange(n, schema.len() as int) =~= r);
    lemma_sides_split(cs, l, r, join_type);
    assert(push_down(PlanView::Filter { predicate, input: Box::new(join) }) == push_filter(
        predicate,
        below,
    ));
}

/// The plan `q` stands in the plan `p`.
pub open spec fn stands_in(q: PlanView, p: PlanView) -> bool
    decreases p,
{
    q == p || match p {
        PlanView::Filter { input, .. } => stands_in(q, *input),
        PlanView::Projection { input, .. } => stands_in(q, *input),
        PlanView::Aggregate { input, .. } => stands_in(q, *input),
        PlanView::Sort { input, .. } => stands_in(q, *input),
        PlanView::Join { left, right, .. } => stands_in(q, *left) || stands_in(q, *right),
        PlanView::Limit { input, .. } => stands_in(q, *input),
        _ => false,
    }
}

/// The request asks for what the scan reads.
pub open spec fn asks_for(r: RequestView, p: PlanView) -> bool {
    p matches PlanView::Scan { table, schema, projection } && r.table == table && r.full == schema
        && r.projection == projection
}

/// Law: the file of a scan with a filter right above it is asked with the filter's predicate.
pub proof fn law_filters_reach_their_files(predicate: ExprView, scan: PlanView, p: PlanView)
    requires
        scan is Scan,
        stands_in(PlanView::Filter { predicate, input: Box::new(scan) }, p),
    ensures
        exists|i: int|
            0 <= i < requests(p).len() && asks_for(#[trigger] requests(p)[i], scan) && requests(
                p,
            )[i].predicate == Some(predicate),
    decreases p,
{
    let q = PlanView::Filter { predicate, input: Box::new(scan) };
    if q == p {
        assert(requests(p) == request_of(scan, Some(predicate)));
        assert(asks_for(requests(p)[0], scan));
        assert(requests(p)[0].predicate == Some(predicate));
    } else {
        match p {
            PlanView::Filter { input, .. } => {
                if *input is Scan {
                    assert(stands_in(q, *input));
                    assert(false);
                }
                law_filters_reach_their_files(predicate, scan, *input);
            },
            PlanView::Projection { input, .. } => {
                law_filters_reach_their_files(predicate, scan, *input);
            },
            PlanView::Aggregate { input, .. } => {
                law_filters_reach_their_files(predicate, scan, *input);
            },
            PlanView::Sort { input, .. } => {
                law_filters_reach_their_files(predicate, scan, *input);
            },
            PlanView::Join { left, right, .. } => {
                let a = requests(*left);
                let b = requests(*right);
                if stands_in(q, *left) {
                    law_filters_reach_their_files(predicate, scan, *left);
                    let i = choose|i: int|
                        0 <= i < a.len() && asks_for(#[trigger] a[i], scan) && a[i].predicate == Some(
                            predicate,
                        );
                    assert(requests(p)[i] == a[i]);
                } else {
                    law_filters_reach_their_files(predicate, scan, *right);
                    let i = choose|i: int|
                        0 <= i < b.len() && asks_for(#[trigger] b[i], scan) && b[i].predicate == Some(
                            predicate,
                        );
                    assert(requests(p)[a.len() + i] == b[i]);
                }
            },
            PlanView::Limit { input, .. } => {
                law_filters_reach_their_files(predicate, scan, *input);
            },
            _ => {},
        }
    }
}

/// The request is that of a scan of the plan, and its predicate that of the filter right above it.
pub open spec fn comes_from(r: RequestView, scan: PlanView, p: PlanView) -> bool {
    &&& stands_in(scan, p)
    &&& asks_for(r, scan)
    &&& match r.predicate {
        Some(predicate) => stands_in(PlanView::Filter { predicate, input: Box::new(scan) }, p),
        None => true,
    }
}

/// Law: what a file is asked comes from a scan of the plan, and a predicate from the filter right
/// above that scan.
pub proof fn law_requests_come_from_scans(p: PlanView, i: int)
    requires
        0 <= i < requests(p).len(),
    ensures
        exists|scan: PlanView| #[trigger] comes_from(requests(p)[i], scan, p),
    decreases p, 0nat,
{
    let r = requests(p)[i];
    match p {
        PlanView::Scan { .. } => {
            assert(requests(p) == request_of(p, None));
            assert(comes_from(r, p, p));
        },
        PlanView::Filter { input, .. } => {
            if *input is Scan {
                assert(stands_in(*input, *input));
                assert(stands_in(p, p));
                assert(comes_from(r, *input, p));
            } else {
                lemma_comes_from(*input, p, i, r);
            }
        },
        PlanView::Projection { input, .. } => { lemma_comes_from(*input, p, i, r); },
        PlanView::Aggregate { input, .. } => { lemma_comes_from(*input, p, i, r); },
        PlanView::Sort { input, .. } => { lemma_comes_from(*input, p, i, r); },
        PlanView::Join { left, right, .. } => {
            let n = requests(*left).len();
            if i < n {
                lemma_comes_from(*left, p, i, r);
            } else {
                lemma_comes_from(*right, p, i - n, r);
            }
        },
        PlanView::Limit { input, .. } => { lemma_comes_from(*input, p, i, r); },
        PlanView::Empty { .. } => {},
    }
}

/// What is asked for an input is asked for the plan.
proof fn lemma_comes_from(q: PlanView, p: PlanView, i: int, r: RequestView)
    requires
        0 <= i < requests(q).len(),
        r == requests(q)[i],
        forall|x: PlanView| stands_in(x, q) ==> #[trigger] stands_in(x, p),
        decreases_to!(p => q),
    ensures
        exists|scan: PlanView| #[trigger] comes_from(r, scan, p),
    decreases q, 1nat,
{
    law_requests_come_from_scans(q, i);
    let scan = choose|scan: PlanView| #[trigger] comes_from(requests(q)[i], scan, q);
    assert(comes_from(r, scan, p));
}

/// Law: a scan delivers the fields that it reads, in the order in which it names them.
pub proof fn law_scans_deliver_what_they_read(schema: Seq<FieldView>, idxs: Seq<usize>)
    requires
        forall|k: int| 0 <= k < idxs.len() ==> #[trigger] idxs[k] < schema.len(),
    ensures
        scan_fields(schema, None) == schema,
        scan_fields(schema, Some(idxs)).len() == idxs.len(),
        forall|k: int|
            0 <= k < idxs.len() ==> scan_fields(schema, Some(idxs))[k] == schema[#[trigger] idxs[k] as int],
    decreases idxs.len(),
{
    if idxs.len() > 0 {
        let init = idxs.drop_last();
        assert forall|k: int| 0 <= k < init.len() implies #[trigger] init[k] < schema.len() by {
            assert(idxs[k] == init[k]);
        }
        law_scans_deliver_what_they_read(schema, init);
        assert(idxs[idxs.len() - 1] < schema.len());
        assert forall|k: int| 0 <= k < idxs.len() implies scan_fields(schema, Some(idxs))[k] == schema[
        #[trigger] idxs[k] as int] by {
            if k < init.len() {
                assert(init[k] == idxs[k]);
            }
        }
    }
}

/// Folding a plan leaves its scans as they read.
proof fn lemma_fold_reads(p: PlanView, keys: Set<Seq<char>>)
    requires
        reads_only(p, keys),
    ensures
        reads_only(fold_down(p), keys),
    decreases p,
{
    match p {
        PlanView::Filter { input, .. } => { lemma_fold_reads(*input, keys); },
        PlanView::Projection { input, .. } => { lemma_fold_reads(*input, keys); },
        PlanView::Aggregate { input, .. } => { lemma_fold_reads(*input, keys); },
        PlanView::Sort { input, .. } => { lemma_fold_reads(*input, keys); },
        PlanView::Join { left, right, .. } => {
            lemma_fold_reads(*left, keys);
            lemma_fold_reads(*right, keys);
        },
        PlanView::Limit { input, .. } => { lemma_fold_reads(*input, keys); },
        _ => {},
    }
}

/// Pushing filters down leaves the scans of a plan.
proof fn lemma_push_down_small(p: PlanView)
    requires
        scans_small(p),
    ensures
        scans_small(push_down(p)),
    decreases joins(p), nodes(p),
{
    match p {
        PlanView::Filter { predicate, input } => {
            lemma_push_down_small(*input);
            lemma_push_down_keeps(*input);
            lemma_push_filter_small(predicate, push_down(*input));
        },
        PlanView::Projection { input, .. } => { lemma_push_down_small(*input); },
        PlanView::Aggregate { input, .. } => { lemma_push_down_small(*input); },
        PlanView::Sort { input, .. } => { lemma_push_down_small(*input); },
        PlanView::Join { left, right, .. } => {
            lemma_push_down_small(*left);
            lemma_push_down_small(*right);
        },
        PlanView::Limit { input, .. } => { lemma_push_down_small(*input); },
        _ => {},
    }
}

proof fn lemma_push_filter_small(predicate: ExprView, input: PlanView)
    requires
        scans_small(input),
    ensures
        scans_small(push_filter(predicate, input)),
    decreases joins(input), 0nat,
{
    reveal_with_fuel(scans_small, 3);
    reveal_with_fuel(joins, 3);
    match input {
        PlanView::Join { left, right, join_type, schema, .. } => {
            let l = names_before(schema, left.schema().len());
            let r = names_after(schema, left.schema().len());
            let cs = flatten(predicate);
            lemma_push_down_small(filtered(on_side(cs, l, r, join_type, Side::Left), *left));
            lemma_push_down_small(filtered(on_side(cs, l, r, join_type, Side::Right), *right));
        },
        _ => {},
    }
}

/// Law: an optimized plan has nothing left to fold, no filter that always or never holds, and scans
/// that read what the result or an expression of the plan with its filters pushed down uses.
pub proof fn law_optimized_plans_do_no_more(p: PlanView)
    requires
        scans_small(p),
    ensures
        plan_is_folded(optimized(p)),
        filters_vary(optimized(p)),
        reads_only(
            optimized(p),
            names(p.schema()).to_set().union(used_in(push_down(p))),
        ),
{
    let pushed = push_down(p);
    lemma_push_down_keeps(p);
    lemma_push_down_small(p);
    law_scans_read_what_is_used(pushed);
    lemma_fold_reads(pruned(pushed), names(p.schema()).to_set().union(used_in(pushed)));
    law_plans_are_folded(pruned(pushed));
    law_folding_leaves_no_constant_filter(pruned(pushed));
}

/// Law: the filter of a query on one table is handed to the file of the table, as it reads below the
/// projection, unless it folds to a constant.
pub proof fn law_filters_of_queries_reach_the_file(
    predicate: ExprView,
    exprs: Seq<ExprView>,
    schema: Seq<FieldView>,
    table: Seq<char>,
    full: Seq<FieldView>,
    q: ExprView,
)
    requires
        exprs.len() <= schema.len(),
        ({
            let scan = PlanView::Scan { table, schema: full, projection: None };
            let below = PlanView::Filter { predicate: q, input: Box::new(scan) };
            push_down(
                PlanView::Filter {
                    predicate,
                    input: Box::new(
                        PlanView::Projection { exprs, schema, input: Box::new(scan) },
                    ),
                },
            ) == (PlanView::Projection { exprs, schema, input: Box::new(below) })
        }),
        !(fold(q) matches ExprView::Literal(ScalarView::Boolean(_))),
    ensures
        ({
            let scan = PlanView::Scan { table, schema: full, projection: None };
            let asked = requests(
                optimized(
                    PlanView::Filter {
                        predicate,
                        input: Box::new(
                            PlanView::Projection { exprs, schema, input: Box::new(scan) },
                        ),
                    },
                ),
            );
            asked.len() == 1 && asked[0].table == table && asked[0].predicate == Some(fold(q))
        }),
{
    reveal_with_fuel(prune, 4);
    reveal_with_fuel(fold_down, 4);
    reveal_with_fuel(requests, 4);
}

} // verus!
