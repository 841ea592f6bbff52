//! What holds of every planned query, and of the optimizer's rules by themselves.

use vstd::prelude::*;
use crate::optimizer::columns::{columns, columns_of_all};
use crate::optimizer::constant_folding::{fold, fold_all, fold_down, fold_pairs, fold_sorts};
use crate::optimizer::predicate_pushdown::{conjunction, flatten};
use crate::optimizer::projection_pruning::kept;
use crate::planner::logical_plan::{BinaryOp, ExprView, PlanView};
use crate::planner::query::merged_fields;
use crate::executor::physical::scans;
use crate::executor::scan::{ascending, requests};
use crate::types::{names, FieldView, ScalarView};

verus! {

/// Law: a join has a field for each field of its inputs, in their order and of their types, and no
/// two fields of one name where the left input has none.
pub proof fn law_join_names_are_distinct(left: Seq<FieldView>, right: Seq<FieldView>)
    ensures
        merged_fields(left, right) matches Ok(all) ==> {
            &&& all.len() == left.len() + right.len()
            &&& all.take(left.len() as int) == left
            &&& forall|i: int|
                0 <= i < right.len() ==> (#[trigger] right[i]).data_type == all[left.len()
                    + i].data_type
            &&& names(left).no_duplicates() ==> names(all).no_duplicates()
        },
    decreases right.len(),
{
    if right.len() == 0 {
        assert(left.take(left.len() as int) =~= left);
    } else {
        let f = right[0];
        let name = if names(left).contains(f.name) { f.name + "_dup"@ } else { f.name };
        let next = left.push(FieldView { name, data_type: f.data_type });
        assert(left.push(f) == left.push(FieldView { name: f.name, data_type: f.data_type }));
        law_join_names_are_distinct(next, right.skip(1));
        match merged_fields(left, right) {
            Ok(all) => {
                assert(all == merged_fields(next, right.skip(1))->Ok_0);
                assert(all.take(left.len() as int) =~= left) by {
                    assert forall|i: int| 0 <= i < left.len() implies all[i] == left[i] by {
                        assert(all.take(next.len() as int)[i] == next[i]);
                    }
                }
                assert forall|i: int| 0 <= i < right.len() implies (
                #[trigger] right[i]).data_type == all[left.len() + i].data_type by {
                    if i == 0 {
                        assert(all.take(next.len() as int)[left.len() as int]
                            == next[left.len() as int]);
                    } else {
                        assert(right.skip(1)[i - 1] == right[i]);
                    }
                }
                if names(left).no_duplicates() {
                    let ns = names(next);
                    assert forall|i: int, j: int|
                        0 <= i < ns.len() && 0 <= j < ns.len() && i != j implies ns[i] != ns[j] by {
                        if i < left.len() && j < left.len() {
                            assert(names(left)[i] != names(left)[j]);
                        } else if i < left.len() {
                            assert(names(left)[i] == ns[i]);
                            assert(names(left).contains(ns[i]));
                        } else {
                            assert(names(left)[j] == ns[j]);
                            assert(names(left).contains(ns[j]));
                        }
                    }
                }
            },
            Err(_) => {},
        }
    }
}

/// Law: a column of the right input keeps its name in a join, unless a column before it has that
/// name; then it is marked as a duplicate. With the mark taken too, the join is refused.
pub proof fn law_taken_names_are_marked(left: Seq<FieldView>, right: Seq<FieldView>)
    ensures
        match merged_fields(left, right) {
            Ok(all) => forall|i: int|
                0 <= i < right.len() ==> {
                    let n = left.len() + i;
                    let taken = names(all).take(n).contains((#[trigger] right[i]).name);
                    all[n].name == if taken {
                        right[i].name + seq!['_', 'd', 'u', 'p']
                    } else {
                        right[i].name
                    }
                },
            Err(_) => exists|i: int|
                0 <= i < right.len() && is_marked_twice(left, right, #[trigger] right[i].name),
        },
    decreases right.len(),
{
    reveal_strlit("_dup");
    assert("_dup"@ =~= seq!['_', 'd', 'u', 'p']);
    if right.len() > 0 {
        let f = right[0];
        let rest = right.skip(1);
        let name = if names(left).contains(f.name) { f.name + "_dup"@ } else { f.name };
        let next = left.push(FieldView { name, data_type: f.data_type });
        assert(left.push(f) == left.push(FieldView { name: f.name, data_type: f.data_type }));
        law_taken_names_are_marked(next, rest);
        law_join_names_are_distinct(next, rest);
        match merged_fields(left, right) {
            Ok(all) => {
                assert(all == merged_fields(next, rest)->Ok_0);
                assert forall|i: int| 0 <= i < right.len() implies ({
                    let n = left.len() + i;
                    let taken = names(all).take(n).contains((#[trigger] right[i]).name);
                    all[n].name == if taken {
                        right[i].name + seq!['_', 'd', 'u', 'p']
                    } else {
                        right[i].name
                    }
                }) by {
                    if i == 0 {
                        assert(all.take(next.len() as int)[left.len() as int] == next[left.len() as int]);
                        assert(names(all).take(left.len() as int) =~= names(left)) by {
                            assert forall|k: int| 0 <= k < left.len() implies names(all)[k] == names(
                                left,
                            )[k] by {
                                assert(all.take(next.len() as int)[k] == next[k]);
                            }
                        }
                    } else {
                        assert(rest[i - 1] == right[i]);
                        assert(next.len() + (i - 1) == left.len() + i);
                    }
                }
            },
            Err(_) => {
                if names(left).contains(f.name) && names(left).contains(f.name + "_dup"@) {
                    assert(is_marked_twice(left, right, right[0].name)) by {
                        let all = names(left) + names(right) + marked(names(right));
                        let a = choose|a: int| 0 <= a < left.len() && names(left)[a] == f.name;
                        assert(all[a] == f.name);
                        let b = choose|b: int|
                            0 <= b < left.len() && names(left)[b] == f.name + "_dup"@;
                        assert(all[b] == f.name + "_dup"@);
                    }
                } else {
                    let i = choose|i: int|
                        0 <= i < rest.len() && is_marked_twice(next, rest, #[trigger] rest[i].name);
                    assert(right[i + 1] == rest[i]);
                    assert(is_marked_twice(left, right, right[i + 1].name)) by {
                        lemma_marked_twice(left, right, rest[i].name, name);
                    }
                }
            },
        }
    }
}

/// The names, each marked as a duplicate.
pub open spec fn marked(list: Seq<Seq<char>>) -> Seq<Seq<char>> {
    Seq::new(list.len(), |i: int| list[i] + seq!['_', 'd', 'u', 'p'])
}

/// The name and its mark are both among the names of the inputs of a join and the marks of the right
/// input's names.
pub open spec fn is_marked_twice(
    left: Seq<FieldView>,
    right: Seq<FieldView>,
    name: Seq<char>,
) -> bool {
    let all = names(left) + names(right) + marked(names(right));
    all.contains(name) && all.contains(name + seq!['_', 'd', 'u', 'p'])
}

/// A name of the right input, or its mark, moved to the left input leaves the names as they are.
proof fn lemma_marked_twice(
    left: Seq<FieldView>,
    right: Seq<FieldView>,
    name: Seq<char>,
    first: Seq<char>,
)
    requires
        right.len() > 0,
        first == right[0].name || first == right[0].name + seq!['_', 'd', 'u', 'p'],
        is_marked_twice(
            left.push(FieldView { name: first, data_type: right[0].data_type }),
            right.skip(1),
            name,
        ),
    ensures
        is_marked_twice(left, right, name),
{
    let next = left.push(FieldView { name: first, data_type: right[0].data_type });
    let rest = right.skip(1);
    let some = names(next) + names(rest) + marked(names(rest));
    let all = names(left) + names(right) + marked(names(right));
    assert forall|x: Seq<char>| some.contains(x) implies all.contains(x) by {
        let k = choose|k: int| 0 <= k < some.len() && some[k] == x;
        let n = left.len() as int;
        let m = right.len() as int;
        if k < n {
            assert(all[k] == x);
        } else if k == n {
            assert(all[n] == right[0].name);
            assert(all[n + m] == right[0].name + seq!['_', 'd', 'u', 'p']);
        } else if k < n + m {
            assert(some[k] == rest[k - n - 1].name);
            assert(all[k] == x);
        } else {
            assert(some[k] == rest[k - n - m].name + seq!['_', 'd', 'u', 'p']);
            assert(all[k + 1] == x);
        }
    }
}

/// Law: a plan asks for a file once for each of its scans.
pub proof fn law_requests_match_scans(p: PlanView)
    ensures
        requests(p).len() == scans(p),
    decreases p,
{
    match p {
        PlanView::Filter { input, .. } => { law_requests_match_scans(*input); },
        PlanView::Projection { input, .. } => { law_requests_match_scans(*input); },
        PlanView::Aggregate { input, .. } => { law_requests_match_scans(*input); },
        PlanView::Sort { input, .. } => { law_requests_match_scans(*input); },
        PlanView::Join { left, right, .. } => {
            law_requests_match_scans(*left);
            law_requests_match_scans(*right);
        },
        PlanView::Limit { input, .. } => { law_requests_match_scans(*input); },
        _ => {},
    }
}

/// Law: folding an expression twice is folding it once.
pub proof fn law_fold_twice(e: ExprView)
    ensures
        fold(fold(e)) == fold(e),
    decreases e,
{
    match e {
        ExprView::Binary { left, op, right } => {
            law_fold_twice(*left);
            law_fold_twice(*right);
        },
        ExprView::Aggregate { arg, .. } => { law_fold_twice(*arg); },
        ExprView::Alias { expr, .. } => { law_fold_twice(*expr); },
        _ => {},
    }
}

proof fn lemma_fold_all_twice(es: Seq<ExprView>)
    ensures
        fold_all(fold_all(es)) == fold_all(es),
{
    assert forall|i: int| 0 <= i < es.len() implies fold(fold(es[i])) == fold(es[i]) by {
        law_fold_twice(es[i]);
    }
    assert(fold_all(fold_all(es)) =~= fold_all(es));
}

/// Law: folding a plan twice is folding it once.
pub proof fn law_fold_plan_twice(p: PlanView)
    ensures
        fold_down(fold_down(p)) == fold_down(p),
    decreases p,
{
    match p {
        PlanView::Filter { predicate, input } => {
            law_fold_plan_twice(*input);
            law_fold_twice(predicate);
        },
        PlanView::Projection { exprs, input, .. } => {
            law_fold_plan_twice(*input);
            lemma_fold_all_twice(exprs);
        },
        PlanView::Aggregate { group_by, aggr_exprs, input, .. } => {
            law_fold_plan_twice(*input);
            lemma_fold_all_twice(group_by);
            lemma_fold_all_twice(aggr_exprs);
        },
        PlanView::Sort { exprs, input } => {
            law_fold_plan_twice(*input);
            assert forall|i: int| 0 <= i < exprs.len() implies fold(fold(exprs[i].expr)) == fold(
                exprs[i].expr,
            ) by {
                law_fold_twice(exprs[i].expr);
            }
            assert(fold_sorts(fold_sorts(exprs)) =~= fold_sorts(exprs));
        },
        PlanView::Join { left, right, on, .. } => {
            law_fold_plan_twice(*left);
            law_fold_plan_twice(*right);
            assert forall|i: int| 0 <= i < on.len() implies fold(fold(on[i].0)) == fold(on[i].0)
                && fold(fold(on[i].1)) == fold(on[i].1) by {
                law_fold_twice(on[i].0);
                law_fold_twice(on[i].1);
            }
            assert(fold_pairs(fold_pairs(on)) =~= fold_pairs(on));
        },
        PlanView::Limit { input, .. } => { law_fold_plan_twice(*input); },
        _ => {},
    }
}

/// Law: folding constants keeps the schema of a plan.
pub proof fn law_folding_keeps_schema(p: PlanView)
    ensures
        fold_down(p).schema() == p.schema(),
    decreases p,
{
    match p {
        PlanView::Filter { input, .. } => { law_folding_keeps_schema(*input); },
        PlanView::Sort { input, .. } => { law_folding_keeps_schema(*input); },
        PlanView::Limit { input, .. } => { law_folding_keeps_schema(*input); },
        _ => {},
    }
}

/// No filter of the plan has TRUE or FALSE for a predicate.
pub open spec fn filters_vary(p: PlanView) -> bool
    decreases p,
{
    match p {
        PlanView::Filter { predicate, input } => {
            &&& !(predicate matches ExprView::Literal(ScalarView::Boolean(_)))
            &&& filters_vary(*input)
        },
        PlanView::Projection { input, .. } => filters_vary(*input),
        PlanView::Aggregate { input, .. } => filters_vary(*input),
        PlanView::Sort { input, .. } => filters_vary(*input),
        PlanView::Join { left, right, .. } => filters_vary(*left) && filters_vary(*right),
        PlanView::Limit { input, .. } => filters_vary(*input),
        _ => true,
    }
}

/// Law: folding constants leaves no filter that always or never holds.
pub proof fn law_folding_leaves_no_constant_filter(p: PlanView)
    ensures
        filters_vary(fold_down(p)),
    decreases p,
{
    match p {
        PlanView::Filter { input, .. } => { law_folding_leaves_no_constant_filter(*input); },
        PlanView::Projection { input, .. } => { law_folding_leaves_no_constant_filter(*input); },
        PlanView::Aggregate { input, .. } => { law_folding_leaves_no_constant_filter(*input); },
        PlanView::Sort { input, .. } => { law_folding_leaves_no_constant_filter(*input); },
        PlanView::Join { left, right, .. } => {
            law_folding_leaves_no_constant_filter(*left);
            law_folding_leaves_no_constant_filter(*right);
        },
        PlanView::Limit { input, .. } => { law_folding_leaves_no_constant_filter(*input); },
        _ => {},
    }
}

/// Law: the conjuncts of an expression read together what it reads.
pub proof fn law_flatten_reads_all(e: ExprView)
    ensures
        columns_of_all(flatten(e)) == columns(e),
    decreases e,
{
    match e {
        ExprView::Binary { left, op: BinaryOp::And, right } => {
            law_flatten_reads_all(*left);
            law_flatten_reads_all(*right);
            lemma_columns_concat(flatten(*left), flatten(*right));
        },
        _ => {
            let one = flatten(e);
            assert(one =~= seq![e]);
            assert(one.drop_last() =~= Seq::empty());
            assert(one.last() == e);
            assert(columns_of_all(one.drop_last()) =~= Set::empty());
            assert(columns_of_all(one) =~= columns(e));
        },
    }
}

proof fn lemma_columns_concat(a: Seq<ExprView>, b: Seq<ExprView>)
    ensures
        columns_of_all(a + b) == columns_of_all(a).union(columns_of_all(b)),
    decreases b.len(),
{
    if b.len() == 0 {
        assert(a + b =~= a);
        assert(columns_of_all(a) =~= columns_of_all(a).union(columns_of_all(b)));
    } else {
        lemma_columns_concat(a, b.drop_last());
        assert((a + b).drop_last() =~= a + b.drop_last());
        assert((a + b).last() == b.last());
        assert(columns_of_all(a + b) =~= columns_of_all(a).union(columns_of_all(b)));
    }
}

/// Law: the conjuncts of a conjunction are those that it was made of, if none of them is itself a
/// conjunction.
pub proof fn law_flatten_conjunction(es: Seq<ExprView>)
    requires
        es.len() > 0,
        forall|i: int|
            0 <= i < es.len() ==> !((#[trigger] es[i]) matches ExprView::Binary {
                op: BinaryOp::And,
                ..
            }),
    ensures
        flatten(conjunction(es)) == es,
    decreases es.len(),
{
    assert(!(es[es.len() - 1] matches ExprView::Binary { op: BinaryOp::And, .. }));
    if es.len() == 1 {
        assert(flatten(es[0]) =~= es);
    } else {
        let rest = es.drop_last();
        assert forall|i: int| 0 <= i < rest.len() implies !((#[trigger] rest[i]) matches ExprView::Binary {
            op: BinaryOp::And,
            ..
        }) by {
            assert(rest[i] == es[i]);
        }
        law_flatten_conjunction(rest);
        assert(flatten(es.last()) =~= seq![es.last()]);
        assert(flatten(conjunction(es)) == flatten(conjunction(rest)) + flatten(es.last()));
        assert(rest + seq![es.last()] =~= es);
    }
}

/// Law: a pruned scan reads, in order and each once, the columns whose names are needed.
pub proof fn law_kept_columns(list: Seq<Seq<char>>, needs: Set<Seq<char>>)
    requires
        list.len() <= usize::MAX,
    ensures
        ascending(kept(list, needs)),
        forall|i: int| 0 <= i < kept(list, needs).len() ==> #[trigger] kept(list, needs)[i] < list.len(),
        forall|i: int|
            0 <= i < list.len() ==> kept(list, needs).contains(i as usize) == needs.contains(
                #[trigger] list[i],
            ),
    decreases list.len(),
{
    if list.len() > 0 {
        let init = list.drop_last();
        law_kept_columns(init, needs);
        let a = kept(init, needs);
        let b = kept(list, needs);
        let n = list.len() - 1;
        assert forall|i: int| 0 <= i < list.len() implies b.contains(i as usize) == needs.contains(
            #[trigger] list[i],
        ) by {
            if i < n {
                assert(init[i] == list[i]);
                if a.contains(i as usize) {
                    let k = choose|k: int| 0 <= k < a.len() && a[k] == i as usize;
                    assert(b[k] == i as usize);
                }
                if b.contains(i as usize) {
                    let k = choose|k: int| 0 <= k < b.len() && b[k] == i as usize;
                    if k < a.len() {
                        assert(a[k] == i as usize);
                    }
                }
            } else {
                if needs.contains(list[i]) {
                    assert(b[a.len() as int] == n as usize);
                } else if b.contains(i as usize) {
                    let k = choose|k: int| 0 <= k < b.len() && b[k] == i as usize;
                    assert(a[k] < init.len());
                }
            }
        }
    }
}

} // verus!
