//! Prune scan columns and drop unnecessary projections.

use vstd::prelude::*;
use crate::error::ArborError;
use crate::optimizer::columns::{collect_columns, columns, columns_of_all, ColumnSet};
use crate::optimizer::OptimizerRule;
use crate::planner::logical_plan::{
    column_key, key_of, Expr, ExprView, LogicalPlan, PlanView, SortExpr, SortView,
};
use crate::text::{ends, ends_with, join2};
use crate::types::{lemma_position, names, position, views, Field, FieldView, Schema};

verus! {

/// The indices of the names that are needed, ascending.
pub open spec fn kept(list: Seq<Seq<char>>, needs: Set<Seq<char>>) -> Seq<usize>
    decreases list.len(),
{
    if list.len() == 0 {
        Seq::empty()
    } else {
        let rest = kept(list.drop_last(), needs);
        if needs.contains(list.last()) {
            rest.push((list.len() - 1) as usize)
        } else {
            rest
        }
    }
}

/// The key is the name with a qualifier before it.
pub open spec fn qualifies(key: Seq<char>, name: Seq<char>) -> bool {
    ends(key, "."@ + name)
}

/// The needs, and the bare names that qualified needs are answered by: those of needs that no name
/// of the list is equal to.
pub open spec fn wanted(list: Seq<Seq<char>>, needs: Set<Seq<char>>) -> Set<Seq<char>> {
    needs.union(
        Set::new(
            |n: Seq<char>|
                list.contains(n) && exists|k: Seq<char>| #[trigger]
                    needs.contains(k) && !list.contains(k) && qualifies(k, n),
        ),
    )
}

/// The projection of a scan that has to deliver the needed columns only.
pub open spec fn scan_projection(list: Seq<Seq<char>>, needs: Set<Seq<char>>) -> Option<
    Seq<usize>,
> {
    let idxs = kept(list, wanted(list, needs));
    if idxs.len() == list.len() && list.len() > 0 { None } else { Some(idxs) }
}

/// The expressions of sort keys.
pub open spec fn sort_exprs(es: Seq<SortView>) -> Seq<ExprView> {
    Seq::new(es.len(), |i: int| es[i].expr)
}

/// The left keys of a join.
pub open spec fn left_keys(on: Seq<(ExprView, ExprView)>) -> Seq<ExprView> {
    Seq::new(on.len(), |i: int| on[i].0)
}

/// The right keys of a join.
pub open spec fn right_keys(on: Seq<(ExprView, ExprView)>) -> Seq<ExprView> {
    Seq::new(on.len(), |i: int| on[i].1)
}

/// What a join needs of its left input.
pub open spec fn left_needs(on: Seq<(ExprView, ExprView)>, needs: Set<Seq<char>>) -> Set<
    Seq<char>,
> {
    needs.union(columns_of_all(left_keys(on)))
}

/// What a join needs of its right input.
pub open spec fn right_needs(on: Seq<(ExprView, ExprView)>, needs: Set<Seq<char>>) -> Set<
    Seq<char>,
> {
    needs.union(columns_of_all(right_keys(on)))
}

/// The expressions are the columns of `input`, one by one and in order, and keep their names.
pub open spec fn is_identity(
    exprs: Seq<ExprView>,
    schema: Seq<FieldView>,
    input: Seq<FieldView>,
) -> bool {
    &&& names(schema) == names(input)
    &&& exprs.len() == input.len()
    &&& forall|i: int|
        0 <= i < exprs.len() ==> match #[trigger] exprs[i] {
            ExprView::Column { name, relation } => position(names(input), key_of(name, relation))
                == Some(i),
            _ => false,
        }
}

/// The plan with scans cut down to what is needed and identity projections removed.
pub open spec fn prune(p: PlanView, needs: Set<Seq<char>>) -> PlanView
    decreases p,
{
    match p {
        PlanView::Scan { table, schema, .. } => PlanView::Scan {
            table,
            schema,
            projection: scan_projection(names(schema), needs),
        },
        PlanView::Projection { exprs, schema, input } => {
            let below = prune(*input, columns_of_all(exprs));
            if is_identity(exprs, schema, below.schema()) {
                below
            } else {
                PlanView::Projection { exprs, schema, input: Box::new(below) }
            }
        },
        PlanView::Filter { predicate, input } => PlanView::Filter {
            predicate,
            input: Box::new(prune(*input, needs.union(columns(predicate)))),
        },
        PlanView::Aggregate { group_by, aggr_exprs, schema, input } => PlanView::Aggregate {
            group_by,
            aggr_exprs,
            schema,
            input: Box::new(
                prune(*input, columns_of_all(group_by).union(columns_of_all(aggr_exprs))),
            ),
        },
        PlanView::Sort { exprs, input } => PlanView::Sort {
            exprs,
            input: Box::new(prune(*input, needs.union(columns_of_all(sort_exprs(exprs))))),
        },
        PlanView::Join { left, right, on, join_type, .. } => {
            let new_left = prune(*left, left_needs(on, needs));
            let new_right = prune(*right, right_needs(on, needs));
            PlanView::Join {
                left: Box::new(new_left),
                right: Box::new(new_right),
                on,
                join_type,
                schema: new_left.schema() + new_right.schema(),
            }
        },
        PlanView::Limit { n, input } => PlanView::Limit { n, input: Box::new(prune(*input, needs)) },
        PlanView::Empty { schema } => PlanView::Empty { schema },
    }
}

/// The plan pruned to the columns of its own schema.
pub open spec fn pruned(p: PlanView) -> PlanView {
    prune(p, names(p.schema()).to_set())
}

/// Pushes column pruning into scans and removes redundant projections.
pub struct ProjectionPruning;

impl OptimizerRule for ProjectionPruning {
    open spec fn rewrites(&self, plan: PlanView, out: PlanView) -> bool {
        out == pruned(plan)
    }

    fn name(&self) -> (r: &str)
        ensures
            r@ == "projection_pruning"@,
    {
        "projection_pruning"
    }

    fn optimize(&self, plan: LogicalPlan) -> (r: Result<LogicalPlan, ArborError>)
        ensures
            r is Ok,
    {
        let needed = field_names(plan.schema());
        Ok(prune_rec(plan, &needed))
    }
}

/// The names of the fields of `schema`.
pub fn field_names(schema: &Schema) -> (r: ColumnSet)
    ensures
        r@ == names(schema@).to_set(),
{
    let r = ColumnSet::of_fields(schema, 0, schema.fields.len());
    proof {
        assert(names(schema@).subrange(0, schema.fields.len() as int) =~= names(schema@));
    }
    r
}

/// Adds the columns that some of the expressions read.
fn add_columns(needs: &mut ColumnSet, es: &Vec<Expr>)
    ensures
        final(needs)@ == old(needs)@.union(columns_of_all(views(es@))),
{
    let ghost before = needs@;
    let ghost all = views(es@);
    let mut i: usize = 0;
    proof {
        assert(all.take(0) =~= Seq::empty());
        assert(before =~= before.union(Set::empty()));
    }
    while i < es.len()
        invariant
            i <= es.len(),
            all == views(es@),
            needs@ == before.union(columns_of_all(all.take(i as int))),
        decreases es.len() - i,
    {
        proof {
            let t = all.take(i + 1);
            assert(t.drop_last() =~= all.take(i as int));
            assert(t.last() == es[i as int]@);
            assert(before.union(columns_of_all(all.take(i as int))).union(columns(t.last()))
                =~= before.union(columns_of_all(t)));
        }
        needs.extend(&collect_columns(&es[i]));
        i = i + 1;
    }
    proof {
        assert(all.take(es.len() as int) =~= all);
    }
}

fn add_sort_columns(needs: &mut ColumnSet, es: &Vec<SortExpr>)
    ensures
        final(needs)@ == old(needs)@.union(columns_of_all(sort_exprs(views(es@)))),
{
    let ghost before = needs@;
    let ghost all = sort_exprs(views(es@));
    let mut i: usize = 0;
    proof {
        assert(all.take(0) =~= Seq::empty());
        assert(before =~= before.union(Set::empty()));
    }
    while i < es.len()
        invariant
            i <= es.len(),
            all == sort_exprs(views(es@)),
            needs@ == before.union(columns_of_all(all.take(i as int))),
        decreases es.len() - i,
    {
        proof {
            let t = all.take(i + 1);
            assert(t.drop_last() =~= all.take(i as int));
            assert(t.last() == es[i as int].expr@);
            assert(before.union(columns_of_all(all.take(i as int))).union(columns(t.last()))
                =~= before.union(columns_of_all(t)));
        }
        needs.extend(&collect_columns(&es[i].expr));
        i = i + 1;
    }
    proof {
        assert(all.take(es.len() as int) =~= all);
    }
}

/// Adds the columns of the left keys to `left`, those of the right keys to `right`.
fn add_key_columns(left: &mut ColumnSet, right: &mut ColumnSet, on: &Vec<(Expr, Expr)>)
    ensures
        final(left)@ == old(left)@.union(columns_of_all(left_keys(views(on@)))),
        final(right)@ == old(right)@.union(columns_of_all(right_keys(views(on@)))),
{
    let ghost l0 = left@;
    let ghost r0 = right@;
    let ghost ls = left_keys(views(on@));
    let ghost rs = right_keys(views(on@));
    let mut i: usize = 0;
    proof {
        assert(ls.take(0) =~= Seq::empty());
        assert(rs.take(0) =~= Seq::empty());
        assert(l0 =~= l0.union(Set::empty()));
        assert(r0 =~= r0.union(Set::empty()));
    }
    while i < on.len()
        invariant
            i <= on.len(),
            ls == left_keys(views(on@)),
            rs == right_keys(views(on@)),
            left@ == l0.union(columns_of_all(ls.take(i as int))),
            right@ == r0.union(columns_of_all(rs.take(i as int))),
        decreases on.len() - i,
    {
        proof {
            let t = ls.take(i + 1);
            assert(t.drop_last() =~= ls.take(i as int));
            assert(t.last() == on[i as int].0@);
            assert(l0.union(columns_of_all(ls.take(i as int))).union(columns(t.last()))
                =~= l0.union(columns_of_all(t)));
            let u = rs.take(i + 1);
            assert(u.drop_last() =~= rs.take(i as int));
            assert(u.last() == on[i as int].1@);
            assert(r0.union(columns_of_all(rs.take(i as int))).union(columns(u.last()))
                =~= r0.union(columns_of_all(u)));
        }
        left.extend(&collect_columns(&on[i].0));
        right.extend(&collect_columns(&on[i].1));
        i = i + 1;
    }
    proof {
        assert(ls.take(on.len() as int) =~= ls);
        assert(rs.take(on.len() as int) =~= rs);
    }
}

/// The fields of `left`, then those of `right`.
pub fn merged_schema(left: &Schema, right: &Schema) -> (r: Schema)
    ensures
        r@ == left@ + right@,
{
    let mut fields: Vec<Field> = left.fields.clone();
    let mut i: usize = 0;
    proof {
        assert(fields@ =~= left.fields@ + right.fields@.take(0));
    }
    while i < right.fields.len()
        invariant
            i <= right.fields.len(),
            fields@ == left.fields@ + right.fields@.take(i as int),
        decreases right.fields.len() - i,
    {
        fields.push(right.fields[i].clone());
        i = i + 1;
        proof {
            assert(fields@ =~= left.fields@ + right.fields@.take(i as int));
        }
    }
    let r = Schema { fields };
    proof {
        assert(r@ =~= left@ + right@);
    }
    r
}

/// The needs, and the bare names that qualified needs are answered by.
fn collect_wanted(schema: &Schema, needs: &ColumnSet) -> (r: ColumnSet)
    ensures
        r@ == wanted(names(schema@), needs@),
{
    let ghost list = names(schema@);
    let keys = needs.names();
    let ghost all = views(keys@);
    let mut out = ColumnSet::new();
    out.extend(needs);
    proof {
        assert(out@ =~= needs@);
    }
    let mut i: usize = 0;
    while i < schema.fields.len()
        invariant
            i <= schema.fields.len(),
            list == names(schema@),
            all == views(keys@),
            all.to_set() == needs@,
            forall|n: Seq<char>|
                out@.contains(n) <==> needs@.contains(n) || exists|j: int|
                    0 <= j < i && list[j] == n && #[trigger] answers(list, needs@, j),
        decreases schema.fields.len() - i,
    {
        let dotted = join2(".", schema.fields[i].name.as_str());
        let mut found = false;
        let mut k: usize = 0;
        proof {
            assert(list[i as int] == schema.fields[i as int].name@);
        }
        while k < keys.len()
            invariant
                k <= keys.len(),
                i < schema.fields.len(),
                list == names(schema@),
                all == views(keys@),
                dotted@ == "."@ + list[i as int],
                found == exists|j: int|
                    0 <= j < k && !list.contains(#[trigger] all[j]) && qualifies(
                        all[j],
                        list[i as int],
                    ),
            decreases keys.len() - k,
        {
            let key = keys[k].as_str();
            proof {
                assert(all[k as int] == keys[k as int]@);
            }
            let known = schema.field_by_name(key).is_some();
            proof {
                lemma_position(list, key@);
            }
            if !known && ends_with(key, dotted.as_str()) {
                found = true;
            }
            k = k + 1;
        }
        let ghost before = out@;
        proof {
            assert(found == answers(list, needs@, i as int)) by {
                if found {
                    let j = choose|j: int|
                        0 <= j < k && !list.contains(#[trigger] all[j]) && qualifies(
                            all[j],
                            list[i as int],
                        );
                    assert(all.to_set().contains(all[j]));
                }
                if answers(list, needs@, i as int) {
                    let key = choose|key: Seq<char>| #[trigger]
                        needs@.contains(key) && !list.contains(key) && qualifies(
                            key,
                            list[i as int],
                        );
                    assert(all.to_set().contains(key));
                    let j = choose|j: int| 0 <= j < all.len() && all[j] == key;
                    assert(!list.contains(all[j]) && qualifies(all[j], list[i as int]));
                }
            }
        }
        if found {
            out.insert(schema.fields[i].name.clone());
        }
        proof {
            assert forall|n: Seq<char>|
                out@.contains(n) <==> needs@.contains(n) || exists|j: int|
                    0 <= j < i + 1 && list[j] == n && #[trigger] answers(list, needs@, j) by {
                if out@.contains(n) && !before.contains(n) {
                    assert(list[i as int] == n && answers(list, needs@, i as int));
                }
                if before.contains(n) && !needs@.contains(n) {
                    let j = choose|j: int|
                        0 <= j < i && list[j] == n && #[trigger] answers(list, needs@, j);
                    assert(0 <= j < i + 1 && list[j] == n && answers(list, needs@, j));
                }
                if exists|j: int|
                    0 <= j < i + 1 && list[j] == n && #[trigger] answers(list, needs@, j) {
                    let j = choose|j: int|
                        0 <= j < i + 1 && list[j] == n && #[trigger] answers(list, needs@, j);
                    if j < i {
                        assert(before.contains(n));
                    }
                }
            }
        }
        i = i + 1;
    }
    proof {
        assert forall|n: Seq<char>| out@.contains(n) <==> wanted(list, needs@).contains(n) by {
            if wanted(list, needs@).contains(n) && !needs@.contains(n) {
                let j = choose|j: int| 0 <= j < list.len() && list[j] == n;
                assert(answers(list, needs@, j));
            }
            if out@.contains(n) && !needs@.contains(n) {
                let j = choose|j: int|
                    0 <= j < i && list[j] == n && #[trigger] answers(list, needs@, j);
                assert(list.contains(n));
            }
        }
        assert(out@ =~= wanted(list, needs@));
    }
    out
}

/// A qualified need is answered by the bare name at `i`.
spec fn answers(list: Seq<Seq<char>>, needs: Set<Seq<char>>, i: int) -> bool {
    exists|k: Seq<char>| #[trigger]
        needs.contains(k) && !list.contains(k) && qualifies(k, list[i])
}

/// The indices of the fields that a scan has to deliver, ascending.
fn kept_indices(schema: &Schema, needs: &ColumnSet) -> (r: Vec<usize>)
    ensures
        r@ == kept(names(schema@), wanted(names(schema@), needs@)),
{
    let wants = collect_wanted(schema, needs);
    let mut idxs: Vec<usize> = Vec::new();
    let ghost list = names(schema@);
    let mut i: usize = 0;
    proof {
        assert(list.take(0) =~= Seq::empty());
    }
    while i < schema.fields.len()
        invariant
            i <= schema.fields.len(),
            list == names(schema@),
            idxs@ == kept(list.take(i as int), wants@),
        decreases schema.fields.len() - i,
    {
        proof {
            let t = list.take(i + 1);
            assert(t.drop_last() =~= list.take(i as int));
            assert(t.last() == schema.fields[i as int].name@);
        }
        if wants.contains(schema.fields[i].name.as_str()) {
            idxs.push(i);
        }
        i = i + 1;
    }
    proof {
        assert(list.take(schema.fields.len() as int) =~= list);
    }
    idxs
}

/// Prunes a plan to what is needed of it.
pub fn prune_rec(plan: LogicalPlan, parent_needs: &ColumnSet) -> (r: LogicalPlan)
    ensures
        r@ == prune(plan@, parent_needs@),
    decreases plan,
{
    match plan {
        LogicalPlan::Scan { table_name, schema, projection: _ } => {
            let n_fields: usize = schema.fields.len();
            let idxs = kept_indices(&schema, parent_needs);
            let projection = if idxs.len() == n_fields && n_fields > 0 {
                None
            } else {
                Some(idxs)
            };
            LogicalPlan::Scan { table_name, schema, projection }
        },
        LogicalPlan::Projection { exprs, schema, input } => {
            let mut child_needs = ColumnSet::new();
            add_columns(&mut child_needs, &exprs);
            proof {
                let c = columns_of_all(views(exprs@));
                assert(Set::<Seq<char>>::empty().union(c) =~= c);
            }
            let new_input = prune_rec(*input, &child_needs);
            if is_identity_projection(&exprs, &schema, new_input.schema()) {
                return new_input;
            }
            LogicalPlan::Projection { exprs, schema, input: Box::new(new_input) }
        },
        LogicalPlan::Filter { predicate, input } => {
            let mut needs = parent_needs.clone();
            needs.extend(&collect_columns(&predicate));
            LogicalPlan::Filter { predicate, input: Box::new(prune_rec(*input, &needs)) }
        },
        LogicalPlan::Aggregate { group_by, aggr_exprs, schema, input } => {
            let mut needs = ColumnSet::new();
            add_columns(&mut needs, &group_by);
            add_columns(&mut needs, &aggr_exprs);
            proof {
                let g = columns_of_all(views(group_by@));
                assert(Set::<Seq<char>>::empty().union(g) =~= g);
            }
            LogicalPlan::Aggregate {
                group_by,
                aggr_exprs,
                schema,
                input: Box::new(prune_rec(*input, &needs)),
            }
        },
        LogicalPlan::Sort { exprs, input } => {
            let mut needs = parent_needs.clone();
            add_sort_columns(&mut needs, &exprs);
            LogicalPlan::Sort { exprs, input: Box::new(prune_rec(*input, &needs)) }
        },
        LogicalPlan::Join { left, right, on, join_type, schema: _ } => {
            let mut left_wants = parent_needs.clone();
            let mut right_wants = parent_needs.clone();
            add_key_columns(&mut left_wants, &mut right_wants, &on);
            let new_left = prune_rec(*left, &left_wants);
            let new_right = prune_rec(*right, &right_wants);
            let merged = merged_schema(new_left.schema(), new_right.schema());
            LogicalPlan::Join {
                left: Box::new(new_left),
                right: Box::new(new_right),
                on,
                join_type,
                schema: merged,
            }
        },
        LogicalPlan::Limit { n, input } => LogicalPlan::Limit {
            n,
            input: Box::new(prune_rec(*input, parent_needs)),
        },
        LogicalPlan::Empty { schema } => LogicalPlan::Empty { schema },
    }
}

/// Whether the expressions are the columns of the input, one by one and in order, under their names.
fn is_identity_projection(exprs: &Vec<Expr>, schema: &Schema, input_schema: &Schema) -> (r: bool)
    ensures
        r == is_identity(views(exprs@), schema@, input_schema@),
{
    let n: usize = exprs.len();
    if n != input_schema.fields.len() || n != schema.fields.len() {
        proof {
            assert(names(schema@).len() == schema.fields.len());
            assert(names(input_schema@).len() == input_schema.fields.len());
        }
        return false;
    }
    let ghost es = views(exprs@);
    let ghost outs = names(schema@);
    let ghost ins = names(input_schema@);
    let mut i: usize = 0;
    while i < n
        invariant
            i <= n,
            n == exprs.len(),
            n == input_schema.fields.len(),
            n == schema.fields.len(),
            es == views(exprs@),
            outs == names(schema@),
            ins == names(input_schema@),
            forall|j: int| 0 <= j < i ==> #[trigger] outs[j] == ins[j],
            forall|j: int|
                0 <= j < i ==> match #[trigger] es[j] {
                    ExprView::Column { name, relation } => position(ins, key_of(name, relation))
                        == Some(j),
                    _ => false,
                },
        decreases n - i,
    {
        proof {
            assert(es[i as int] == exprs[i as int]@);
            assert(outs[i as int] == schema.fields[i as int].name@);
            assert(ins[i as int] == input_schema.fields[i as int].name@);
        }
        if !(*schema.fields[i].name.as_str() == *input_schema.fields[i].name.as_str()) {
            return false;
        }
        match &exprs[i] {
            Expr::Column { name, relation } => {
                let k = column_key(name.as_str(), relation.as_ref());
                match input_schema.field_by_name(k.as_str()) {
                    Some((j, _)) => {
                        if j != i {
                            return false;
                        }
                    },
                    None => {
                        return false;
                    },
                }
            },
            _ => {
                return false;
            },
        }
        i = i + 1;
    }
    proof {
        assert(outs =~= ins);
    }
    true
}

} // verus!
