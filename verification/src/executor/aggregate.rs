//! Hash-based grouped aggregation.

use vstd::prelude::*;
use crate::error::{ArborError, ErrorView};
use crate::executor::accumulator::{
    acc_finish, acc_for_func, acc_start, acc_step, key_sorted, lemma_key_sorted_below, sort_keys,
    Acc, AccView,
};
use crate::executor::batch::{
    agrees, assembled, carried, carries, concatenated, float_cell, int_cell, named, normal_type,
    null_cell, text_cell, texts_column, told, truth_cell, type_text, Batch, BatchView, Cell, Column,
    ColumnView, Fault, Outcome,
};
use crate::executor::buffered::Buffered;
use crate::executor::expr_eval::{
    evaluate_expr, evaluated, lemma_filled, literal_column, scalar_to_array,
};
use crate::executor::full_table::{blank_batch, eval_blank_table_agg, eval_full_table, full_batch};
use crate::executor::keys::{first_unreadable, key_at, key_views, read_key, row_readable, KeyTable};
use crate::executor::projection::{evaluate_all, evaluated_all};
use crate::executor::sort::{computed_stream, lemma_stacked_carried};
use crate::executor::sums::{sums, Sums};
use crate::executor::{
    begins, collect, drained, drains, fills, fixed, stepped, stops, BATCH_SIZE, End, PhysicalPlan,
    Stream,
};
use crate::planner::logical_plan::{AggFunc, Expr, ExprView};
use crate::text::join2;
use crate::types::{
    lemma_views_push, views, DataType, Field, FieldView, ScalarValue, ScalarView, Schema,
};

verus! {

/// The function and the argument of an aggregate, under any labels.
pub open spec fn agg_parts(e: ExprView) -> Option<(AggFunc, ExprView)>
    decreases e,
{
    match e {
        ExprView::Alias { expr, .. } => agg_parts(*expr),
        ExprView::Aggregate { func, arg } => Some((func, *arg)),
        _ => None,
    }
}

/// An execution error with this text.
pub open spec fn execution_fault<T>(text: Seq<char>) -> Outcome<T> {
    Outcome::Fault(Fault::Said(ErrorView::Execution(text)))
}

/// The argument of an aggregate in every row; COUNT(*) counts ones.
pub open spec fn arg_column(e: ExprView, b: BatchView) -> Outcome<ColumnView> {
    match agg_parts(e) {
        None => execution_fault("expected aggregate func"@),
        Some(p) => if p.0 == AggFunc::Count && p.1 == ExprView::Wildcard {
            Outcome::Value(literal_column(ScalarView::Int64(1), b.rows))
        } else {
            evaluated(p.1, b)
        },
    }
}

/// The arguments of some aggregates; the first that gives no column decides.
pub open spec fn arg_columns(es: Seq<ExprView>, b: BatchView) -> Outcome<Seq<ColumnView>>
    decreases es.len(),
{
    if es.len() == 0 {
        Outcome::Value(Seq::empty())
    } else {
        match arg_column(es[0], b) {
            Outcome::Value(c) => match arg_columns(es.skip(1), b) {
                Outcome::Value(cs) => Outcome::Value(seq![c] + cs),
                other => other,
            },
            Outcome::Fault(f) => Outcome::Fault(f),
            Outcome::Open => Outcome::Open,
        }
    }
}

/// The functions of some aggregates.
pub open spec fn agg_funcs(es: Seq<ExprView>) -> Seq<AggFunc> {
    Seq::new(es.len(), |i: int| agg_parts(es[i])->Some_0.0)
}

/// The groups so far, in the order in which their keys came, and what each has gathered.
pub struct Groups {
    pub keys: Seq<Seq<ScalarView>>,
    pub accs: Seq<Seq<AccView>>,
}

/// Every accumulator takes its value.
pub open spec fn all_take(accs: Seq<AccView>, vals: Seq<ScalarView>) -> bool {
    forall|i: int| 0 <= i < accs.len() ==> acc_step(#[trigger] accs[i], vals[i]) is Some
}

/// The accumulators with one more value each.
pub open spec fn stepped_all(accs: Seq<AccView>, vals: Seq<ScalarView>) -> Seq<AccView> {
    Seq::new(accs.len(), |i: int| acc_step(accs[i], vals[i])->Some_0)
}

/// The accumulators that a group starts with.
pub open spec fn started_all(funcs: Seq<AggFunc>, vals: Seq<ScalarView>) -> Seq<AccView> {
    Seq::new(funcs.len(), |i: int| acc_start(funcs[i], vals[i]))
}

/// The groups with one more row, or nothing where a value does not fit its accumulator.
pub open spec fn put_row(
    g: Groups,
    key: Seq<ScalarView>,
    vals: Seq<ScalarView>,
    funcs: Seq<AggFunc>,
) -> Option<Groups> {
    if g.keys.contains(key) {
        let i = g.keys.index_of(key);
        if all_take(g.accs[i], vals) {
            Some(Groups { keys: g.keys, accs: g.accs.update(i, stepped_all(g.accs[i], vals)) })
        } else {
            None
        }
    } else {
        let fresh = started_all(funcs, vals);
        if all_take(fresh, vals) {
            Some(
                Groups { keys: g.keys.push(key), accs: g.accs.push(stepped_all(fresh, vals)) },
            )
        } else {
            None
        }
    }
}

/// The fault for a column that holds no scalar in some row.
pub open spec fn unreadable_fault<T>(columns: Seq<ColumnView>, row: int) -> Outcome<T> {
    execution_fault(
        "unsupported array type for group key: "@ + type_text(
            columns[first_unreadable(columns, row)].data_type,
        ),
    )
}

/// How gathering the first `rows` rows into groups comes out.
pub open spec fn gathered(
    keys: Seq<ColumnView>,
    args: Seq<ColumnView>,
    funcs: Seq<AggFunc>,
    rows: nat,
) -> Outcome<Groups>
    decreases rows,
{
    if rows == 0 {
        Outcome::Value(Groups { keys: Seq::empty(), accs: Seq::empty() })
    } else {
        let row = rows - 1;
        match gathered(keys, args, funcs, (rows - 1) as nat) {
            Outcome::Value(g) => if !row_readable(keys, row) {
                unreadable_fault(keys, row)
            } else if !row_readable(args, row) {
                unreadable_fault(args, row)
            } else {
                match put_row(g, key_at(keys, row), key_at(args, row), funcs) {
                    Some(next) => Outcome::Value(next),
                    None => execution_fault("accumulator type mismatch"@),
                }
            },
            other => other,
        }
    }
}

/// What each accumulator comes to.
pub open spec fn finished(accs: Seq<AccView>) -> Seq<ScalarView> {
    Seq::new(accs.len(), |i: int| acc_finish(accs[i]))
}

/// The numbers below `n`, ascending.
pub open spec fn numbers(n: nat) -> Seq<usize> {
    Seq::new(n, |i: int| i as usize)
}

/// The rows of the result: key and finished aggregates of each group, sorted by key.
pub open spec fn group_rows(g: Groups) -> Seq<Seq<ScalarView>> {
    let order = key_sorted(numbers(g.keys.len()), g.keys);
    Seq::new(
        order.len(),
        |i: int| g.keys[order[i] as int] + finished(g.accs[order[i] as int]),
    )
}

/// A scalar in a column of a type; NULL where it is of another kind.
pub open spec fn output_cell(s: ScalarView, t: DataType) -> Cell {
    match (t, s) {
        (DataType::Int64, ScalarView::Int64(_)) => Cell::Scalar(s),
        (DataType::Float64, ScalarView::Float64(_)) => Cell::Scalar(s),
        (DataType::Utf8, ScalarView::Utf8(_)) => Cell::Scalar(s),
        (DataType::Boolean, ScalarView::Boolean(_)) => Cell::Scalar(s),
        _ => null_cell(),
    }
}

/// Scalars can be written to a column of this type.
pub open spec fn writable(t: DataType) -> bool {
    t == DataType::Int64 || t == DataType::Float64 || t == DataType::Utf8 || t == DataType::Boolean
}

/// How writing scalars to a column comes out.
pub open spec fn output_column(vals: Seq<ScalarView>, t: DataType) -> Outcome<ColumnView> {
    let cells = Seq::new(vals.len(), |i: int| output_cell(vals[i], t));
    if t == DataType::Utf8 {
        texts_column(cells)
    } else if writable(t) {
        Outcome::Value(ColumnView { data_type: t, cells })
    } else if named(t) {
        execution_fault("unsupported output type "@ + type_text(t))
    } else {
        Outcome::Fault(Fault::Arrow)
    }
}

/// One column of some rows.
pub open spec fn column_values(rows: Seq<Seq<ScalarView>>, column: int) -> Seq<ScalarView> {
    Seq::new(rows.len(), |r: int| rows[r][column])
}

/// How writing some rows to columns comes out, from the column `from` on.
pub open spec fn output_columns(
    rows: Seq<Seq<ScalarView>>,
    fields: Seq<FieldView>,
    from: nat,
) -> Outcome<Seq<ColumnView>>
    decreases fields.len() - from,
{
    if from >= fields.len() {
        Outcome::Value(Seq::empty())
    } else {
        match output_column(
            column_values(rows, from as int),
            normal_type(fields[from as int].data_type),
        ) {
            Outcome::Value(c) => match output_columns(rows, fields, from + 1) {
                Outcome::Value(cs) => Outcome::Value(seq![c] + cs),
                other => other,
            },
            Outcome::Fault(f) => Outcome::Fault(f),
            Outcome::Open => Outcome::Open,
        }
    }
}

/// How writing some rows to a batch comes out.
pub open spec fn output_batch(rows: Seq<Seq<ScalarView>>, fields: Seq<FieldView>) -> Outcome<
    BatchView,
> {
    match output_columns(rows, fields, 0) {
        Outcome::Value(columns) => match assembled(fields, columns, None) {
            Some(b) => Outcome::Value(b),
            None => Outcome::Fault(Fault::Arrow),
        },
        Outcome::Fault(f) => Outcome::Fault(f),
        Outcome::Open => Outcome::Open,
    }
}

/// How many rows the next batch takes.
pub open spec fn chunk(n: nat) -> nat {
    if n < BATCH_SIZE { n } else { BATCH_SIZE as nat }
}

/// How writing rows to batches of at most [`BATCH_SIZE`] rows comes out.
pub open spec fn output_batches(rows: Seq<Seq<ScalarView>>, fields: Seq<FieldView>) -> Outcome<
    Seq<BatchView>,
>
    decreases rows.len(),
{
    if rows.len() == 0 {
        Outcome::Value(Seq::empty())
    } else {
        match output_batch(rows.take(chunk(rows.len()) as int), fields) {
            Outcome::Value(b) => match output_batches(
                rows.skip(chunk(rows.len()) as int),
                fields,
            ) {
                Outcome::Value(bs) => Outcome::Value(seq![b] + bs),
                other => other,
            },
            Outcome::Fault(f) => Outcome::Fault(f),
            Outcome::Open => Outcome::Open,
        }
    }
}

/// How aggregating the rows of a batch by groups comes out.
pub open spec fn grouped(
    b: BatchView,
    group_by: Seq<ExprView>,
    aggrs: Seq<ExprView>,
    fields: Seq<FieldView>,
) -> Outcome<Seq<BatchView>> {
    if b.rows == 0 {
        Outcome::Value(Seq::empty())
    } else {
        match evaluated_all(group_by, b) {
            Outcome::Value(keys) => match arg_columns(aggrs, b) {
                Outcome::Value(args) => match gathered(keys, args, agg_funcs(aggrs), b.rows) {
                    Outcome::Value(g) => if fields.len() != group_by.len() + aggrs.len() {
                        execution_fault("aggregate schema mismatch"@)
                    } else {
                        output_batches(group_rows(g), fields)
                    },
                    Outcome::Fault(f) => Outcome::Fault(f),
                    Outcome::Open => Outcome::Open,
                },
                Outcome::Fault(f) => Outcome::Fault(f),
                Outcome::Open => Outcome::Open,
            },
            Outcome::Fault(f) => Outcome::Fault(f),
            Outcome::Open => Outcome::Open,
        }
    }
}

/// The value of an aggregate expression's function, under any labels.
pub fn agg_func(e: &Expr) -> (r: Result<AggFunc, ArborError>)
    ensures
        match r {
            Ok(f) => agg_parts(e@) matches Some(p) && p.0 == f,
            Err(x) => agg_parts(e@) is None && x@ == ErrorView::Execution(
                "expected aggregate func"@,
            ),
        },
    decreases e,
{
    match e {
        Expr::Alias { expr, .. } => agg_func(expr),
        Expr::AggregateFunc { func, .. } => Ok(*func),
        _ => Err(ArborError::Execution("expected aggregate func".to_string())),
    }
}

/// The argument of an aggregate expression, under any labels.
pub fn agg_arg_expr(e: &Expr) -> (r: Result<&Expr, ArborError>)
    ensures
        match r {
            Ok(a) => agg_parts(e@) matches Some(p) && p.1 == a@,
            Err(x) => agg_parts(e@) is None && x@ == ErrorView::Execution(
                "expected aggregate expr"@,
            ),
        },
    decreases e,
{
    match e {
        Expr::Alias { expr, .. } => agg_arg_expr(expr),
        Expr::AggregateFunc { arg, .. } => Ok(arg),
        _ => Err(ArborError::Execution("expected aggregate expr".to_string())),
    }
}

/// The argument of an aggregate in every row.
fn evaluate_arg(e: &Expr, all: &Batch) -> (r: Result<Column, ArborError>)
    requires
        carried(all@),
    ensures
        agrees(r, arg_column(e@, all@)),
        r matches Ok(c) ==> c@.cells.len() == all@.rows && carries(c@.data_type) && agg_parts(e@)
            is Some,
{
    let func = match agg_func(e) {
        Ok(f) => f,
        Err(x) => return Err(x),
    };
    let arg = match agg_arg_expr(e) {
        Ok(a) => a,
        Err(x) => return Err(x),
    };
    match (func, arg) {
        (AggFunc::Count, Expr::Wildcard) => {
            proof {
                lemma_filled(ScalarView::Int64(1), all@.rows);
            }
            scalar_to_array(&ScalarValue::Int64(1), all.num_rows())
        },
        _ => evaluate_expr(arg, all),
    }
}

/// The arguments of some aggregates in every row.
fn evaluate_args(es: &Vec<Expr>, all: &Batch) -> (r: Result<Vec<Column>, ArborError>)
    requires
        carried(all@),
    ensures
        match arg_columns(views(es@), all@) {
            Outcome::Value(cs) => r matches Ok(v) && views(v@) == cs,
            Outcome::Fault(f) => r matches Err(e) && told(e, f),
            Outcome::Open => true,
        },
        r matches Ok(v) ==> v.len() == es.len() && forall|i: int|
            0 <= i < v.len() ==> (#[trigger] v[i])@.cells.len() == all@.rows && carries(
                v[i]@.data_type,
            ) && agg_parts(es[i]@) is Some,
{
    let mut out: Vec<Column> = Vec::new();
    let ghost these = views(es@);
    let ghost whole = arg_columns(these, all@);
    let ghost mut known = true;
    let mut i: usize = 0;
    proof {
        assert(these.skip(0) =~= these);
        if whole is Value {
            assert(views(out@) + whole->Value_0 =~= whole->Value_0);
        }
    }
    while i < es.len()
        invariant
            i <= es.len(),
            these == views(es@),
            whole == arg_columns(these, all@),
            carried(all@),
            out.len() == i,
            forall|k: int|
                0 <= k < out.len() ==> (#[trigger] out[k])@.cells.len() == all@.rows && carries(
                    out[k]@.data_type,
                ) && agg_parts(es[k]@) is Some,
            known ==> match arg_columns(these.skip(i as int), all@) {
                Outcome::Value(rest) => whole == Outcome::Value(views(out@) + rest),
                other => whole == other,
            },
            !known ==> whole is Open,
        decreases es.len() - i,
    {
        let ghost before = views(out@);
        let ghost rest = arg_columns(these.skip(i + 1), all@);
        proof {
            assert(these.skip(i as int)[0] == es[i as int]@);
            assert(these.skip(i as int).skip(1) =~= these.skip(i + 1));
        }
        let c = match evaluate_arg(&es[i], all) {
            Ok(c) => c,
            Err(e) => return Err(e),
        };
        proof {
            if arg_column(es[i as int]@, all@) is Open {
                known = false;
            }
            lemma_views_push(out@, c);
            if rest is Value {
                assert(before + (seq![c@] + rest->Value_0) =~= before.push(c@) + rest->Value_0);
            }
        }
        out.push(c);
        i = i + 1;
    }
    proof {
        assert(these.skip(i as int) =~= Seq::empty());
        assert(views(out@) + Seq::<ColumnView>::empty() =~= views(out@));
    }
    Ok(out)
}

/// The values of some lists of accumulators.
pub open spec fn acc_views(accs: Seq<Vec<Acc>>) -> Seq<Seq<AccView>> {
    Seq::new(accs.len(), |i: int| views(accs[i]@))
}

/// The groups so far.
struct GroupTable {
    table: KeyTable,
    accs: Vec<Vec<Acc>>,
}

impl GroupTable {
    spec fn groups(&self) -> Groups {
        Groups { keys: self.table@, accs: acc_views(self.accs@) }
    }

    spec fn wf(&self, width: nat) -> bool {
        &&& self.table.wf()
        &&& self.table@.len() == self.accs.len()
        &&& forall|i: int| 0 <= i < self.accs.len() ==> (#[trigger] self.accs[i]).len() == width
    }
}

/// Takes one value into each accumulator.
fn update_all(given: Vec<Acc>, vals: &Vec<ScalarValue>) -> (r: Result<Vec<Acc>, ArborError>)
    requires
        given.len() == vals.len(),
    ensures
        match r {
            Ok(accs) => all_take(views(given@), views(vals@)) && views(accs@) == stepped_all(
                views(given@),
                views(vals@),
            ),
            Err(e) => !all_take(views(given@), views(vals@)) && e@ == ErrorView::Execution(
                "accumulator type mismatch"@,
            ),
        },
{
    let ghost before = views(given@);
    let ghost vs = views(vals@);
    let mut accs = given;
    let mut i: usize = 0;
    while i < accs.len()
        invariant
            i <= accs.len(),
            accs.len() == vals.len(),
            before.len() == accs.len(),
            before == views(given@),
            vs == views(vals@),
            forall|k: int| 0 <= k < i ==> acc_step(#[trigger] before[k], vs[k]) is Some,
            forall|k: int|
                0 <= k < i ==> (#[trigger] accs[k])@ == acc_step(before[k], vs[k])->Some_0,
            forall|k: int| i <= k < accs.len() ==> (#[trigger] accs[k])@ == before[k],
        decreases accs.len() - i,
    {
        let mut a = Acc::Count(0);
        std::mem::swap(&mut a, &mut accs[i]);
        match a.update(vals[i].clone()) {
            Ok(_) => {},
            Err(e) => {
                proof {
                    assert(acc_step(before[i as int], vs[i as int]) is None);
                }
                return Err(e);
            },
        }
        accs.set(i, a);
        i = i + 1;
    }
    proof {
        assert(views(accs@) =~= stepped_all(before, vs));
    }
    Ok(accs)
}

/// Gathers one more row.
fn gather_row(
    t: &mut GroupTable,
    key: Vec<ScalarValue>,
    vals: Vec<ScalarValue>,
    funcs: &Vec<AggFunc>,
) -> (r: Result<(), ArborError>)
    requires
        old(t).wf(funcs.len() as nat),
        vals.len() == funcs.len(),
    ensures
        match r {
            Ok(_) => final(t).wf(funcs.len() as nat) && put_row(
                old(t).groups(),
                views(key@),
                views(vals@),
                funcs@,
            ) == Some(final(t).groups()),
            Err(e) => put_row(old(t).groups(), views(key@), views(vals@), funcs@) is None && e@
                == ErrorView::Execution("accumulator type mismatch"@),
        },
{
    let ghost g = t.groups();
    proof {
        t.table.lemma_distinct();
    }
    match t.table.find(&key) {
        Some(id) => {
            proof {
                assert(g.keys.contains(views(key@)));
                assert(g.keys.index_of(views(key@)) == id);
                assert(g.accs[id as int] == views(t.accs[id as int]@));
            }
            let mut all: Vec<Vec<Acc>> = Vec::new();
            let mut accs: Vec<Acc> = Vec::new();
            std::mem::swap(&mut all, &mut t.accs);
            std::mem::swap(&mut accs, &mut all[id]);
            let next = match update_all(accs, &vals) {
                Ok(a) => a,
                Err(e) => return Err(e),
            };
            all.set(id, next);
            t.accs = all;
            proof {
                assert(views(next@).len() == next.len());
                assert(t.groups().accs =~= g.accs.update(
                    id as int,
                    stepped_all(g.accs[id as int], views(vals@)),
                ));
            }
            Ok(())
        },
        None => {
            let mut fresh: Vec<Acc> = Vec::new();
            let mut i: usize = 0;
            while i < funcs.len()
                invariant
                    i <= funcs.len(),
                    vals.len() == funcs.len(),
                    fresh.len() == i,
                    forall|k: int|
                        0 <= k < i ==> (#[trigger] fresh[k])@ == acc_start(
                            funcs[k],
                            vals[k]@,
                        ),
                decreases funcs.len() - i,
            {
                fresh.push(acc_for_func(funcs[i], &vals[i]));
                i = i + 1;
            }
            proof {
                assert(views(fresh@) =~= started_all(funcs@, views(vals@)));
            }
            let first = match update_all(fresh, &vals) {
                Ok(a) => a,
                Err(e) => return Err(e),
            };
            t.table.insert(key);
            t.accs.push(first);
            proof {
                assert(views(first@).len() == first.len());
                assert(t.groups().accs =~= g.accs.push(views(first@)));
            }
            Ok(())
        },
    }
}

/// The error for a column that holds no scalar in some row.
fn unreadable_error(columns: &Vec<Column>, c: usize) -> (r: ArborError)
    requires
        c < columns.len(),
        carries(columns[c as int]@.data_type),
    ensures
        r@ == ErrorView::Execution(
            "unsupported array type for group key: "@ + type_text(columns[c as int]@.data_type),
        ),
{
    let text = columns[c].data_type().describe();
    ArborError::Execution(join2("unsupported array type for group key: ", text.as_str()))
}

/// Gathers the rows into groups.
fn gather(keys: &Vec<Column>, args: &Vec<Column>, funcs: &Vec<AggFunc>, n: usize) -> (r: Result<
    GroupTable,
    ArborError,
>)
    requires
        forall|i: int|
            0 <= i < keys.len() ==> (#[trigger] keys[i])@.cells.len() == n && carries(
                keys[i]@.data_type,
            ),
        forall|i: int|
            0 <= i < args.len() ==> (#[trigger] args[i])@.cells.len() == n && carries(
                args[i]@.data_type,
            ),
        args.len() == funcs.len(),
    ensures
        match gathered(views(keys@), views(args@), funcs@, n as nat) {
            Outcome::Value(g) => r matches Ok(t) && t.groups() == g && t.wf(funcs.len() as nat),
            Outcome::Fault(f) => r matches Err(e) && told(e, f),
            Outcome::Open => false,
        },
{
    let ghost ks = views(keys@);
    let ghost vs = views(args@);
    let mut t = GroupTable { table: KeyTable::new(), accs: Vec::new() };
    let mut row: usize = 0;
    proof {
        assert(t.groups().accs =~= Seq::empty());
    }
    while row < n
        invariant
            row <= n,
            ks == views(keys@),
            vs == views(args@),
            forall|i: int|
                0 <= i < keys.len() ==> (#[trigger] keys[i])@.cells.len() == n && carries(
                    keys[i]@.data_type,
                ),
            forall|i: int|
                0 <= i < args.len() ==> (#[trigger] args[i])@.cells.len() == n && carries(
                    args[i]@.data_type,
                ),
            args.len() == funcs.len(),
            t.wf(funcs.len() as nat),
            gathered(ks, vs, funcs@, row as nat) == Outcome::Value(t.groups()),
        decreases n - row,
    {
        let ghost next = gathered(ks, vs, funcs@, (row + 1) as nat);
        let key = match read_key(keys, row) {
            Ok(k) => k,
            Err(c) => {
                proof {
                    assert(next is Fault);
                    lemma_gathered_stops(ks, vs, funcs@, (row + 1) as nat, n as nat);
                    assert(ks[c as int] == keys[c as int]@);
                }
                return Err(unreadable_error(keys, c));
            },
        };
        let vals = match read_key(args, row) {
            Ok(k) => k,
            Err(c) => {
                proof {
                    assert(next is Fault);
                    lemma_gathered_stops(ks, vs, funcs@, (row + 1) as nat, n as nat);
                    assert(vs[c as int] == args[c as int]@);
                }
                return Err(unreadable_error(args, c));
            },
        };
        proof {
            assert(views(vals@).len() == vals.len());
        }
        match gather_row(&mut t, key, vals, funcs) {
            Ok(_) => {},
            Err(e) => {
                proof {
                    assert(next is Fault);
                    lemma_gathered_stops(ks, vs, funcs@, (row + 1) as nat, n as nat);
                }
                return Err(e);
            },
        }
        row = row + 1;
    }
    Ok(t)
}

/// A fault among the first rows is the fault of all.
proof fn lemma_gathered_stops(
    keys: Seq<ColumnView>,
    args: Seq<ColumnView>,
    funcs: Seq<AggFunc>,
    r: nat,
    n: nat,
)
    requires
        r <= n,
        gathered(keys, args, funcs, r) is Fault,
    ensures
        gathered(keys, args, funcs, n) == gathered(keys, args, funcs, r),
    decreases n,
{
    if r < n {
        lemma_gathered_stops(keys, args, funcs, r, (n - 1) as nat);
    }
}

/// Writes scalars to a column.
fn scalars_to_array(vals: &Vec<ScalarValue>, dt: &DataType) -> (r: Result<Column, ArborError>)
    ensures
        agrees(r, output_column(views(vals@), *dt)),
        r matches Ok(c) ==> c@.cells.len() == vals.len() && carries(c@.data_type),
{
    let n: usize = vals.len();
    let ghost want = Seq::new(vals@.len(), |i: int| output_cell(vals@[i]@, *dt));
    let r = match dt {
        DataType::Int64 => {
            let mut out: Vec<Option<i64>> = Vec::new();
            let mut i: usize = 0;
            while i < n
                invariant
                    i <= n,
                    n == vals.len(),
                    out.len() == i,
                    forall|k: int|
                        0 <= k < i ==> int_cell(#[trigger] out[k]) == output_cell(
                            vals[k]@,
                            DataType::Int64,
                        ),
                decreases n - i,
            {
                match &vals[i] {
                    ScalarValue::Int64(v) => {
                        out.push(Some(*v));
                    },
                    _ => {
                        out.push(None);
                    },
                }
                i = i + 1;
            }
            Column::of_ints(out)
        },
        DataType::Float64 => {
            let mut out: Vec<Option<u64>> = Vec::new();
            let mut i: usize = 0;
            while i < n
                invariant
                    i <= n,
                    n == vals.len(),
                    out.len() == i,
                    forall|k: int|
                        0 <= k < i ==> float_cell(#[trigger] out[k]) == output_cell(
                            vals[k]@,
                            DataType::Float64,
                        ),
                decreases n - i,
            {
                match &vals[i] {
                    ScalarValue::Float64(v) => {
                        out.push(Some(*v));
                    },
                    _ => {
                        out.push(None);
                    },
                }
                i = i + 1;
            }
            Column::of_floats(out)
        },
        DataType::Utf8 => {
            let mut out: Vec<Option<String>> = Vec::new();
            let mut i: usize = 0;
            while i < n
                invariant
                    i <= n,
                    n == vals.len(),
                    out.len() == i,
                    forall|k: int|
                        0 <= k < i ==> text_cell(#[trigger] out[k]) == output_cell(
                            vals[k]@,
                            DataType::Utf8,
                        ),
                decreases n - i,
            {
                match &vals[i] {
                    ScalarValue::Utf8(v) => {
                        out.push(Some(v.clone()));
                    },
                    _ => {
                        out.push(None);
                    },
                }
                i = i + 1;
            }
            proof {
                assert(Seq::new(out@.len(), |i: int| text_cell(out@[i])) =~= want);
                assert(want =~= Seq::new(
                    views(vals@).len(),
                    |i: int| output_cell(views(vals@)[i], *dt),
                ));
            }
            match Column::of_texts(out) {
                Ok(c) => c,
                Err(e) => return Err(e),
            }
        },
        DataType::Boolean => {
            let mut out: Vec<Option<bool>> = Vec::new();
            let mut i: usize = 0;
            while i < n
                invariant
                    i <= n,
                    n == vals.len(),
                    out.len() == i,
                    forall|k: int|
                        0 <= k < i ==> truth_cell(#[trigger] out[k]) == output_cell(
                            vals[k]@,
                            DataType::Boolean,
                        ),
                decreases n - i,
            {
                match &vals[i] {
                    ScalarValue::Boolean(v) => {
                        out.push(Some(*v));
                    },
                    _ => {
                        out.push(None);
                    },
                }
                i = i + 1;
            }
            Column::of_truths(out)
        },
        _ => {
            let text = dt.describe();
            return Err(
                ArborError::Execution(join2("unsupported output type ", text.as_str())),
            );
        },
    };
    proof {
        assert(r@.cells =~= want);
        assert(want =~= Seq::new(views(vals@).len(), |i: int| output_cell(views(vals@)[i], *dt)));
    }
    Ok(r)
}

/// Writes some rows to columns of the given fields.
pub fn rows_to_columns(rows: &Vec<Vec<ScalarValue>>, from: usize, to: usize, fields: &Vec<Field>) -> (r:
    Result<Vec<Column>, ArborError>)
    requires
        from <= to <= rows.len(),
        forall|i: int| 0 <= i < rows.len() ==> (#[trigger] rows[i]).len() >= fields.len(),
    ensures
        match output_columns(
            key_views(rows@).subrange(from as int, to as int),
            views(fields@),
            0,
        ) {
            Outcome::Value(cs) => r matches Ok(v) && views(v@) == cs,
            Outcome::Fault(f) => r matches Err(e) && told(e, f),
            Outcome::Open => false,
        },
        r matches Ok(v) ==> v.len() == fields.len() && forall|i: int|
            0 <= i < v.len() ==> (#[trigger] v[i])@.cells.len() == to - from && carries(
                v[i]@.data_type,
            ),
{
    let ghost these = key_views(rows@).subrange(from as int, to as int);
    let ghost fs = views(fields@);
    let ghost whole = output_columns(these, fs, 0);
    let mut out: Vec<Column> = Vec::new();
    let mut ci: usize = 0;
    proof {
        if whole is Value {
            assert(views(out@) + whole->Value_0 =~= whole->Value_0);
        }
        lemma_output_not_open(these, fs, 0);
    }
    while ci < fields.len()
        invariant
            ci <= fields.len(),
            from <= to <= rows.len(),
            forall|i: int| 0 <= i < rows.len() ==> (#[trigger] rows[i]).len() >= fields.len(),
            these == key_views(rows@).subrange(from as int, to as int),
            fs == views(fields@),
            whole == output_columns(these, fs, 0),
            !(whole is Open),
            out.len() == ci,
            forall|k: int|
                0 <= k < out.len() ==> (#[trigger] out[k])@.cells.len() == to - from && carries(
                    out[k]@.data_type,
                ),
            match output_columns(these, fs, ci as nat) {
                Outcome::Value(rest) => whole == Outcome::Value(views(out@) + rest),
                other => whole == other,
            },
        decreases fields.len() - ci,
    {
        let mut vals: Vec<ScalarValue> = Vec::new();
        let mut row: usize = from;
        while row < to
            invariant
                from <= row <= to <= rows.len(),
                ci < fields.len(),
                forall|i: int| 0 <= i < rows.len() ==> (#[trigger] rows[i]).len() >= fields.len(),
                vals.len() == row - from,
                forall|k: int|
                    0 <= k < row - from ==> (#[trigger] vals[k])@ == rows[from + k][ci as int]@,
            decreases to - row,
        {
            proof {
                assert(rows[row as int].len() >= fields.len());
            }
            vals.push(rows[row][ci].clone());
            row = row + 1;
        }
        proof {
            assert(views(vals@) =~= column_values(these, ci as int)) by {
                assert forall|k: int| 0 <= k < to - from implies views(vals@)[k] == column_values(
                    these,
                    ci as int,
                )[k] by {
                    assert(vals[k]@ == rows[from + k][ci as int]@);
                    assert(these[k] == views(rows[from + k]@));
                }
            }
        }
        let t = fields[ci].data_type.normalized();
        let ghost before = views(out@);
        let ghost rest = output_columns(these, fs, (ci + 1) as nat);
        let c = match scalars_to_array(&vals, &t) {
            Ok(c) => c,
            Err(e) => return Err(e),
        };
        proof {
            lemma_views_push(out@, c);
            if rest is Value {
                assert(before + (seq![c@] + rest->Value_0) =~= before.push(c@) + rest->Value_0);
            }
        }
        out.push(c);
        ci = ci + 1;
    }
    proof {
        assert(views(out@) + Seq::<ColumnView>::empty() =~= views(out@));
    }
    Ok(out)
}

/// Writing rows to columns is never left open.
proof fn lemma_output_not_open(rows: Seq<Seq<ScalarView>>, fields: Seq<FieldView>, from: nat)
    ensures
        !(output_columns(rows, fields, from) is Open),
    decreases fields.len() - from,
{
    if from < fields.len() {
        lemma_output_not_open(rows, fields, from + 1);
    }
}

/// Writes some rows to batches of at most [`BATCH_SIZE`] rows.
fn batches_from_rows(rows: &Vec<Vec<ScalarValue>>, schema: &Schema) -> (r: Result<
    Vec<Batch>,
    ArborError,
>)
    requires
        forall|i: int| 0 <= i < rows.len() ==> (#[trigger] rows[i]).len() >= schema.fields.len(),
    ensures
        match output_batches(key_views(rows@), schema@) {
            Outcome::Value(bs) => r matches Ok(v) && views(v@) == bs,
            Outcome::Fault(f) => r matches Err(e) && told(e, f),
            Outcome::Open => false,
        },
        r matches Ok(v) ==> forall|i: int| 0 <= i < v.len() ==> carried((#[trigger] v[i])@),
{
    let ghost all = key_views(rows@);
    let ghost whole = output_batches(all, schema@);
    let mut out: Vec<Batch> = Vec::new();
    let mut offset: usize = 0;
    let n: usize = rows.len();
    proof {
        assert(all.skip(0) =~= all);
        if whole is Value {
            assert(views(out@) + whole->Value_0 =~= whole->Value_0);
        }
    }
    while offset < n
        invariant
            offset <= n,
            n == rows.len(),
            forall|i: int|
                0 <= i < rows.len() ==> (#[trigger] rows[i]).len() >= schema.fields.len(),
            all == key_views(rows@),
            whole == output_batches(all, schema@),
            forall|i: int| 0 <= i < out.len() ==> carried((#[trigger] out[i])@),
            match output_batches(all.skip(offset as int), schema@) {
                Outcome::Value(rest) => whole == Outcome::Value(views(out@) + rest),
                other => whole == other,
            },
        decreases n - offset,
    {
        let take: usize = if n - offset < BATCH_SIZE { n - offset } else { BATCH_SIZE };
        let ghost left = all.skip(offset as int);
        proof {
            assert(take == chunk(left.len()));
            assert(left.take(take as int) =~= all.subrange(offset as int, offset + take));
            assert(left.skip(take as int) =~= all.skip(offset + take));
            lemma_output_not_open(left.take(take as int), schema@, 0);
        }
        let columns = match rows_to_columns(rows, offset, offset + take, &schema.fields) {
            Ok(v) => v,
            Err(e) => return Err(e),
        };
        let b = match Batch::try_new(schema, &columns, None) {
            Ok(b) => b,
            Err(e) => return Err(e),
        };
        let ghost before = views(out@);
        let ghost rest = output_batches(all.skip(offset + take), schema@);
        proof {
            assert forall|i: int| 0 <= i < b@.fields.len() implies carries(
                (#[trigger] b@.fields[i]).data_type,
            ) by {
                assert(views(columns@)[i] == columns[i]@);
            }
            lemma_views_push(out@, b);
            if rest is Value {
                assert(before + (seq![b@] + rest->Value_0) =~= before.push(b@) + rest->Value_0);
            }
        }
        out.push(b);
        offset = offset + take;
    }
    proof {
        assert(all.skip(offset as int) =~= Seq::empty());
        assert(views(out@) + Seq::<BatchView>::empty() =~= views(out@));
    }
    Ok(out)
}

/// The rows of the result, sorted by key.
fn rows_of_groups(t: &GroupTable, Ghost(width): Ghost<nat>) -> (r: Vec<Vec<ScalarValue>>)
    requires
        t.wf(width),
    ensures
        key_views(r@) == group_rows(t.groups()),
{
    let keys = t.table.keys();
    let n: usize = keys.len();
    let mut ids: Vec<usize> = Vec::new();
    let mut i: usize = 0;
    while i < n
        invariant
            i <= n,
            ids.len() == i,
            forall|k: int| 0 <= k < i ==> #[trigger] ids[k] == k,
        decreases n - i,
    {
        ids.push(i);
        i = i + 1;
    }
    let ghost g = t.groups();
    proof {
        assert(ids@ =~= numbers(g.keys.len()));
    }
    let order = sort_keys(&ids, keys);
    let mut out: Vec<Vec<ScalarValue>> = Vec::new();
    let mut j: usize = 0;
    while j < order.len()
        invariant
            j <= order.len(),
            t.wf(width),
            g == t.groups(),
            key_views(keys@) == g.keys,
            n == keys.len(),
            n == t.accs.len(),
            order@ == key_sorted(numbers(g.keys.len()), g.keys),
            forall|k: int| 0 <= k < order.len() ==> #[trigger] order[k] < n,
            out.len() == j,
            forall|k: int| 0 <= k < j ==> views((#[trigger] out[k])@) == group_rows(g)[k],
        decreases order.len() - j,
    {
        let id: usize = order[j];
        let mut row: Vec<ScalarValue> = keys[id].clone();
        proof {
            assert(row@ =~= keys[id as int]@);
            assert(g.keys[id as int] == views(keys[id as int]@));
            assert(g.accs[id as int] == views(t.accs[id as int]@));
        }
        let ghost key = views(row@);
        let ghost done = finished(g.accs[id as int]);
        let mut k: usize = 0;
        proof {
            assert(views(row@) =~= key + done.take(0));
        }
        while k < t.accs[id].len()
            invariant
                k <= t.accs[id as int].len(),
                id < t.accs.len(),
                done == finished(views(t.accs[id as int]@)),
                views(row@) == key + done.take(k as int),
            decreases t.accs[id as int].len() - k,
        {
            let v = t.accs[id][k].finish();
            proof {
                lemma_views_push(row@, v);
                assert(views(t.accs[id as int]@)[k as int] == t.accs[id as int][k as int]@);
                assert((key + done.take(k as int)).push(v@) =~= key + done.take(k + 1));
            }
            row.push(v);
            k = k + 1;
        }
        proof {
            assert(done.take(k as int) =~= done);
            assert(views(row@) == group_rows(g)[j as int]);
        }
        out.push(row);
        j = j + 1;
    }
    proof {
        assert(key_views(out@) =~= group_rows(g));
    }
    out
}

/// The functions of some aggregates.
fn funcs_of(es: &Vec<Expr>) -> (r: Vec<AggFunc>)
    requires
        forall|i: int| 0 <= i < es.len() ==> agg_parts((#[trigger] es[i])@) is Some,
    ensures
        r@ == agg_funcs(views(es@)),
{
    let mut out: Vec<AggFunc> = Vec::new();
    let mut i: usize = 0;
    while i < es.len()
        invariant
            i <= es.len(),
            forall|i: int| 0 <= i < es.len() ==> agg_parts((#[trigger] es[i])@) is Some,
            out.len() == i,
            forall|k: int| 0 <= k < i ==> #[trigger] out[k] == agg_parts(es[k]@)->Some_0.0,
        decreases es.len() - i,
    {
        match agg_func(&es[i]) {
            Ok(f) => {
                out.push(f);
            },
            Err(_) => {
                out.push(AggFunc::Count);
            },
        }
        i = i + 1;
    }
    proof {
        assert(out@ =~= agg_funcs(views(es@)));
    }
    out
}

/// A merge of two lists has all their rows.
proof fn lemma_group_rows_width(g: Groups, width: nat, keys: nat)
    requires
        g.keys.len() == g.accs.len(),
        forall|i: int| 0 <= i < g.keys.len() ==> (#[trigger] g.keys[i]).len() == keys,
        forall|i: int| 0 <= i < g.accs.len() ==> (#[trigger] g.accs[i]).len() == width,
        forall|i: int|
            0 <= i < key_sorted(numbers(g.keys.len()), g.keys).len() ==> (#[trigger] key_sorted(
                numbers(g.keys.len()),
                g.keys,
            )[i]) < g.keys.len(),
    ensures
        forall|i: int| 0 <= i < group_rows(g).len() ==> (#[trigger] group_rows(g)[i]).len() == keys
            + width,
{
    let order = key_sorted(numbers(g.keys.len()), g.keys);
    assert forall|i: int| 0 <= i < group_rows(g).len() implies (#[trigger] group_rows(g)[i]).len()
        == keys + width by {
        assert(order[i] < g.keys.len());
        assert(g.keys[order[i] as int].len() == keys);
        assert(g.accs[order[i] as int].len() == width);
    }
}

/// Every group has a key of all the key columns.
proof fn lemma_gathered_keys(
    keys: Seq<ColumnView>,
    args: Seq<ColumnView>,
    funcs: Seq<AggFunc>,
    rows: nat,
)
    ensures
        gathered(keys, args, funcs, rows) matches Outcome::Value(g) ==> forall|i: int|
            0 <= i < g.keys.len() ==> (#[trigger] g.keys[i]).len() == keys.len(),
    decreases rows,
{
    if rows > 0 {
        lemma_gathered_keys(keys, args, funcs, (rows - 1) as nat);
    }
}

/// Aggregates the rows of a batch by groups.
pub fn build_grouped_batches(
    all: &Batch,
    group_by: &Vec<Expr>,
    aggr_exprs: &Vec<Expr>,
    out_schema: &Schema,
) -> (r: Result<Vec<Batch>, ArborError>)
    requires
        carried(all@),
    ensures
        match grouped(all@, views(group_by@), views(aggr_exprs@), out_schema@) {
            Outcome::Value(bs) => r matches Ok(v) && views(v@) == bs,
            Outcome::Fault(f) => r matches Err(e) && told(e, f),
            Outcome::Open => true,
        },
        r matches Ok(v) ==> forall|i: int| 0 <= i < v.len() ==> carried((#[trigger] v[i])@),
{
    let n: usize = all.num_rows();
    if n == 0 {
        let none: Vec<Batch> = Vec::new();
        proof {
            assert(views(none@) =~= Seq::empty());
        }
        return Ok(none);
    }
    let keys = match evaluate_all(group_by, all) {
        Ok(v) => v,
        Err(e) => return Err(e),
    };
    let args = match evaluate_args(aggr_exprs, all) {
        Ok(v) => v,
        Err(e) => return Err(e),
    };
    proof {
        assert forall|i: int| 0 <= i < aggr_exprs.len() implies agg_parts(
            (#[trigger] aggr_exprs[i])@,
        ) is Some by {
            assert(args[i]@.cells.len() == all@.rows);
        }
    }
    let funcs = funcs_of(aggr_exprs);
    let t = match gather(&keys, &args, &funcs, n) {
        Ok(t) => t,
        Err(e) => return Err(e),
    };
    let width: usize = out_schema.fields.len();
    if width < group_by.len() || width - group_by.len() != aggr_exprs.len() {
        return Err(ArborError::Execution("aggregate schema mismatch".to_string()));
    }
    let rows = rows_of_groups(&t, Ghost(funcs.len() as nat));
    proof {
        let g = t.groups();
        lemma_gathered_keys(views(keys@), views(args@), funcs@, n as nat);
        assert forall|i: int| 0 <= i < g.accs.len() implies (#[trigger] g.accs[i]).len()
            == funcs.len() by {
            assert(g.accs[i] == views(t.accs[i]@));
            assert(t.accs[i].len() == funcs.len());
        }
        lemma_key_sorted_below(
            numbers(g.keys.len()),
            g.keys,
            g.keys.len(),
        );
        lemma_group_rows_width(g, funcs.len() as nat, keys.len() as nat);
        assert forall|i: int| 0 <= i < rows.len() implies (#[trigger] rows[i]).len()
            >= out_schema.fields.len() by {
            assert(key_views(rows@)[i] == views(rows[i]@));
            assert(group_rows(g)[i].len() == keys.len() + funcs.len());
        }
    }
    batches_from_rows(&rows, out_schema)
}

/// How aggregating some batches comes out, `totals` being the sums of float columns of the whole
/// table where they are such. Without groups there is one row, even of nothing.
pub open spec fn aggregated(
    bs: Seq<BatchView>,
    group_by: Seq<ExprView>,
    aggrs: Seq<ExprView>,
    fields: Seq<FieldView>,
    totals: Seq<u64>,
) -> Outcome<Seq<BatchView>> {
    if bs.len() == 0 {
        if group_by.len() > 0 {
            Outcome::Value(Seq::empty())
        } else {
            one_batch(blank_batch(aggrs, fields))
        }
    } else {
        match concatenated(bs) {
            Outcome::Value(all) => if group_by.len() > 0 {
                grouped(all, group_by, aggrs, fields)
            } else {
                one_batch(full_batch(aggrs, fields, all, totals))
            },
            Outcome::Fault(f) => Outcome::Fault(f),
            Outcome::Open => Outcome::Open,
        }
    }
}

/// The outcome with its one batch as a list.
pub open spec fn one_batch(o: Outcome<BatchView>) -> Outcome<Seq<BatchView>> {
    match o {
        Outcome::Value(b) => Outcome::Value(seq![b]),
        Outcome::Fault(f) => Outcome::Fault(f),
        Outcome::Open => Outcome::Open,
    }
}

/// All the rows of a stream, aggregated, `totals` being the sums of float columns of the whole
/// table where they are such.
pub open spec fn aggregate_stream(
    group_by: Seq<ExprView>,
    aggrs: Seq<ExprView>,
    fields: Seq<FieldView>,
    s: Stream,
    totals: Seq<u64>,
) -> Stream {
    match drained(s) {
        Outcome::Value(bs) => computed_stream(aggregated(bs, group_by, aggrs, fields, totals)),
        other => stops(other),
    }
}

/// The result is the one of the outcome.
pub open spec fn gives(r: Result<Vec<Batch>, ArborError>, o: Outcome<Seq<BatchView>>) -> bool {
    match o {
        Outcome::Value(bs) => r matches Ok(v) && views(v@) == bs,
        Outcome::Fault(f) => r matches Err(e) && told(e, f),
        Outcome::Open => true,
    }
}

/// The batch of a result as a list.
fn listed(one: Result<Batch, ArborError>) -> (r: Result<Vec<Batch>, ArborError>)
    ensures
        match one {
            Ok(b) => r matches Ok(v) && v@ == seq![b],
            Err(e) => r == Err::<Vec<Batch>, ArborError>(e),
        },
{
    match one {
        Ok(b) => {
            let mut out: Vec<Batch> = Vec::new();
            out.push(b);
            proof {
                assert(out@ =~= seq![b]);
            }
            Ok(out)
        },
        Err(e) => Err(e),
    }
}

/// Aggregates all rows of some batches, and tells the sums of float columns of the whole table,
/// which are Arrow's choice of an order of addition.
pub fn aggregate_batches(
    batches: &Vec<Batch>,
    group_by: &Vec<Expr>,
    aggr_exprs: &Vec<Expr>,
    out_schema: &Schema,
) -> (r: (Result<Vec<Batch>, ArborError>, Vec<u64>))
    requires
        forall|i: int| 0 <= i < batches.len() ==> carried((#[trigger] batches[i])@),
    ensures
        r.1.len() == aggr_exprs.len(),
        gives(
            r.0,
            aggregated(
                views(batches@),
                views(group_by@),
                views(aggr_exprs@),
                out_schema@,
                r.1@,
            ),
        ),
        r.0 matches Ok(v) ==> forall|i: int| 0 <= i < v.len() ==> carried((#[trigger] v[i])@),
{
    let ghost bs = views(batches@);
    let mut zeros: Vec<u64> = Vec::new();
    let mut i: usize = 0;
    while i < aggr_exprs.len()
        invariant
            i <= aggr_exprs.len(),
            zeros.len() == i,
        decreases aggr_exprs.len() - i,
    {
        zeros.push(0);
        i = i + 1;
    }
    if batches.len() == 0 {
        if group_by.len() > 0 {
            let none: Vec<Batch> = Vec::new();
            proof {
                assert(views(none@) =~= Seq::empty());
            }
            return (Ok(none), zeros);
        }
        let one = eval_blank_table_agg(aggr_exprs, out_schema);
        let r = listed(one);
        proof {
            if one is Ok {
                assert(views(r->Ok_0@) =~= seq![one->Ok_0@]);
            }
        }
        return (r, zeros);
    }
    let all = match Batch::concat(batches) {
        Ok(b) => b,
        Err(e) => return (Err(e), zeros),
    };
    proof {
        assert(bs[0] == batches[0]@);
        lemma_stacked_carried(bs);
    }
    if group_by.len() > 0 {
        return (build_grouped_batches(&all, group_by, aggr_exprs, out_schema), zeros);
    }
    let (one, totals) = eval_full_table(&all, aggr_exprs, out_schema);
    let r = listed(one);
    proof {
        if one is Ok {
            assert(views(r->Ok_0@) =~= seq![one->Ok_0@]);
        }
    }
    (r, totals)
}

/// The rows of whatever is given, aggregated.
pub open spec fn aggregate_streams(
    group_by: Seq<ExprView>,
    aggrs: Seq<ExprView>,
    fields: Seq<FieldView>,
    s: spec_fn(Sums) -> Stream,
) -> spec_fn(Sums) -> Stream {
    |o: Sums| aggregate_stream(group_by, aggrs, fields, s(o.first()), o.totals(aggrs.len()))
}

/// Drains input, aggregates in a hash table, then emits one or more output batches.
pub struct HashAggregateExec<C: PhysicalPlan + ?Sized> {
    child: Box<C>,
    group_by: Vec<Expr>,
    aggr_exprs: Vec<Expr>,
    output_schema: Schema,
    out: Option<Buffered>,
}

impl<C: PhysicalPlan + ?Sized> HashAggregateExec<C> {
    /// Constructs a hash aggregate operator.
    pub fn new(
        child: Box<C>,
        group_by: Vec<Expr>,
        aggr_exprs: Vec<Expr>,
        types_schema: Schema,
    ) -> (r: Result<HashAggregateExec<C>, ArborError>)
        ensures
            r matches Ok(x) && x.pending() == aggregate_streams(
                views(group_by@),
                views(aggr_exprs@),
                types_schema@,
                child.pending(),
            ) && x.layout() == types_schema@,
    {
        Ok(
            HashAggregateExec {
                child,
                group_by,
                aggr_exprs,
                output_schema: types_schema,
                out: None,
            },
        )
    }

    /// Reads and aggregates the whole input.
    fn fill(&mut self) -> (r: Result<Buffered, ArborError>)
        ensures
            final(self).output_schema == old(self).output_schema,
            final(self).out == old(self).out,
            final(self).group_by == old(self).group_by,
            final(self).aggr_exprs == old(self).aggr_exprs,
            exists|o: Sums| #[trigger]
                fills(
                    r,
                    aggregate_stream(
                        views(old(self).group_by@),
                        views(old(self).aggr_exprs@),
                        old(self).output_schema@,
                        old(self).child.pending()(o.first()),
                        o.totals(old(self).aggr_exprs.len() as nat),
                    ),
                ),
    {
        let ghost input = self.child.pending();
        let read = collect(&mut *self.child);
        let ghost below = choose|o: Sums| #[trigger] drains(read, input(o));
        let batches = match read {
            Ok(v) => v,
            Err(e) => {
                let r: Result<Buffered, ArborError> = Err(e);
                proof {
                    let o = sums(Seq::empty(), below, Sums::Nowhere);
                    assert(fills(
                        r,
                        aggregate_stream(
                            views(self.group_by@),
                            views(self.aggr_exprs@),
                            self.output_schema@,
                            input(o.first()),
                            o.totals(self.aggr_exprs.len() as nat),
                        ),
                    ));
                }
                return r;
            },
        };
        let (made, totals) = aggregate_batches(
            &batches,
            &self.group_by,
            &self.aggr_exprs,
            &self.output_schema,
        );
        let r = match made {
            Ok(v) => Ok(Buffered::new(v)),
            Err(e) => Err(e),
        };
        proof {
            let o = sums(totals@, below, Sums::Nowhere);
            assert(o.totals(self.aggr_exprs.len() as nat) =~= totals@);
            assert(fills(
                r,
                aggregate_stream(
                    views(self.group_by@),
                    views(self.aggr_exprs@),
                    self.output_schema@,
                    input(o.first()),
                    o.totals(self.aggr_exprs.len() as nat),
                ),
            ));
        }
        r
    }
}

impl<C: PhysicalPlan + ?Sized> PhysicalPlan for HashAggregateExec<C> {
    closed spec fn pending(&self) -> spec_fn(Sums) -> Stream {
        match self.out {
            None => aggregate_streams(
                views(self.group_by@),
                views(self.aggr_exprs@),
                self.output_schema@,
                self.child.pending(),
            ),
            Some(b) => fixed(Stream { batches: b.left(), end: End::Done }),
        }
    }

    closed spec fn fuel(&self) -> nat {
        match self.out {
            None => usize::MAX as nat + 1,
            Some(b) => b.left().len(),
        }
    }

    closed spec fn layout(&self) -> Seq<FieldView> {
        self.output_schema@
    }

    fn schema(&self) -> (r: Schema) {
        self.output_schema.clone()
    }

    fn next_batch(&mut self) -> (r: Result<Option<Batch>, ArborError>) {
        let ghost was = self.pending();
        let ghost input = self.child.pending();
        let taken = self.out.take();
        let ghost fresh = taken is None;
        let ghost given = taken;
        let filled = match taken {
            Some(b) => Ok(b),
            None => self.fill(),
        };
        let ghost o = choose|o: Sums| #[trigger] fills(
            filled,
            aggregate_stream(
                views(self.group_by@),
                views(self.aggr_exprs@),
                self.output_schema@,
                input(o.first()),
                o.totals(self.aggr_exprs.len() as nat),
            ),
        );
        match filled {
            Err(e) => {
                let r: Result<Option<Batch>, ArborError> = Err(e);
                proof {
                    assert forall|q: Sums| begins(was, r, #[trigger] self.pending()(q)) by {
                        assert(stepped(was(o), r, self.pending()(q)));
                    }
                }
                r
            },
            Ok(b) => {
                let mut buffer = b;
                let r = Ok(buffer.next());
                self.out = Some(buffer);
                proof {
                    assert forall|q: Sums| begins(was, r, #[trigger] self.pending()(q)) by {
                        assert(stepped(was(o), r, self.pending()(q)));
                    }
                }
                r
            },
        }
    }
}

} // verus!
