//! Hash join (inner).

use vstd::prelude::*;
use crate::error::{ArborError, ErrorView};
use crate::executor::batch::{
    assembled, carried, carries, concatenated, told, Batch, BatchView, Column, ColumnView, Fault,
    Outcome,
};
use crate::executor::buffered::Buffered;
use crate::executor::keys::{all_readable, keys_of, read_key, row_readable, KeyTable};
use crate::executor::projection::{evaluate_all, evaluated_all};
use crate::executor::sort::{lemma_stacked_carried, take_columns, taken_columns};
use crate::executor::sums::Sums;
use crate::executor::{begins, collect, drained, drains, fixed, stepped, End, PhysicalPlan, Stream};
use crate::optimizer::projection_pruning::{left_keys, right_keys};
use crate::planner::logical_plan::{Expr, ExprView, JoinType};
use crate::types::{views, FieldView, ScalarView, Schema};

verus! {

/// The rows that have this key, ascending.
pub open spec fn rows_with(key: Seq<ScalarView>, keys: Seq<Seq<ScalarView>>) -> Seq<usize>
    decreases keys.len(),
{
    if keys.len() == 0 {
        Seq::empty()
    } else {
        let rest = rows_with(key, keys.drop_last());
        if keys.last() == key { rest.push((keys.len() - 1) as usize) } else { rest }
    }
}

/// The rows of a joined table, as rows of the left and of the right input: for each left row, in
/// order, every right row with the same key, ascending.
pub open spec fn joined_rows(left: Seq<Seq<ScalarView>>, right: Seq<Seq<ScalarView>>) -> (
    Seq<usize>,
    Seq<usize>,
)
    decreases left.len(),
{
    if left.len() == 0 {
        (Seq::empty(), Seq::empty())
    } else {
        let rest = joined_rows(left.drop_last(), right);
        let found = rows_with(left.last(), right);
        (rest.0 + Seq::new(found.len(), |i: int| (left.len() - 1) as usize), rest.1 + found)
    }
}

/// How reading the keys of every row comes out.
pub open spec fn join_keys_read(columns: Seq<ColumnView>, rows: nat) -> Outcome<
    Seq<Seq<ScalarView>>,
> {
    if all_readable(columns, rows) {
        Outcome::Value(keys_of(columns, rows))
    } else {
        Outcome::Fault(Fault::Said(ErrorView::Execution("join key type"@)))
    }
}

/// How reading the join keys of a batch comes out.
pub open spec fn batch_keys(exprs: Seq<ExprView>, b: BatchView) -> Outcome<Seq<Seq<ScalarView>>> {
    match evaluated_all(exprs, b) {
        Outcome::Value(columns) => join_keys_read(columns, b.rows),
        Outcome::Fault(f) => Outcome::Fault(f),
        Outcome::Open => Outcome::Open,
    }
}

/// The rows of two batches joined; no batch where no row matches.
pub open spec fn joined_batch(
    l: BatchView,
    r: BatchView,
    rows: (Seq<usize>, Seq<usize>),
    fields: Seq<FieldView>,
) -> Outcome<Seq<BatchView>> {
    if rows.0.len() == 0 {
        Outcome::Value(Seq::empty())
    } else {
        match taken_columns(l.columns, rows.0) {
            Outcome::Value(a) => match taken_columns(r.columns, rows.1) {
                Outcome::Value(b) => match assembled(fields, a + b, None) {
                    Some(x) => Outcome::Value(seq![x]),
                    None => Outcome::Fault(Fault::Arrow),
                },
                Outcome::Fault(f) => Outcome::Fault(f),
                Outcome::Open => Outcome::Open,
            },
            Outcome::Fault(f) => Outcome::Fault(f),
            Outcome::Open => Outcome::Open,
        }
    }
}

/// How probing with the left input comes out.
pub open spec fn probed(
    left: Stream,
    r: BatchView,
    rkeys: Seq<Seq<ScalarView>>,
    on: Seq<(ExprView, ExprView)>,
    fields: Seq<FieldView>,
) -> Outcome<Seq<BatchView>> {
    match drained(left) {
        Outcome::Value(lbs) => if lbs.len() == 0 {
            Outcome::Value(Seq::empty())
        } else {
            match concatenated(lbs) {
                Outcome::Value(l) => match batch_keys(left_keys(on), l) {
                    Outcome::Value(lkeys) => joined_batch(l, r, joined_rows(lkeys, rkeys), fields),
                    Outcome::Fault(f) => Outcome::Fault(f),
                    Outcome::Open => Outcome::Open,
                },
                Outcome::Fault(f) => Outcome::Fault(f),
                Outcome::Open => Outcome::Open,
            }
        },
        Outcome::Fault(f) => Outcome::Fault(f),
        Outcome::Open => Outcome::Open,
    }
}

/// How joining two inputs comes out. The right input is read first; where it has no batch, the left
/// one is not read.
pub open spec fn join_outcome(
    left: Stream,
    right: Stream,
    on: Seq<(ExprView, ExprView)>,
    join_type: JoinType,
    fields: Seq<FieldView>,
) -> Outcome<Seq<BatchView>> {
    if join_type != JoinType::Inner {
        Outcome::Fault(
            Fault::Said(ErrorView::Execution("only INNER hash join is implemented"@)),
        )
    } else {
        match drained(right) {
            Outcome::Value(rbs) => if rbs.len() == 0 {
                Outcome::Value(Seq::empty())
            } else {
                match concatenated(rbs) {
                    Outcome::Value(r) => match batch_keys(right_keys(on), r) {
                        Outcome::Value(rkeys) => probed(left, r, rkeys, on, fields),
                        Outcome::Fault(f) => Outcome::Fault(f),
                        Outcome::Open => Outcome::Open,
                    },
                    Outcome::Fault(f) => Outcome::Fault(f),
                    Outcome::Open => Outcome::Open,
                }
            },
            Outcome::Fault(f) => Outcome::Fault(f),
            Outcome::Open => Outcome::Open,
        }
    }
}

/// The rows with a key are rows with that key, and there are none where nothing has it.
pub proof fn lemma_rows_with(key: Seq<ScalarView>, keys: Seq<Seq<ScalarView>>)
    requires
        keys.len() <= usize::MAX,
    ensures
        forall|i: int|
            0 <= i < rows_with(key, keys).len() ==> {
                let r = #[trigger] rows_with(key, keys)[i];
                r < keys.len() && keys[r as int] == key
            },
        !keys.contains(key) ==> rows_with(key, keys).len() == 0,
    decreases keys.len(),
{
    if keys.len() > 0 {
        let t = keys.drop_last();
        lemma_rows_with(key, t);
        if !keys.contains(key) {
            assert(keys.last() != key);
            if t.contains(key) {
                let k = choose|k: int| 0 <= k < t.len() && t[k] == key;
                assert(keys[k] == key);
            }
        }
        assert forall|i: int| 0 <= i < rows_with(key, keys).len() implies {
            let r = #[trigger] rows_with(key, keys)[i];
            r < keys.len() && keys[r as int] == key
        } by {
            if i < rows_with(key, t).len() {
                let r = rows_with(key, t)[i];
                assert(t[r as int] == keys[r as int]);
            }
        }
    }
}

/// The rows of a joined table are rows of the inputs, equally many on both sides.
pub proof fn lemma_joined_rows(left: Seq<Seq<ScalarView>>, right: Seq<Seq<ScalarView>>)
    requires
        left.len() <= usize::MAX,
        right.len() <= usize::MAX,
    ensures
        joined_rows(left, right).0.len() == joined_rows(left, right).1.len(),
        forall|i: int|
            0 <= i < joined_rows(left, right).0.len() ==> (#[trigger] joined_rows(left, right).0[i])
                < left.len(),
        forall|i: int|
            0 <= i < joined_rows(left, right).1.len() ==> (#[trigger] joined_rows(left, right).1[i])
                < right.len(),
    decreases left.len(),
{
    if left.len() > 0 {
        lemma_joined_rows(left.drop_last(), right);
        lemma_rows_with(left.last(), right);
        let rest = joined_rows(left.drop_last(), right);
        let found = rows_with(left.last(), right);
        assert forall|i: int| 0 <= i < joined_rows(left, right).1.len() implies (
        #[trigger] joined_rows(left, right).1[i]) < right.len() by {
            if i >= rest.1.len() {
                assert(found[i - rest.1.len()] < right.len());
            } else {
                assert(rest.1[i] < right.len());
            }
        }
        assert forall|i: int| 0 <= i < joined_rows(left, right).0.len() implies (
        #[trigger] joined_rows(left, right).0[i]) < left.len() by {
            if i < rest.0.len() {
                assert(rest.0[i] < left.drop_last().len());
            }
        }
    }
}

/// The distinct keys of some rows, and the rows of each.
struct RowTable {
    table: KeyTable,
    rows: Vec<Vec<usize>>,
}

impl RowTable {
    /// The table holds the keys of `keys`, each with its rows.
    spec fn holds(&self, keys: Seq<Seq<ScalarView>>) -> bool {
        &&& self.table.wf()
        &&& self.rows.len() == self.table@.len()
        &&& forall|i: int|
            0 <= i < self.rows.len() ==> (#[trigger] self.rows[i])@ == rows_with(
                self.table@[i],
                keys,
            )
        &&& forall|r: int| 0 <= r < keys.len() ==> self.table@.contains(#[trigger] keys[r])
    }
}

/// The error for a key that is no scalar.
fn key_error() -> (r: ArborError)
    ensures
        r@ == ErrorView::Execution("join key type"@),
{
    ArborError::Execution("join key type".to_string())
}

/// Numbers the keys of the right input.
fn build_table(columns: &Vec<Column>, n: usize) -> (r: Result<RowTable, ArborError>)
    requires
        forall|i: int| 0 <= i < columns.len() ==> (#[trigger] columns[i])@.cells.len() == n,
    ensures
        match r {
            Ok(t) => all_readable(views(columns@), n as nat) && t.holds(
                keys_of(views(columns@), n as nat),
            ),
            Err(e) => !all_readable(views(columns@), n as nat) && e@ == ErrorView::Execution(
                "join key type"@,
            ),
        },
{
    let ghost cols = views(columns@);
    let ghost keys = keys_of(cols, n as nat);
    let mut t = RowTable { table: KeyTable::new(), rows: Vec::new() };
    let mut row: usize = 0;
    while row < n
        invariant
            row <= n,
            cols == views(columns@),
            keys == keys_of(cols, n as nat),
            forall|i: int| 0 <= i < columns.len() ==> (#[trigger] columns[i])@.cells.len() == n,
            forall|r: int| 0 <= r < row ==> #[trigger] row_readable(cols, r),
            t.holds(keys.take(row as int)),
        decreases n - row,
    {
        let key = match read_key(columns, row) {
            Ok(k) => k,
            Err(_) => {
                proof {
                    assert(!row_readable(cols, row as int));
                }
                return Err(key_error());
            },
        };
        let ghost before = keys.take(row as int);
        let ghost after = keys.take(row + 1);
        proof {
            assert(after.drop_last() =~= before);
            assert(after.last() == views(key@));
            assert forall|r: int| 0 <= r < before.len() implies before[r] == after[r] by {}
        }
        match t.table.find(&key) {
            Some(id) => {
                let ghost old_rows = t.rows@;
                let mut list: Vec<usize> = Vec::new();
                let mut rows: Vec<Vec<usize>> = Vec::new();
                std::mem::swap(&mut rows, &mut t.rows);
                std::mem::swap(&mut list, &mut rows[id]);
                list.push(row);
                rows.set(id, list);
                t.rows = rows;
                proof {
                    t.table.lemma_distinct();
                    assert forall|i: int| 0 <= i < t.rows.len() implies (#[trigger] t.rows[i])@
                        == rows_with(t.table@[i], after) by {
                        assert(old_rows[i]@ == rows_with(t.table@[i], before));
                        if i != id {
                            assert(t.table@[i] != t.table@[id as int]);
                        }
                    }
                    assert forall|r: int| 0 <= r < after.len() implies t.table@.contains(
                        #[trigger] after[r],
                    ) by {
                        if r < before.len() {
                            assert(t.table@.contains(before[r]));
                        } else {
                            assert(t.table@[id as int] == after[r]);
                        }
                    }
                }
            },
            None => {
                let ghost old_table = t.table@;
                let ghost old_rows = t.rows@;
                let ghost k = views(key@);
                t.table.insert(key);
                let mut list: Vec<usize> = Vec::new();
                list.push(row);
                t.rows.push(list);
                proof {
                    lemma_rows_with(k, before);
                    if before.contains(k) {
                        let r = choose|r: int| 0 <= r < before.len() && before[r] == k;
                        assert(old_table.contains(before[r]));
                    }
                    assert(rows_with(k, before) =~= Seq::empty());
                    assert(list@ =~= rows_with(k, after));
                    assert forall|i: int| 0 <= i < t.rows.len() implies (#[trigger] t.rows[i])@
                        == rows_with(t.table@[i], after) by {
                        if i < old_rows.len() {
                            assert(old_rows[i]@ == rows_with(old_table[i], before));
                            assert(old_table.contains(old_table[i]));
                        }
                    }
                    assert forall|r: int| 0 <= r < after.len() implies t.table@.contains(
                        #[trigger] after[r],
                    ) by {
                        if r < before.len() {
                            assert(old_table.contains(before[r]));
                            let i = choose|i: int|
                                0 <= i < old_table.len() && old_table[i] == before[r];
                            assert(t.table@[i] == after[r]);
                        } else {
                            assert(t.table@[old_table.len() as int] == after[r]);
                        }
                    }
                }
            },
        }
        row = row + 1;
    }
    proof {
        assert(keys.take(n as int) =~= keys);
    }
    Ok(t)
}

/// Finds the matching rows of the left input.
fn probe_rows(columns: &Vec<Column>, n: usize, t: &RowTable, Ghost(rkeys): Ghost<
    Seq<Seq<ScalarView>>,
>) -> (r: Result<(Vec<usize>, Vec<usize>), ArborError>)
    requires
        forall|i: int| 0 <= i < columns.len() ==> (#[trigger] columns[i])@.cells.len() == n,
        t.holds(rkeys),
        rkeys.len() <= usize::MAX,
    ensures
        match r {
            Ok(x) => all_readable(views(columns@), n as nat) && (x.0@, x.1@) == joined_rows(
                keys_of(views(columns@), n as nat),
                rkeys,
            ),
            Err(e) => !all_readable(views(columns@), n as nat) && e@ == ErrorView::Execution(
                "join key type"@,
            ),
        },
{
    let ghost cols = views(columns@);
    let ghost keys = keys_of(cols, n as nat);
    let mut li: Vec<usize> = Vec::new();
    let mut rj: Vec<usize> = Vec::new();
    let mut row: usize = 0;
    proof {
        assert(keys.take(0) =~= Seq::empty());
        assert(li@ =~= Seq::empty());
        assert(rj@ =~= Seq::empty());
    }
    while row < n
        invariant
            row <= n,
            cols == views(columns@),
            keys == keys_of(cols, n as nat),
            t.holds(rkeys),
            rkeys.len() <= usize::MAX,
            forall|i: int| 0 <= i < columns.len() ==> (#[trigger] columns[i])@.cells.len() == n,
            forall|r: int| 0 <= r < row ==> #[trigger] row_readable(cols, r),
            (li@, rj@) == joined_rows(keys.take(row as int), rkeys),
        decreases n - row,
    {
        let key = match read_key(columns, row) {
            Ok(k) => k,
            Err(_) => {
                proof {
                    assert(!row_readable(cols, row as int));
                }
                return Err(key_error());
            },
        };
        let ghost after = keys.take(row + 1);
        let ghost l0 = li@;
        let ghost r0 = rj@;
        let ghost found = rows_with(views(key@), rkeys);
        proof {
            assert(after.drop_last() =~= keys.take(row as int));
            assert(after.last() == views(key@));
        }
        match t.table.find(&key) {
            Some(id) => {
                let list = &t.rows[id];
                let mut j: usize = 0;
                proof {
                    assert(list@ == found);
                    assert(li@ =~= l0 + Seq::new(0, |i: int| row));
                    assert(rj@ =~= r0 + found.take(0));
                }
                while j < list.len()
                    invariant
                        j <= list.len(),
                        list@ == found,
                        li@ == l0 + Seq::new(j as nat, |i: int| row),
                        rj@ == r0 + found.take(j as int),
                    decreases list.len() - j,
                {
                    li.push(row);
                    rj.push(list[j]);
                    j = j + 1;
                    proof {
                        assert(li@ =~= l0 + Seq::new(j as nat, |i: int| row));
                        assert(rj@ =~= r0 + found.take(j as int));
                    }
                }
                proof {
                    assert(found.take(j as int) =~= found);
                }
            },
            None => {
                proof {
                    lemma_rows_with(views(key@), rkeys);
                    if rkeys.contains(views(key@)) {
                        let r = choose|r: int| 0 <= r < rkeys.len() && rkeys[r] == views(key@);
                        assert(t.table@.contains(rkeys[r]));
                    }
                    assert(found =~= Seq::empty());
                    assert(rj@ =~= r0 + found);
                    assert(li@ =~= l0 + Seq::new(0, |i: int| row));
                }
            },
        }
        proof {
            assert(li@ =~= joined_rows(after, rkeys).0);
            assert(rj@ =~= joined_rows(after, rkeys).1);
        }
        row = row + 1;
    }
    proof {
        assert(keys.take(n as int) =~= keys);
    }
    Ok((li, rj))
}

/// Puts the matching rows of both inputs side by side.
fn probe_inner(
    l_all: &Batch,
    r_all: &Batch,
    left_exprs: &Vec<Expr>,
    t: &RowTable,
    out_schema: &Schema,
    Ghost(rkeys): Ghost<Seq<Seq<ScalarView>>>,
) -> (r: Result<Buffered, ArborError>)
    requires
        carried(l_all@),
        carried(r_all@),
        t.holds(rkeys),
        rkeys.len() == r_all@.rows,
    ensures
        match batch_keys(views(left_exprs@), l_all@) {
            Outcome::Value(lkeys) => match joined_batch(
                l_all@,
                r_all@,
                joined_rows(lkeys, rkeys),
                out_schema@,
            ) {
                Outcome::Value(bs) => r matches Ok(x) && x.left() == bs,
                Outcome::Fault(f) => r matches Err(e) && told(e, f),
                Outcome::Open => true,
            },
            Outcome::Fault(f) => r matches Err(e) && told(e, f),
            Outcome::Open => true,
        },
{
    let columns = match evaluate_all(left_exprs, l_all) {
        Ok(v) => v,
        Err(e) => return Err(e),
    };
    let n: usize = l_all.num_rows();
    let m: usize = r_all.num_rows();
    let (li, rj) = match probe_rows(&columns, n, t, Ghost(rkeys)) {
        Ok(x) => x,
        Err(e) => return Err(e),
    };
    let mut out: Vec<Batch> = Vec::new();
    if li.len() == 0 {
        proof {
            assert(views(out@) =~= Seq::empty());
        }
        return Ok(Buffered::new(out));
    }
    let ghost lkeys = keys_of(views(columns@), n as nat);
    proof {
        lemma_joined_rows(lkeys, rkeys);
    }
    let mut cols = match take_columns(l_all, &li) {
        Ok(v) => v,
        Err(e) => return Err(e),
    };
    let mut right_cols = match take_columns(r_all, &rj) {
        Ok(v) => v,
        Err(e) => return Err(e),
    };
    let ghost a = cols@;
    let ghost b = right_cols@;
    cols.append(&mut right_cols);
    proof {
        assert(views(cols@) =~= views(a) + views(b));
    }
    match Batch::try_new(out_schema, &cols, None) {
        Ok(x) => {
            proof {
                assert forall|i: int| 0 <= i < x@.fields.len() implies carries(
                    (#[trigger] x@.fields[i]).data_type,
                ) by {
                    let k = l_all@.columns.len();
                    if i < k {
                        assert(views(cols@)[i].data_type == l_all@.columns[i].data_type);
                        assert(carries(l_all@.fields[i].data_type));
                    } else {
                        assert(views(cols@)[i].data_type == r_all@.columns[i - k].data_type);
                        assert(carries(r_all@.fields[i - k].data_type));
                    }
                }
            }
            out.push(x);
            proof {
                assert(views(out@) =~= seq![x@]);
            }
            Ok(Buffered::new(out))
        },
        Err(e) => Err(e),
    }
}

/// The fields of `left`, then those of `right`.
fn concat_child_schemas(left: &Schema, right: &Schema) -> (r: Schema)
    ensures
        r@ == left@ + right@,
{
    crate::optimizer::projection_pruning::merged_schema(left, right)
}

/// Hash join on equi keys.
pub struct HashJoinExec {
    out_schema: Schema,
    out: Buffered,
}

/// The left (or right) keys of some pairs.
fn side_keys(on: &Vec<(Expr, Expr)>, left: bool) -> (r: Vec<Expr>)
    ensures
        views(r@) == if left { left_keys(views(on@)) } else { right_keys(views(on@)) },
{
    let mut out: Vec<Expr> = Vec::new();
    let mut i: usize = 0;
    while i < on.len()
        invariant
            i <= on.len(),
            out.len() == i,
            forall|k: int|
                0 <= k < i ==> (#[trigger] out[k])@ == if left { on[k].0@ } else { on[k].1@ },
        decreases on.len() - i,
    {
        out.push(if left { on[i].0.clone() } else { on[i].1.clone() });
        i = i + 1;
    }
    proof {
        if left {
            assert(views(out@) =~= left_keys(views(on@)));
        } else {
            assert(views(out@) =~= right_keys(views(on@)));
        }
    }
    out
}

/// `r` is the table of the right input.
spec fn tables(
    r: Result<Option<(Batch, RowTable, Ghost<Seq<Seq<ScalarView>>>)>, ArborError>,
    right: Stream,
    on: Seq<(ExprView, ExprView)>,
) -> bool {
    match drained(right) {
        Outcome::Value(rbs) => if rbs.len() == 0 {
            r matches Ok(None)
        } else {
            match concatenated(rbs) {
                Outcome::Value(b) => match batch_keys(right_keys(on), b) {
                    Outcome::Value(keys) => r matches Ok(Some(x)) && x.0@ == b && x.2@ == keys,
                    Outcome::Fault(f) => r matches Err(e) && told(e, f),
                    Outcome::Open => true,
                },
                Outcome::Fault(f) => r matches Err(e) && told(e, f),
                Outcome::Open => true,
            }
        },
        Outcome::Fault(f) => r matches Err(e) && told(e, f),
        Outcome::Open => true,
    }
}

/// Puts the rows of the right input into a table by their keys; there is none without batches.
fn build_side(read: Result<Vec<Batch>, ArborError>, on: &Vec<(Expr, Expr)>) -> (r: Result<
    Option<(Batch, RowTable, Ghost<Seq<Seq<ScalarView>>>)>,
    ArborError,
>)
    requires
        read matches Ok(v) ==> forall|i: int| 0 <= i < v.len() ==> carried((#[trigger] v[i])@),
    ensures
        forall|s: Stream| #[trigger] drains(read, s) ==> tables(r, s, views(on@)),
        r matches Ok(Some(x)) ==> carried(x.0@) && x.1.holds(x.2@) && x.2@.len() == x.0@.rows,
{
    let rbatches = match read {
        Ok(v) => v,
        Err(e) => return Err(e),
    };
    if rbatches.len() == 0 {
        return Ok(None);
    }
    let r_all = match Batch::concat(&rbatches) {
        Ok(b) => b,
        Err(e) => return Err(e),
    };
    proof {
        assert(views(rbatches@)[0] == rbatches[0]@);
        lemma_stacked_carried(views(rbatches@));
    }
    let rcolumns = match evaluate_all(&side_keys(on, false), &r_all) {
        Ok(v) => v,
        Err(e) => return Err(e),
    };
    let m: usize = r_all.num_rows();
    let t = match build_table(&rcolumns, m) {
        Ok(t) => t,
        Err(e) => return Err(e),
    };
    let rkeys = Ghost(keys_of(views(rcolumns@), m as nat));
    Ok(Some((r_all, t, rkeys)))
}

/// `r` holds what probing gives.
spec fn probes(r: Result<Buffered, ArborError>, o: Outcome<Seq<BatchView>>) -> bool {
    match o {
        Outcome::Value(bs) => r matches Ok(x) && x.left() == bs,
        Outcome::Fault(f) => r matches Err(e) && told(e, f),
        Outcome::Open => true,
    }
}

/// Probes the table with the rows of the left input.
fn probe_side(
    read: Result<Vec<Batch>, ArborError>,
    r_all: &Batch,
    t: &RowTable,
    on: &Vec<(Expr, Expr)>,
    out_schema: &Schema,
    Ghost(rkeys): Ghost<Seq<Seq<ScalarView>>>,
) -> (r: Result<Buffered, ArborError>)
    requires
        read matches Ok(v) ==> forall|i: int| 0 <= i < v.len() ==> carried((#[trigger] v[i])@),
        carried(r_all@),
        t.holds(rkeys),
        rkeys.len() == r_all@.rows,
    ensures
        forall|s: Stream| #[trigger] drains(read, s) ==> probes(
            r,
            probed(s, r_all@, rkeys, views(on@), out_schema@),
        ),
{
    let lbatches = match read {
        Ok(v) => v,
        Err(e) => return Err(e),
    };
    if lbatches.len() == 0 {
        let none: Vec<Batch> = Vec::new();
        proof {
            assert(views(none@) =~= Seq::empty());
        }
        return Ok(Buffered::new(none));
    }
    let l_all = match Batch::concat(&lbatches) {
        Ok(b) => b,
        Err(e) => return Err(e),
    };
    proof {
        assert(views(lbatches@)[0] == lbatches[0]@);
        lemma_stacked_carried(views(lbatches@));
    }
    let left_exprs = side_keys(on, true);
    probe_inner(&l_all, r_all, &left_exprs, t, out_schema, Ghost(rkeys))
}

/// `r` holds what the join gives.
pub open spec fn joins(r: Result<HashJoinExec, ArborError>, o: Outcome<Seq<BatchView>>) -> bool {
    match o {
        Outcome::Value(bs) => r matches Ok(x) && x.pending() == fixed(
            Stream { batches: bs, end: End::Done },
        ),
        Outcome::Fault(f) => r matches Err(e) && told(e, f),
        Outcome::Open => true,
    }
}

impl HashJoinExec {
    /// Joins `left` and `right`; output schema is `left.schema() || right.schema()`.
    pub fn new<L: PhysicalPlan + ?Sized, R: PhysicalPlan + ?Sized>(
        left: Box<L>,
        right: Box<R>,
        on: Vec<(Expr, Expr)>,
        join_type: JoinType,
    ) -> (r: Result<HashJoinExec, ArborError>)
        ensures
            exists|ol: Sums, or: Sums| #[trigger]
                joins(
                    r,
                    join_outcome(
                        left.pending()(ol),
                        right.pending()(or),
                        views(on@),
                        join_type,
                        left.layout() + right.layout(),
                    ),
                ),
            r matches Ok(x) ==> x.layout() == left.layout() + right.layout(),
    {
        let ghost lefts = left.pending();
        let ghost rights = right.pending();
        match join_type {
            JoinType::Inner => {},
            _ => {
                let r = Err(
                    ArborError::Execution("only INNER hash join is implemented".to_string()),
                );
                proof {
                    let o = Sums::Nowhere;
                    let fields = left.layout() + right.layout();
                    assert(joins(
                        r,
                        join_outcome(lefts(o), rights(o), views(on@), join_type, fields),
                    ));
                }
                return r;
            },
        }
        let mut left = left;
        let mut right = right;
        let out_schema = concat_child_schemas(&left.schema(), &right.schema());
        let ghost fields = out_schema@;
        let read_right = collect(&mut *right);
        let ghost or = choose|or: Sums| #[trigger] drains(read_right, rights(or));
        let built = build_side(read_right, &on);
        let (r_all, t, rkeys) = match built {
            Ok(Some(x)) => x,
            Ok(None) => {
                let none: Vec<Batch> = Vec::new();
                let out = Buffered::new(none);
                let r = Ok(HashJoinExec { out_schema, out });
                proof {
                    assert(views(none@) =~= Seq::empty());
                    let o = Sums::Nowhere;
                    assert(joins(
                        r,
                        join_outcome(lefts(o), rights(or), views(on@), join_type, fields),
                    ));
                }
                return r;
            },
            Err(e) => {
                let r = Err(e);
                proof {
                    let o = Sums::Nowhere;
                    assert(joins(
                        r,
                        join_outcome(lefts(o), rights(or), views(on@), join_type, fields),
                    ));
                }
                return r;
            },
        };
        let read_left = collect(&mut *left);
        let ghost ol = choose|ol: Sums| #[trigger] drains(read_left, lefts(ol));
        let found = probe_side(read_left, &r_all, &t, &on, &out_schema, rkeys);
        let r = match found {
            Ok(out) => Ok(HashJoinExec { out_schema, out }),
            Err(e) => Err(e),
        };
        assert(joins(r, join_outcome(lefts(ol), rights(or), views(on@), join_type, fields)));
        r
    }
}

impl PhysicalPlan for HashJoinExec {
    closed spec fn pending(&self) -> spec_fn(Sums) -> Stream {
        fixed(Stream { batches: self.out.left(), end: End::Done })
    }

    closed spec fn fuel(&self) -> nat {
        self.out.left().len()
    }

    closed spec fn layout(&self) -> Seq<FieldView> {
        self.out_schema@
    }

    fn schema(&self) -> (r: Schema) {
        self.out_schema.clone()
    }

    fn next_batch(&mut self) -> (r: Result<Option<Batch>, ArborError>) {
        let ghost was = self.pending();
        let r = Ok(self.out.next());
        proof {
            assert forall|o: Sums| begins(was, r, #[trigger] self.pending()(o)) by {
                assert(stepped(was(o), r, self.pending()(o)));
            }
        }
        r
    }
}

} // verus!
