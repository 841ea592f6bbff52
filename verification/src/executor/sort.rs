//! Sort rows by one or more key expressions (in-memory).

use vstd::prelude::*;
use crate::error::ArborError;
use crate::executor::batch::kernels::{picked, sort_rows, sorting, take_rows, SortKey, SortKeyView};
use crate::executor::batch::{
    assembled, carried, carries, concatenated, oversized, sound, stacked_batch, told, Batch,
    BatchView, Column, ColumnView, Fault, Outcome,
};
use crate::executor::projection::{evaluate_all, evaluated_all};
use crate::executor::buffered::Buffered;
use crate::executor::sums::Sums;
use crate::executor::{
    begins, collect, drained, drains, fills, fixed, stepped, stops, End, PhysicalPlan, Stream,
};
use crate::optimizer::projection_pruning::sort_exprs;
use crate::planner::logical_plan::{Expr, SortExpr, SortView};
use crate::types::{views, FieldView, Schema};

verus! {

/// Some columns as sort keys.
pub open spec fn sort_keys_of(columns: Seq<ColumnView>, exprs: Seq<SortView>) -> Seq<SortKeyView> {
    Seq::new(
        columns.len(),
        |i: int| SortKeyView { column: columns[i], descending: !exprs[i].asc },
    )
}

/// Some columns, each with the cells of the given rows.
pub open spec fn picked_columns(columns: Seq<ColumnView>, rows: Seq<usize>) -> Seq<ColumnView> {
    Seq::new(
        columns.len(),
        |i: int|
            ColumnView {
                data_type: columns[i].data_type,
                cells: picked(columns[i].cells, rows),
            },
    )
}

/// How taking some rows of every column comes out.
pub open spec fn taken_columns(columns: Seq<ColumnView>, rows: Seq<usize>) -> Outcome<
    Seq<ColumnView>,
> {
    if exists|i: int|
        0 <= i < columns.len() && oversized(
            (#[trigger] columns[i]).data_type,
            picked(columns[i].cells, rows),
        ) {
        Outcome::Fault(Fault::Arrow)
    } else {
        Outcome::Value(picked_columns(columns, rows))
    }
}

/// How sorting the rows of one batch comes out, the result having the given fields.
pub open spec fn sorted_batch(
    exprs: Seq<SortView>,
    fields: Seq<FieldView>,
    b: BatchView,
) -> Outcome<BatchView> {
    match evaluated_all(sort_exprs(exprs), b) {
        Outcome::Value(columns) => match sorting(sort_keys_of(columns, exprs)) {
            Outcome::Value(rows) => match assembled(fields, picked_columns(b.columns, rows), None) {
                Some(x) => Outcome::Value(x),
                None => Outcome::Fault(Fault::Arrow),
            },
            Outcome::Fault(f) => Outcome::Fault(f),
            Outcome::Open => Outcome::Open,
        },
        Outcome::Fault(f) => Outcome::Fault(f),
        Outcome::Open => Outcome::Open,
    }
}

/// How sorting some batches comes out: one batch, or none where there was none.
pub open spec fn sorted_batches(
    exprs: Seq<SortView>,
    fields: Seq<FieldView>,
    bs: Seq<BatchView>,
) -> Outcome<Seq<BatchView>> {
    if bs.len() == 0 {
        Outcome::Value(Seq::empty())
    } else {
        match concatenated(bs) {
            Outcome::Value(all) => match sorted_batch(exprs, fields, all) {
                Outcome::Value(b) => Outcome::Value(seq![b]),
                Outcome::Fault(f) => Outcome::Fault(f),
                Outcome::Open => Outcome::Open,
            },
            Outcome::Fault(f) => Outcome::Fault(f),
            Outcome::Open => Outcome::Open,
        }
    }
}

/// The stream of some computed batches.
pub open spec fn computed_stream(o: Outcome<Seq<BatchView>>) -> Stream {
    match o {
        Outcome::Value(bs) => Stream { batches: bs, end: End::Done },
        other => stops(other),
    }
}

/// All the rows of a stream, sorted.
pub open spec fn sort_stream(exprs: Seq<SortView>, fields: Seq<FieldView>, s: Stream) -> Stream {
    match drained(s) {
        Outcome::Value(bs) => computed_stream(sorted_batches(exprs, fields, bs)),
        other => stops(other),
    }
}

/// Some columns, each with the values of the given rows.
pub fn take_columns(batch: &Batch, rows: &Vec<usize>) -> (r: Result<Vec<Column>, ArborError>)
    requires
        carried(batch@),
        forall|i: int| 0 <= i < rows@.len() ==> #[trigger] rows@[i] < batch@.rows,
    ensures
        match taken_columns(batch@.columns, rows@) {
            Outcome::Value(cs) => r matches Ok(v) && views(v@) == cs,
            Outcome::Fault(f) => r matches Err(e) && told(e, f),
            Outcome::Open => true,
        },
        rows@.no_duplicates() ==> r is Ok,
        r matches Ok(v) ==> views(v@) == picked_columns(batch@.columns, rows@) && sound(batch@),
{
    let n: usize = batch.num_columns();
    let mut out: Vec<Column> = Vec::new();
    let ghost all = picked_columns(batch@.columns, rows@);
    let mut i: usize = 0;
    while i < n
        invariant
            i <= n,
            n == batch@.columns.len(),
            sound(batch@),
            carried(batch@),
            forall|i: int| 0 <= i < rows@.len() ==> #[trigger] rows@[i] < batch@.rows,
            all == picked_columns(batch@.columns, rows@),
            out.len() == i,
            forall|k: int| 0 <= k < i ==> (#[trigger] out[k])@ == all[k],
            forall|k: int|
                0 <= k < i ==> !oversized(
                    (#[trigger] batch@.columns[k]).data_type,
                    picked(batch@.columns[k].cells, rows@),
                ),
        decreases n - i,
    {
        let c = batch.column(i);
        proof {
            assert(carries(batch@.fields[i as int].data_type));
            assert(batch@.columns[i as int].cells.len() == batch@.rows);
        }
        match take_rows(&c, rows) {
            Ok(x) => {
                out.push(x);
            },
            Err(e) => {
                return Err(e);
            },
        }
        i = i + 1;
    }
    proof {
        assert(views(out@) =~= all);
    }
    Ok(out)
}

/// Sorts the rows of one batch.
fn sort_batch(exprs: &Vec<SortExpr>, schema: &Schema, all: &Batch) -> (r: Result<Batch, ArborError>)
    requires
        carried(all@),
    ensures
        match sorted_batch(views(exprs@), schema@, all@) {
            Outcome::Value(b) => r matches Ok(x) && x@ == b,
            Outcome::Fault(f) => r matches Err(e) && told(e, f),
            Outcome::Open => true,
        },
        r matches Ok(x) ==> carried(x@),
{
    let mut key_exprs: Vec<Expr> = Vec::new();
    let mut i: usize = 0;
    while i < exprs.len()
        invariant
            i <= exprs.len(),
            key_exprs.len() == i,
            forall|k: int| 0 <= k < i ==> (#[trigger] key_exprs[k])@ == exprs[k].expr@,
        decreases exprs.len() - i,
    {
        key_exprs.push(exprs[i].expr.clone());
        i = i + 1;
    }
    proof {
        assert(views(key_exprs@) =~= sort_exprs(views(exprs@)));
    }
    let columns = match evaluate_all(&key_exprs, all) {
        Ok(v) => v,
        Err(e) => return Err(e),
    };
    let mut keys: Vec<SortKey> = Vec::new();
    i = 0;
    while i < columns.len()
        invariant
            i <= columns.len(),
            columns.len() == exprs.len(),
            keys.len() == i,
            forall|k: int|
                0 <= k < i ==> (#[trigger] keys[k]).column@ == columns[k]@ && keys[k].descending
                    == !exprs[k].asc,
        decreases columns.len() - i,
    {
        keys.push(SortKey { column: columns[i].clone(), descending: !exprs[i].asc });
        i = i + 1;
    }
    proof {
        assert(views(keys@) =~= sort_keys_of(views(columns@), views(exprs@)));
    }
    let rows = match sort_rows(&keys) {
        Ok(v) => v,
        Err(e) => return Err(e),
    };
    let cols = match take_columns(all, &rows) {
        Ok(v) => v,
        Err(e) => return Err(e),
    };
    match Batch::try_new(schema, &cols, None) {
        Ok(b) => {
            proof {
                assert forall|i: int| 0 <= i < b@.fields.len() implies carries(
                    (#[trigger] b@.fields[i]).data_type,
                ) by {
                    assert(views(cols@)[i].data_type == all@.columns[i].data_type);
                    assert(carries(all@.fields[i].data_type));
                }
            }
            Ok(b)
        },
        Err(e) => Err(e),
    }
}

/// Several carried batches, one below the other, are carried.
pub proof fn lemma_stacked_carried(bs: Seq<BatchView>)
    requires
        bs.len() > 0,
        carried(bs[0]),
    ensures
        carried(stacked_batch(bs)),
{
}

/// All the rows of whatever is given, sorted.
pub open spec fn sort_streams(
    exprs: Seq<SortView>,
    fields: Seq<FieldView>,
    s: spec_fn(Sums) -> Stream,
) -> spec_fn(Sums) -> Stream {
    |o: Sums| sort_stream(exprs, fields, s(o))
}

/// Sorts all input in memory then returns the sorted result (single batch).
pub struct SortExec<C: PhysicalPlan + ?Sized> {
    child: Box<C>,
    sort_exprs: Vec<SortExpr>,
    schema: Schema,
    out: Option<Buffered>,
}

impl<C: PhysicalPlan + ?Sized> SortExec<C> {
    /// Creates a sort; buffers full input on first `next_batch` call.
    pub fn new(child: Box<C>, sort_exprs: Vec<SortExpr>) -> (r: Result<SortExec<C>, ArborError>)
        ensures
            r matches Ok(x) && x.pending() == sort_streams(
                views(sort_exprs@),
                child.layout(),
                child.pending(),
            ) && x.layout() == child.layout(),
    {
        let schema = child.schema();
        Ok(SortExec { child, sort_exprs, schema, out: None })
    }

    /// Reads and sorts the whole input.
    fn fill(&mut self) -> (r: Result<Buffered, ArborError>)
        ensures
            final(self).sort_exprs == old(self).sort_exprs,
            final(self).schema == old(self).schema,
            final(self).out == old(self).out,
            exists|o: Sums| #[trigger]
                fills(
                    r,
                    sort_stream(
                        views(old(self).sort_exprs@),
                        old(self).schema@,
                        old(self).child.pending()(o),
                    ),
                ),
    {
        let ghost input = self.child.pending();
        let read = collect(&mut *self.child);
        let ghost o = choose|o: Sums| #[trigger] drains(read, input(o));
        let r = self.sort_all(read);
        assert(fills(r, sort_stream(views(self.sort_exprs@), self.schema@, input(o))));
        r
    }

    /// Sorts all that was read.
    fn sort_all(&self, read: Result<Vec<Batch>, ArborError>) -> (r: Result<Buffered, ArborError>)
        requires
            read matches Ok(v) ==> forall|i: int|
                0 <= i < v.len() ==> carried((#[trigger] v[i])@),
        ensures
            forall|s: Stream| #[trigger] drains(read, s) ==> fills(
                r,
                sort_stream(views(self.sort_exprs@), self.schema@, s),
            ),
    {
        let batches = match read {
            Ok(v) => v,
            Err(e) => return Err(e),
        };
        let mut out: Vec<Batch> = Vec::new();
        if batches.len() == 0 {
            proof {
                assert(views(out@) =~= Seq::empty());
            }
            return Ok(Buffered::new(out));
        }
        let all = match Batch::concat(&batches) {
            Ok(b) => b,
            Err(e) => return Err(e),
        };
        proof {
            assert(views(batches@)[0] == batches[0]@);
            lemma_stacked_carried(views(batches@));
        }
        let sorted = match sort_batch(&self.sort_exprs, &self.schema, &all) {
            Ok(b) => b,
            Err(e) => return Err(e),
        };
        out.push(sorted);
        proof {
            assert(views(out@) =~= seq![sorted@]);
        }
        Ok(Buffered::new(out))
    }
}

impl<C: PhysicalPlan + ?Sized> PhysicalPlan for SortExec<C> {
    closed spec fn pending(&self) -> spec_fn(Sums) -> Stream {
        match self.out {
            None => sort_streams(views(self.sort_exprs@), self.schema@, self.child.pending()),
            Some(b) => fixed(Stream { batches: b.left(), end: End::Done }),
        }
    }

    closed spec fn fuel(&self) -> nat {
        match self.out {
            None => usize::MAX as nat + 1,
            Some(b) => b.left().len(),
        }
    }

    closed spec fn layout(&self) -> Seq<FieldView> {
        self.schema@
    }

    fn schema(&self) -> (r: Schema) {
        self.schema.clone()
    }

    fn next_batch(&mut self) -> (r: Result<Option<Batch>, ArborError>) {
        let ghost was = self.pending();
        let ghost input = self.child.pending();
        let taken = self.out.take();
        let ghost fresh = taken is None;
        let ghost given = taken;
        let filled = match taken {
            Some(b) => Ok(b),
            None => self.fill(),
        };
        let ghost o = choose|o: Sums| #[trigger] fills(
            filled,
            sort_stream(views(self.sort_exprs@), self.schema@, input(o)),
        );
        match filled {
            Err(e) => {
                let r: Result<Option<Batch>, ArborError> = Err(e);
                proof {
                    assert forall|q: Sums| begins(was, r, #[trigger] self.pending()(q)) by {
                        assert(stepped(was(o), r, self.pending()(q)));
                    }
                }
                r
            },
            Ok(b) => {
                let mut buffer = b;
                let r = Ok(buffer.next());
                self.out = Some(buffer);
                proof {
                    assert forall|q: Sums| begins(was, r, #[trigger] self.pending()(q)) by {
                        assert(stepped(was(o), r, self.pending()(q)));
                    }
                }
                r
            },
        }
    }
}

} // verus!
