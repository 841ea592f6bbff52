//! Table scan: what a scan asks of a file, and how file batches become batches of the plan.

use vstd::prelude::*;
use crate::error::{ArborError, ErrorView};
use crate::executor::batch::{
    agrees, assembled, carried, carries, Batch, BatchView, Column, ColumnView, Fault, Outcome,
};
use crate::executor::expr_eval::{
    batch_column_index, column_at, evaluate_expr, evaluated, no_column,
};
use crate::executor::sums::Sums;
use crate::executor::{begins, ends, fixed, lemma_after, stepped, stops, End, PhysicalPlan, Stream};
use crate::optimizer::columns::{collect_columns, columns};
use crate::planner::logical_plan::{Expr, ExprView, LogicalPlan, PlanView};
use crate::text::{chars_of, digits, digits_text, join2, join3};
use crate::types::{lemma_views_push, names, views, DataType, Field, FieldView, Schema};

verus! {

/// The index of the last dot, or -1 where there is none.
pub open spec fn last_dot(s: Seq<char>) -> int
    decreases s.len(),
{
    if s.len() == 0 {
        -1
    } else if s.last() == '.' {
        s.len() - 1
    } else {
        last_dot(s.drop_last())
    }
}

/// The name in a column key: what stands after the last dot.
pub open spec fn key_name(key: Seq<char>) -> Seq<char> {
    if last_dot(key) < 0 { key } else { key.skip(last_dot(key) + 1) }
}

/// The qualifier in a column key: what stands before the last dot.
pub open spec fn key_relation(key: Seq<char>) -> Option<Seq<char>> {
    if last_dot(key) < 0 { None } else { Some(key.take(last_dot(key))) }
}

/// The last dot stands in the text.
pub proof fn lemma_last_dot(s: Seq<char>)
    ensures
        -1 <= last_dot(s) < s.len(),
    decreases s.len(),
{
    if s.len() > 0 && s.last() != '.' {
        lemma_last_dot(s.drop_last());
    }
}

/// Splits a column key into name and qualifier.
pub fn split_column_key(key: &str) -> (r: (&str, Option<&str>))
    ensures
        r.0@ == key_name(key@),
        match r.1 {
            Some(q) => key_relation(key@) == Some(q@),
            None => key_relation(key@) is None,
        },
{
    let v = chars_of(key);
    let n: usize = v.len();
    let mut i: usize = n;
    proof {
        assert(v@.take(n as int) =~= v@);
        lemma_last_dot(key@);
    }
    while i > 0
        invariant
            i <= n,
            n == v.len(),
            v@ == key@,
            last_dot(key@) == last_dot(v@.take(i as int)),
        decreases i,
    {
        i = i - 1;
        proof {
            assert(v@.take(i + 1).drop_last() =~= v@.take(i as int));
            assert(v@.take(i + 1).last() == v@[i as int]);
        }
        if v[i] == '.' {
            let name = key.substring_char(i + 1, n);
            let relation = key.substring_char(0, i);
            proof {
                assert(name@ =~= key@.skip(i + 1));
                assert(relation@ =~= key@.take(i as int));
            }
            return (name, Some(relation));
        }
    }
    (key, None)
}

/// The index of the column that a key means.
pub open spec fn key_column(fields: Seq<FieldView>, key: Seq<char>) -> Option<int> {
    column_at(fields, key_name(key), key_relation(key))
}

/// The numbers ascend, each once.
pub open spec fn ascending(v: Seq<usize>) -> bool {
    forall|i: int, j: int| 0 <= i < j < v.len() ==> v[i] < v[j]
}

/// Puts a number into an ascending list, unless it is there already.
fn insert_ascending(v: &mut Vec<usize>, x: usize)
    requires
        ascending(old(v)@),
    ensures
        ascending(final(v)@),
        final(v)@.to_set() == old(v)@.to_set().insert(x),
{
    let ghost before = v@;
    let mut i: usize = 0;
    while i < v.len() && v[i] < x
        invariant
            i <= v.len(),
            v@ == before,
            forall|k: int| 0 <= k < i ==> v[k] < x,
        decreases v.len() - i,
    {
        i = i + 1;
    }
    if i < v.len() && v[i] == x {
        proof {
            assert(before.contains(before[i as int]));
            assert(before.to_set() =~= before.to_set().insert(x));
        }
        return;
    }
    v.insert(i, x);
    proof {
        assert forall|n: usize| v@.to_set().contains(n) <==> before.to_set().insert(x).contains(n) by {
            if v@.contains(n) {
                let k = choose|k: int| 0 <= k < v@.len() && v@[k] == n;
                if k < i {
                    assert(before[k] == n);
                } else if k > i {
                    assert(before[k - 1] == n);
                }
            }
            if before.contains(n) {
                let k = choose|k: int| 0 <= k < before.len() && before[k] == n;
                if k < i {
                    assert(v@[k] == n);
                } else {
                    assert(v@[k + 1] == n);
                }
            }
            if n == x {
                assert(v@[i as int] == n);
            }
        }
        assert(v@.to_set() =~= before.to_set().insert(x));
    }
}

/// Some key of the set means the column `i`.
pub open spec fn is_read(keys: Set<Seq<char>>, fields: Seq<FieldView>, i: usize) -> bool {
    exists|k: Seq<char>| #[trigger] keys.contains(k) && key_column(fields, k) == Some(i as int)
}

/// The file columns that a predicate reads, ascending.
pub fn row_filter_columns(predicate: &Expr, logical: &Schema) -> (r: Result<Vec<usize>, ArborError>)
    ensures
        match r {
            Ok(v) => {
                &&& ascending(v@)
                &&& forall|k: Seq<char>| #[trigger]
                    columns(predicate@).contains(k) ==> key_column(logical@, k) is Some
                &&& forall|i: usize|
                    v@.to_set().contains(i) <==> #[trigger] is_read(
                        columns(predicate@),
                        logical@,
                        i,
                    )
            },
            Err(e) => exists|k: Seq<char>| #[trigger]
                columns(predicate@).contains(k) && key_column(logical@, k) is None && e@
                    == no_column(key_name(k), key_relation(k)),
        },
{
    let set = collect_columns(predicate);
    let keys = set.names();
    let ghost all = views(keys@);
    let mut out: Vec<usize> = Vec::new();
    let mut i: usize = 0;
    while i < keys.len()
        invariant
            i <= keys.len(),
            all == views(keys@),
            all.to_set() == columns(predicate@),
            ascending(out@),
            forall|k: int| 0 <= k < i ==> key_column(logical@, #[trigger] all[k]) is Some,
            forall|c: usize|
                out@.to_set().contains(c) <==> exists|k: int|
                    0 <= k < i && key_column(logical@, #[trigger] all[k]) == Some(c as int),
        decreases keys.len() - i,
    {
        let (base, relation) = split_column_key(keys[i].as_str());
        let owned: Option<String> = match relation {
            Some(q) => Some(q.to_string()),
            None => None,
        };
        proof {
            assert(all[i as int] == keys[i as int]@);
            assert(all.to_set().contains(all[i as int]));
        }
        match batch_column_index(logical, base, owned.as_ref()) {
            Ok(idx) => {
                let ghost before = out@;
                insert_ascending(&mut out, idx);
                proof {
                    assert(key_column(logical@, all[i as int]) == Some(idx as int));
                    assert forall|c: usize| out@.to_set().contains(c) <==> exists|k: int|
                        0 <= k < i + 1 && key_column(logical@, #[trigger] all[k]) == Some(
                            c as int,
                        ) by {
                        if out@.to_set().contains(c) {
                            if c == idx {
                                assert(key_column(logical@, all[i as int]) == Some(c as int));
                            } else {
                                assert(before.to_set().contains(c));
                            }
                        }
                    }
                }
            },
            Err(e) => {
                return Err(e);
            },
        }
        i = i + 1;
    }
    proof {
        assert forall|k: Seq<char>| #[trigger] columns(predicate@).contains(k) implies key_column(
            logical@,
            k,
        ) is Some by {
            assert(all.to_set().contains(k));
            let j = choose|j: int| 0 <= j < all.len() && all[j] == k;
            assert(key_column(logical@, all[j]) is Some);
        }
        assert forall|c: usize| out@.to_set().contains(c) <==> #[trigger] is_read(
            columns(predicate@),
            logical@,
            c,
        ) by {
            if out@.to_set().contains(c) {
                let k = choose|k: int|
                    0 <= k < i && key_column(logical@, #[trigger] all[k]) == Some(c as int);
                assert(columns(predicate@).contains(all[k]));
            }
            if is_read(columns(predicate@), logical@, c) {
                let key = choose|k: Seq<char>| #[trigger]
                    columns(predicate@).contains(k) && key_column(logical@, k) == Some(c as int);
                assert(all.to_set().contains(key));
                let j = choose|j: int| 0 <= j < all.len() && all[j] == key;
                assert(key_column(logical@, all[j]) == Some(c as int));
            }
        }
    }
    Ok(out)
}

/// The expression over the columns of the file in place of those of the plan.
pub open spec fn file_expr(
    e: ExprView,
    logical: Seq<FieldView>,
    file: Seq<FieldView>,
) -> Result<ExprView, ErrorView>
    decreases e,
{
    match e {
        ExprView::Column { name, relation } => match column_at(logical, name, relation) {
            None => Err(no_column(name, relation)),
            Some(i) => if i < file.len() {
                Ok(ExprView::Column { name: file[i].name, relation: None })
            } else {
                Err(
                    ErrorView::Execution(
                        "column index "@ + digits(i as nat) + " out of file schema"@,
                    ),
                )
            },
        },
        ExprView::Binary { left, op, right } => match file_expr(*left, logical, file) {
            Err(x) => Err(x),
            Ok(l) => match file_expr(*right, logical, file) {
                Err(x) => Err(x),
                Ok(r) => Ok(ExprView::Binary { left: Box::new(l), op, right: Box::new(r) }),
            },
        },
        ExprView::Alias { expr, name } => match file_expr(*expr, logical, file) {
            Err(x) => Err(x),
            Ok(x) => Ok(ExprView::Alias { expr: Box::new(x), name }),
        },
        ExprView::Aggregate { func, arg } => match file_expr(*arg, logical, file) {
            Err(x) => Err(x),
            Ok(x) => Ok(ExprView::Aggregate { func, arg: Box::new(x) }),
        },
        _ => Ok(e),
    }
}

/// Puts the columns of the file in place of those of the plan.
pub fn rewrite_expr_file_names(expr: &Expr, logical: &Schema, file: &Schema) -> (r: Result<
    Expr,
    ArborError,
>)
    ensures
        crate::error::result_view(r) == file_expr(expr@, logical@, file@),
    decreases expr,
{
    match expr {
        Expr::Column { name, relation } => {
            match batch_column_index(logical, name.as_str(), relation.as_ref()) {
                Ok(idx) => {
                    if idx < file.fields.len() {
                        Ok(Expr::Column { name: file.fields[idx].name.clone(), relation: None })
                    } else {
                        let number = digits_text(idx as u64);
                        Err(
                            ArborError::Execution(
                                join3("column index ", number.as_str(), " out of file schema"),
                            ),
                        )
                    }
                },
                Err(e) => Err(e),
            }
        },
        Expr::BinaryExpr { left, op, right } => {
            let l = match rewrite_expr_file_names(left, logical, file) {
                Ok(x) => x,
                Err(e) => return Err(e),
            };
            let r = match rewrite_expr_file_names(right, logical, file) {
                Ok(x) => x,
                Err(e) => return Err(e),
            };
            Ok(Expr::BinaryExpr { left: Box::new(l), op: *op, right: Box::new(r) })
        },
        Expr::Alias { expr, name } => match rewrite_expr_file_names(expr, logical, file) {
            Ok(x) => Ok(Expr::Alias { expr: Box::new(x), name: name.clone() }),
            Err(e) => Err(e),
        },
        Expr::AggregateFunc { func, arg } => match rewrite_expr_file_names(arg, logical, file) {
            Ok(x) => Ok(Expr::AggregateFunc { func: *func, arg: Box::new(x) }),
            Err(e) => Err(e),
        },
        other => Ok(other.clone()),
    }
}

/// How testing the rows of a file batch against a predicate comes out.
pub open spec fn scan_test(predicate: ExprView, b: BatchView) -> Outcome<ColumnView> {
    match evaluated(predicate, b) {
        Outcome::Value(c) => if c.data_type == DataType::Boolean {
            Outcome::Value(c)
        } else {
            Outcome::Fault(Fault::Said(ErrorView::Execution("scan predicate must be boolean"@)))
        },
        other => other,
    }
}

/// Tests the rows of a file batch against a predicate over the columns of the file.
pub fn scan_mask(predicate: &Expr, batch: &Batch) -> (r: Result<Column, ArborError>)
    requires
        carried(batch@),
    ensures
        agrees(r, scan_test(predicate@, batch@)),
        r matches Ok(c) ==> c@.data_type == DataType::Boolean && c@.cells.len() == batch@.rows,
{
    match evaluate_expr(predicate, batch) {
        Ok(c) => match c.data_type() {
            DataType::Boolean => Ok(c),
            _ => Err(ArborError::Execution("scan predicate must be boolean".to_string())),
        },
        Err(e) => Err(e),
    }
}

/// How putting the fields of the plan over a file batch comes out.
pub open spec fn remapped(fields: Seq<FieldView>, b: BatchView) -> Outcome<BatchView> {
    if b.columns.len() != fields.len() {
        Outcome::Fault(
            Fault::Said(
                ErrorView::Execution(
                    "column mismatch: batch "@ + digits(b.columns.len()) + " logical "@ + digits(
                        fields.len(),
                    ),
                ),
            ),
        )
    } else {
        match assembled(fields, b.columns, Some(b.rows)) {
            Some(x) => Outcome::Value(x),
            None => Outcome::Fault(Fault::Arrow),
        }
    }
}

/// The batches of a file, each under the fields of the plan.
pub open spec fn scan_stream(fields: Seq<FieldView>, s: Stream) -> Stream
    decreases s.batches.len(),
{
    if s.batches.len() == 0 {
        ends(s.end)
    } else {
        match remapped(fields, s.batches[0]) {
            Outcome::Value(b) => scan_stream(fields, s.rest()).after(b),
            other => stops(other),
        }
    }
}

/// Puts the fields of the plan over a file batch; the rows stay, even without columns.
pub fn remap_batch_schema(batch: &Batch, logical: &Schema) -> (r: Result<Batch, ArborError>)
    requires
        carried(batch@),
    ensures
        agrees(r, remapped(logical@, batch@)),
        r matches Ok(b) ==> carried(b@),
{
    let n: usize = batch.num_columns();
    if n != logical.fields.len() {
        let a = join3("column mismatch: batch ", digits_text(n as u64).as_str(), " logical ");
        let b = digits_text(logical.fields.len() as u64);
        return Err(ArborError::Execution(join2(a.as_str(), b.as_str())));
    }
    let mut columns: Vec<Column> = Vec::new();
    let mut i: usize = 0;
    while i < n
        invariant
            i <= n,
            n == batch@.columns.len(),
            columns.len() == i,
            forall|k: int| 0 <= k < i ==> (#[trigger] columns[k])@ == batch@.columns[k],
        decreases n - i,
    {
        columns.push(batch.column(i));
        i = i + 1;
    }
    proof {
        assert(views(columns@) =~= batch@.columns);
    }
    match Batch::try_new(logical, &columns, Some(batch.num_rows())) {
        Ok(b) => {
            proof {
                assert forall|i: int| 0 <= i < b@.fields.len() implies carries(
                    (#[trigger] b@.fields[i]).data_type,
                ) by {
                    assert(carries(batch@.fields[i].data_type));
                    assert(batch@.columns[i].data_type == batch@.fields[i].data_type);
                }
            }
            Ok(b)
        },
        Err(e) => Err(e),
    }
}

/// Reads a file into batches under the fields of the plan. Without a reader there are no rows.
pub struct ScanExec<S: PhysicalPlan> {
    reader: Option<S>,
    schema: Schema,
}

/// What an optional reader has to give.
pub open spec fn reader_streams<S: PhysicalPlan>(reader: Option<S>) -> spec_fn(Sums) -> Stream {
    match reader {
        Some(s) => s.pending(),
        None => fixed(ends(End::Done)),
    }
}

/// The batches of whatever is given, each under the fields of the plan.
pub open spec fn scan_streams(fields: Seq<FieldView>, s: spec_fn(Sums) -> Stream) -> spec_fn(
    Sums,
) -> Stream {
    |o: Sums| scan_stream(fields, s(o))
}

impl<S: PhysicalPlan> ScanExec<S> {
    /// What the file still has to give.
    pub closed spec fn input(&self) -> spec_fn(Sums) -> Stream {
        reader_streams(self.reader)
    }

    /// A scan of what `reader` gives, under the fields of `output_schema`.
    pub fn new(reader: Option<S>, output_schema: Schema) -> (r: ScanExec<S>)
        ensures
            r.pending() == scan_streams(output_schema@, reader_streams(reader)),
            r.layout() == output_schema@,
    {
        ScanExec { reader, schema: output_schema }
    }
}

impl<S: PhysicalPlan> PhysicalPlan for ScanExec<S> {
    open spec fn pending(&self) -> spec_fn(Sums) -> Stream {
        scan_streams(self.layout(), self.input())
    }

    closed spec fn fuel(&self) -> nat {
        match self.reader {
            Some(s) => s.fuel(),
            None => 0,
        }
    }

    closed spec fn layout(&self) -> Seq<FieldView> {
        self.schema@
    }

    fn schema(&self) -> (r: Schema) {
        self.schema.clone()
    }

    fn next_batch(&mut self) -> (r: Result<Option<Batch>, ArborError>) {
        let ghost was = self.pending();
        let ghost before = self.input();
        let mut reader = match self.reader.take() {
            Some(s) => s,
            None => {
                let r: Result<Option<Batch>, ArborError> = Ok(None);
                proof {
                    assert forall|o: Sums| begins(was, r, #[trigger] self.pending()(o)) by {
                        assert(stepped(was(o), r, self.pending()(o)));
                    }
                }
                return r;
            },
        };
        let next = reader.next_batch();
        self.reader = Some(reader);
        let ghost after = self.input();
        let r = match next {
            Err(e) => Err(e),
            Ok(None) => Ok(None),
            Ok(Some(batch)) => match remap_batch_schema(&batch, &self.schema) {
                Ok(b) => Ok(Some(b)),
                Err(e) => Err(e),
            },
        };
        proof {
            assert forall|o: Sums| begins(was, r, #[trigger] self.pending()(o)) by {
                assert(begins(before, next, after(o)));
                let p = choose|p: Sums| #[trigger] stepped(before(p), next, after(o));
                if let Ok(Some(b)) = r {
                    lemma_after(self.pending()(o), b@);
                }
                assert(stepped(was(p), r, self.pending()(o)));
            }
        }
        r
    }
}

/// What a scan asks of a file.
#[derive(Debug)]
pub struct ScanRequest {
    /// The table to read.
    pub table_name: String,
    /// The file columns to read, or all of them.
    pub projection: Option<Vec<usize>>,
    /// The fields of the columns to read.
    pub output_schema: Schema,
    /// The fields of all columns.
    pub full_schema: Schema,
    /// A predicate that every row that is used satisfies.
    pub predicate: Option<Expr>,
}

/// The value of a [`ScanRequest`].
pub struct RequestView {
    pub table: Seq<char>,
    pub projection: Option<Seq<usize>>,
    pub output: Seq<FieldView>,
    pub full: Seq<FieldView>,
    pub predicate: Option<ExprView>,
}

impl View for ScanRequest {
    type V = RequestView;

    open spec fn view(&self) -> RequestView {
        RequestView {
            table: self.table_name@,
            projection: match self.projection {
                Some(v) => Some(v@),
                None => None,
            },
            output: self.output_schema@,
            full: self.full_schema@,
            predicate: match self.predicate {
                Some(e) => Some(e@),
                None => None,
            },
        }
    }
}

/// The fields at some indices; an index beyond the fields is skipped.
pub open spec fn fields_at(schema: Seq<FieldView>, idxs: Seq<usize>) -> Seq<FieldView>
    decreases idxs.len(),
{
    if idxs.len() == 0 {
        Seq::empty()
    } else {
        let rest = fields_at(schema, idxs.drop_last());
        if idxs.last() < schema.len() { rest.push(schema[idxs.last() as int]) } else { rest }
    }
}

/// The fields that a scan delivers.
pub open spec fn scan_fields(schema: Seq<FieldView>, projection: Option<Seq<usize>>) -> Seq<
    FieldView,
> {
    match projection {
        None => schema,
        Some(idxs) => fields_at(schema, idxs),
    }
}

/// What the scan of a plan asks of its file, a filter directly above it given as predicate.
pub open spec fn request_of(p: PlanView, predicate: Option<ExprView>) -> Seq<RequestView> {
    match p {
        PlanView::Scan { table, schema, projection } => seq![
            RequestView {
                table,
                projection,
                output: scan_fields(schema, projection),
                full: schema,
                predicate,
            },
        ],
        _ => Seq::empty(),
    }
}

/// What the scans of a plan ask of their files, from left to right.
pub open spec fn requests(p: PlanView) -> Seq<RequestView>
    decreases p,
{
    match p {
        PlanView::Scan { .. } => request_of(p, None),
        PlanView::Filter { predicate, input } => if *input is Scan {
            request_of(*input, Some(predicate))
        } else {
            requests(*input)
        },
        PlanView::Projection { input, .. } => requests(*input),
        PlanView::Aggregate { input, .. } => requests(*input),
        PlanView::Sort { input, .. } => requests(*input),
        PlanView::Join { left, right, .. } => requests(*left) + requests(*right),
        PlanView::Limit { input, .. } => requests(*input),
        PlanView::Empty { .. } => Seq::empty(),
    }
}

/// The fields at some indices.
fn pick_fields(schema: &Schema, idxs: &Vec<usize>) -> (r: Schema)
    ensures
        r@ == fields_at(schema@, idxs@),
{
    let mut fields: Vec<Field> = Vec::new();
    let mut i: usize = 0;
    proof {
        assert(idxs@.take(0) =~= Seq::empty());
        assert(views(fields@) =~= Seq::empty());
    }
    while i < idxs.len()
        invariant
            i <= idxs.len(),
            views(fields@) == fields_at(schema@, idxs@.take(i as int)),
        decreases idxs.len() - i,
    {
        proof {
            assert(idxs@.take(i + 1).drop_last() =~= idxs@.take(i as int));
        }
        let k: usize = idxs[i];
        if k < schema.fields.len() {
            let f = schema.fields[k].clone();
            proof {
                lemma_views_push(fields@, f);
            }
            fields.push(f);
        }
        i = i + 1;
    }
    proof {
        assert(idxs@.take(i as int) =~= idxs@);
    }
    Schema { fields }
}

/// The fields that a scan delivers.
pub fn scan_output_schema(schema: &Schema, projection: &Option<Vec<usize>>) -> (r: Schema)
    ensures
        r@ == scan_fields(
            schema@,
            match *projection {
                Some(v) => Some(v@),
                None => None,
            },
        ),
{
    match projection {
        None => schema.clone(),
        Some(idxs) => pick_fields(schema, idxs),
    }
}

/// What a scan asks of its file.
fn make_request(
    table_name: &String,
    schema: &Schema,
    projection: &Option<Vec<usize>>,
    predicate: Option<Expr>,
) -> (r: ScanRequest)
    ensures
        seq![r@] == request_of(
            PlanView::Scan {
                table: table_name@,
                schema: schema@,
                projection: match *projection {
                    Some(v) => Some(v@),
                    None => None,
                },
            },
            match predicate {
                Some(e) => Some(e@),
                None => None,
            },
        ),
{
    let columns: Option<Vec<usize>> = match projection {
        Some(v) => Some(v.clone()),
        None => None,
    };
    proof {
        if projection is Some {
            assert(columns->Some_0@ =~= projection->Some_0@);
        }
    }
    ScanRequest {
        table_name: table_name.clone(),
        projection: columns,
        output_schema: scan_output_schema(schema, projection),
        full_schema: schema.clone(),
        predicate,
    }
}

/// What the scans of a plan ask of their files, from left to right.
pub fn scan_requests(plan: &LogicalPlan) -> (r: Vec<ScanRequest>)
    ensures
        views(r@) == requests(plan@),
    decreases plan,
{
    match plan {
        LogicalPlan::Scan { table_name, schema, projection } => {
            let mut out: Vec<ScanRequest> = Vec::new();
            out.push(make_request(table_name, schema, projection, None));
            proof {
                assert(views(out@) =~= requests(plan@));
            }
            out
        },
        LogicalPlan::Filter { predicate, input } => {
            proof {
                assert((**input)@ is Scan <==> **input is Scan);
            }
            match &**input {
                LogicalPlan::Scan { table_name, schema, projection } => {
                    let mut out: Vec<ScanRequest> = Vec::new();
                    out.push(make_request(table_name, schema, projection, Some(predicate.clone())));
                    proof {
                        assert((**input)@ == PlanView::Scan {
                            table: table_name@,
                            schema: schema@,
                            projection: match *projection {
                                Some(v) => Some(v@),
                                None => None,
                            },
                        });
                        assert(views(out@) =~= requests(plan@));
                    }
                    out
                },
                _ => scan_requests(input),
            }
        },
        LogicalPlan::Projection { input, .. } => scan_requests(input),
        LogicalPlan::Aggregate { input, .. } => scan_requests(input),
        LogicalPlan::Sort { input, .. } => scan_requests(input),
        LogicalPlan::Join { left, right, .. } => {
            let mut out = scan_requests(left);
            let mut more = scan_requests(right);
            let ghost a = out@;
            let ghost b = more@;
            out.append(&mut more);
            proof {
                assert(views(out@) =~= views(a) + views(b));
            }
            out
        },
        LogicalPlan::Limit { input, .. } => scan_requests(input),
        LogicalPlan::Empty { .. } => {
            let out: Vec<ScanRequest> = Vec::new();
            proof {
                assert(views(out@) =~= Seq::empty());
            }
            out
        },
    }
}

} // verus!
