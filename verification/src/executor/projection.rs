//! Evaluate expressions into a new batch.

use vstd::prelude::*;
use crate::error::ArborError;
use crate::executor::sums::Sums;
use crate::executor::batch::{
    agrees, assembled, carried, carries, told, well_typed, Batch, BatchView, Column, ColumnView,
    Fault, Outcome,
};
use crate::executor::expr_eval::{evaluate_expr, evaluated};
use crate::executor::{begins, ends, lemma_after, stepped, stops, PhysicalPlan, Stream};
use crate::planner::logical_plan::{Expr, ExprView};
use crate::types::{lemma_views_push, views, FieldView, Schema};

verus! {

/// How evaluating some expressions comes out; the first that gives no column decides.
pub open spec fn evaluated_all(es: Seq<ExprView>, b: BatchView) -> Outcome<Seq<ColumnView>>
    decreases es.len(),
{
    if es.len() == 0 {
        Outcome::Value(Seq::empty())
    } else {
        match evaluated(es[0], b) {
            Outcome::Value(c) => match evaluated_all(es.skip(1), b) {
                Outcome::Value(cs) => Outcome::Value(seq![c] + cs),
                other => other,
            },
            Outcome::Fault(f) => Outcome::Fault(f),
            Outcome::Open => Outcome::Open,
        }
    }
}

/// How projecting a batch comes out.
pub open spec fn projected(
    exprs: Seq<ExprView>,
    fields: Seq<FieldView>,
    b: BatchView,
) -> Outcome<BatchView> {
    match evaluated_all(exprs, b) {
        Outcome::Value(columns) => match assembled(fields, columns, None) {
            Some(x) => Outcome::Value(x),
            None => Outcome::Fault(Fault::Arrow),
        },
        Outcome::Fault(f) => Outcome::Fault(f),
        Outcome::Open => Outcome::Open,
    }
}

/// The batches of a stream, each projected.
pub open spec fn project_stream(
    exprs: Seq<ExprView>,
    fields: Seq<FieldView>,
    s: Stream,
) -> Stream
    decreases s.batches.len(),
{
    if s.batches.len() == 0 {
        ends(s.end)
    } else {
        match projected(exprs, fields, s.batches[0]) {
            Outcome::Value(b) => project_stream(exprs, fields, s.rest()).after(b),
            other => stops(other),
        }
    }
}

/// Evaluates some expressions over one batch.
pub fn evaluate_all(es: &Vec<Expr>, batch: &Batch) -> (r: Result<Vec<Column>, ArborError>)
    requires
        carried(batch@),
    ensures
        match evaluated_all(views(es@), batch@) {
            Outcome::Value(cs) => r matches Ok(v) && views(v@) == cs,
            Outcome::Fault(f) => r matches Err(e) && told(e, f),
            Outcome::Open => true,
        },
        r matches Ok(v) ==> v.len() == es.len() && forall|i: int|
            0 <= i < v.len() ==> (#[trigger] v[i])@.cells.len() == batch@.rows && carries(
                v[i]@.data_type,
            ) && well_typed(v[i]@),
{
    let mut out: Vec<Column> = Vec::new();
    let ghost all = views(es@);
    let ghost whole = evaluated_all(all, batch@);
    let ghost mut known = true;
    let mut i: usize = 0;
    proof {
        assert(all.skip(0) =~= all);
        if whole is Value {
            assert(views(out@) + whole->Value_0 =~= whole->Value_0);
        }
    }
    while i < es.len()
        invariant
            i <= es.len(),
            all == views(es@),
            whole == evaluated_all(all, batch@),
            carried(batch@),
            out.len() == i,
            forall|k: int|
                0 <= k < out.len() ==> (#[trigger] out[k])@.cells.len() == batch@.rows && carries(
                    out[k]@.data_type,
                ) && well_typed(out[k]@),
            known ==> match evaluated_all(all.skip(i as int), batch@) {
                Outcome::Value(rest) => whole == Outcome::Value(views(out@) + rest),
                other => whole == other,
            },
            !known ==> whole is Open,
        decreases es.len() - i,
    {
        let ghost before = views(out@);
        let ghost rest = evaluated_all(all.skip(i + 1), batch@);
        proof {
            assert(all.skip(i as int)[0] == es[i as int]@);
            assert(all.skip(i as int).skip(1) =~= all.skip(i + 1));
        }
        let c = match evaluate_expr(&es[i], batch) {
            Ok(c) => c,
            Err(e) => return Err(e),
        };
        proof {
            if evaluated(es[i as int]@, batch@) is Open {
                known = false;
            }
            lemma_views_push(out@, c);
            if rest is Value {
                assert(before + (seq![c@] + rest->Value_0) =~= before.push(c@) + rest->Value_0);
            }
        }
        out.push(c);
        i = i + 1;
    }
    proof {
        assert(all.skip(i as int) =~= Seq::empty());
        assert(views(out@) + Seq::<ColumnView>::empty() =~= views(out@));
    }
    Ok(out)
}

/// The expressions of some pairs of an expression and its output name.
pub open spec fn pair_exprs(pairs: Seq<(Expr, String)>) -> Seq<ExprView> {
    Seq::new(pairs.len(), |i: int| pairs[i].0@)
}

/// The expressions over whatever is given.
pub open spec fn project_streams(
    exprs: Seq<ExprView>,
    fields: Seq<FieldView>,
    s: spec_fn(Sums) -> Stream,
) -> spec_fn(Sums) -> Stream {
    |o: Sums| project_stream(exprs, fields, s(o))
}

/// Projects a set of expressions with explicit output names and schema.
pub struct ProjectionExec<C: PhysicalPlan + ?Sized> {
    child: Box<C>,
    exprs: Vec<Expr>,
    schema: Schema,
}

impl<C: PhysicalPlan + ?Sized> ProjectionExec<C> {
    /// What the input still has to give.
    pub closed spec fn input(&self) -> spec_fn(Sums) -> Stream {
        self.child.pending()
    }

    /// The expressions.
    pub closed spec fn outputs(&self) -> Seq<ExprView> {
        views(self.exprs@)
    }

    /// Wraps `child` with evaluated expressions. `schema` is the logical output schema.
    pub fn new(child: Box<C>, pairs: Vec<(Expr, String)>, schema: Schema) -> (r: ProjectionExec<C>)
        ensures
            r.pending() == project_streams(pair_exprs(pairs@), schema@, child.pending()),
            r.layout() == schema@,
    {
        let mut exprs: Vec<Expr> = Vec::new();
        let mut i: usize = 0;
        while i < pairs.len()
            invariant
                i <= pairs.len(),
                exprs.len() == i,
                forall|k: int| 0 <= k < i ==> (#[trigger] exprs[k])@ == pairs[k].0@,
            decreases pairs.len() - i,
        {
            exprs.push(pairs[i].0.clone());
            i = i + 1;
        }
        proof {
            assert(views(exprs@) =~= pair_exprs(pairs@));
        }
        ProjectionExec { child, exprs, schema }
    }
}

impl<C: PhysicalPlan + ?Sized> PhysicalPlan for ProjectionExec<C> {
    open spec fn pending(&self) -> spec_fn(Sums) -> Stream {
        project_streams(self.outputs(), self.layout(), self.input())
    }

    closed spec fn fuel(&self) -> nat {
        self.child.fuel()
    }

    closed spec fn layout(&self) -> Seq<FieldView> {
        self.schema@
    }

    fn schema(&self) -> (r: Schema) {
        self.schema.clone()
    }

    fn next_batch(&mut self) -> (r: Result<Option<Batch>, ArborError>) {
        let ghost was = self.pending();
        let ghost before = self.child.pending();
        let next = self.child.next_batch();
        let ghost after = self.child.pending();
        let r = match next {
            Err(e) => Err(e),
            Ok(None) => Ok(None),
            Ok(Some(batch)) => match project_batch(&self.exprs, &self.schema, &batch) {
                Ok(b) => Ok(Some(b)),
                Err(e) => Err(e),
            },
        };
        proof {
            assert forall|o: Sums| begins(was, r, #[trigger] self.pending()(o)) by {
                assert(begins(before, next, after(o)));
                let p = choose|p: Sums| #[trigger] stepped(before(p), next, after(o));
                if let Ok(Some(b)) = r {
                    lemma_after(self.pending()(o), b@);
                }
                assert(stepped(was(p), r, self.pending()(o)));
            }
        }
        r
    }
}

/// Evaluates the expressions over one batch and puts the columns together.
fn project_batch(exprs: &Vec<Expr>, schema: &Schema, batch: &Batch) -> (r: Result<Batch, ArborError>)
    requires
        carried(batch@),
    ensures
        agrees(r, projected(views(exprs@), schema@, batch@)),
        r matches Ok(b) ==> carried(b@),
{
    let columns = match evaluate_all(exprs, batch) {
        Ok(v) => v,
        Err(e) => return Err(e),
    };
    match Batch::try_new(schema, &columns, None) {
        Ok(b) => {
            proof {
                assert forall|i: int| 0 <= i < b@.fields.len() implies carries(
                    (#[trigger] b@.fields[i]).data_type,
                ) by {
                    assert(views(columns@)[i] == columns[i]@);
                    assert(b@.columns[i].data_type == columns[i]@.data_type);
                }
            }
            Ok(b)
        },
        Err(e) => Err(e),
    }
}

} // verus!
