//! Boolean filter operator.

use vstd::prelude::*;
use crate::error::{ArborError, ErrorView};
use crate::executor::batch::{agrees, carried, filtered_batch, Batch, BatchView, Fault, Outcome};
use crate::executor::sums::Sums;
use crate::executor::expr_eval::{evaluate_expr, evaluated};
use crate::executor::{begins, ends, lemma_after, stepped, stops, End, PhysicalPlan, Stream};
use crate::planner::logical_plan::{Expr, ExprView};
use crate::types::{DataType, FieldView, Schema};

verus! {

/// How keeping the rows of a batch for which a predicate is TRUE comes out.
pub open spec fn kept_rows(predicate: ExprView, b: BatchView) -> Outcome<BatchView> {
    match evaluated(predicate, b) {
        Outcome::Value(mask) => if mask.data_type == DataType::Boolean {
            Outcome::Value(filtered_batch(b, mask.cells))
        } else {
            Outcome::Fault(Fault::Said(ErrorView::Execution("filter mask must be boolean"@)))
        },
        Outcome::Fault(f) => Outcome::Fault(f),
        Outcome::Open => Outcome::Open,
    }
}

/// The batches of a stream, each with the rows for which the predicate is TRUE; batches of which
/// nothing is left are dropped.
pub open spec fn filter_stream(predicate: ExprView, s: Stream) -> Stream
    decreases s.batches.len(),
{
    if s.batches.len() == 0 {
        ends(s.end)
    } else {
        match kept_rows(predicate, s.batches[0]) {
            Outcome::Value(b) => {
                let rest = filter_stream(predicate, s.rest());
                if b.rows == 0 { rest } else { rest.after(b) }
            },
            other => stops(other),
        }
    }
}

/// The kept rows of whatever is given.
pub open spec fn filter_streams(predicate: ExprView, s: spec_fn(Sums) -> Stream) -> spec_fn(
    Sums,
) -> Stream {
    |o: Sums| filter_stream(predicate, s(o))
}

/// What is left of `s` is still `t`; nothing is known after an open end.
spec fn stays(s: Stream, t: Stream) -> bool {
    s == t || s == ends(End::Open)
}

/// What is left of something that can be given is still `t`.
spec fn remains(s: spec_fn(Sums) -> Stream, t: Stream) -> bool {
    exists|p: Sums| #[trigger] stays(s(p), t)
}

/// Keeps rows where the predicate evaluates to true.
pub struct FilterExec<C: PhysicalPlan + ?Sized> {
    child: Box<C>,
    predicate: Expr,
    schema: Schema,
}

impl<C: PhysicalPlan + ?Sized> FilterExec<C> {
    /// What the input still has to give.
    pub closed spec fn input(&self) -> spec_fn(Sums) -> Stream {
        self.child.pending()
    }

    /// The predicate.
    pub closed spec fn condition(&self) -> ExprView {
        self.predicate@
    }

    /// Wraps `child` with boolean `predicate`.
    pub fn new(child: Box<C>, predicate: Expr) -> (r: Result<FilterExec<C>, ArborError>)
        ensures
            r matches Ok(x) && x.pending() == filter_streams(predicate@, child.pending())
                && x.layout() == child.layout(),
    {
        let schema = child.schema();
        Ok(FilterExec { child, predicate, schema })
    }
}

impl<C: PhysicalPlan + ?Sized> PhysicalPlan for FilterExec<C> {
    open spec fn pending(&self) -> spec_fn(Sums) -> Stream {
        filter_streams(self.condition(), self.input())
    }

    closed spec fn fuel(&self) -> nat {
        self.child.fuel()
    }

    closed spec fn layout(&self) -> Seq<FieldView> {
        self.schema@
    }

    fn schema(&self) -> (r: Schema) {
        self.schema.clone()
    }

    fn next_batch(&mut self) -> (r: Result<Option<Batch>, ArborError>) {
        let ghost start = self.pending();
        let ghost fuel = self.fuel();
        let ghost condition = self.predicate@;
        proof {
            assert forall|o: Sums|
                remains(start, filter_stream(condition, #[trigger] self.child.pending()(o))) by {
                assert(stays(start(o), filter_stream(condition, self.child.pending()(o))));
            }
        }
        loop
            invariant
                start == old(self).pending(),
                fuel == old(self).fuel(),
                condition == self.predicate@,
                self.schema == old(self).schema,
                self.predicate == old(self).predicate,
                self.child.fuel() <= fuel,
                forall|o: Sums|
                    remains(start, filter_stream(condition, #[trigger] self.child.pending()(o))),
            decreases self.child.fuel(),
        {
            let ghost before = self.child.pending();
            let next = self.child.next_batch();
            let ghost after = self.child.pending();
            let step = match next {
                Err(e) => Err(e),
                Ok(None) => Ok(None),
                Ok(Some(batch)) => match keep_rows(&self.predicate, &batch) {
                    Ok(b) => Ok(Some(b)),
                    Err(e) => Err(e),
                },
            };
            let empty = match &step {
                Ok(Some(b)) => b.num_rows() == 0,
                _ => false,
            };
            proof {
                assert forall|o: Sums|
                    if empty {
                        remains(start, filter_stream(condition, #[trigger] after(o)))
                    } else {
                        begins(start, step, filter_stream(condition, after(o)))
                    } by {
                    assert(begins(before, next, after(o)));
                    let q = choose|q: Sums| #[trigger] stepped(before(q), next, after(o));
                    assert(remains(start, filter_stream(condition, before(q))));
                    let p = choose|p: Sums| #[trigger]
                        stays(start(p), filter_stream(condition, before(q)));
                    if let Ok(Some(b)) = step {
                        lemma_after(filter_stream(condition, after(o)), b@);
                    }
                    if empty {
                        assert(stays(start(p), filter_stream(condition, after(o))));
                    } else {
                        assert(stepped(start(p), step, filter_stream(condition, after(o))));
                    }
                }
            }
            if empty {
                continue;
            }
            proof {
                assert forall|o: Sums| begins(start, step, #[trigger] self.pending()(o)) by {
                    assert(after(o) == self.child.pending()(o));
                }
            }
            return step;
        }
    }
}

/// Keeps the rows of one batch where the predicate is TRUE.
fn keep_rows(predicate: &Expr, batch: &Batch) -> (r: Result<Batch, ArborError>)
    requires
        carried(batch@),
    ensures
        agrees(r, kept_rows(predicate@, batch@)),
        r matches Ok(b) ==> carried(b@),
{
    let mask = match evaluate_expr(predicate, batch) {
        Ok(c) => c,
        Err(e) => return Err(e),
    };
    match mask.data_type() {
        DataType::Boolean => {},
        _ => {
            return Err(ArborError::Execution("filter mask must be boolean".to_string()));
        },
    }
    batch.filter(&mask)
}

} // verus!
