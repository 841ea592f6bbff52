//! Physical execution: pull-based operators over record batches.

pub mod accumulator;
pub mod aggregate;
pub mod batch;
pub mod buffered;
pub mod expr_eval;
pub mod filter_exec;
pub mod full_table;
pub mod join;
pub mod keys;
pub mod limit_exec;
pub mod physical;
pub mod projection;
pub mod prune;
pub mod scan;
pub mod sort;
pub mod sums;

use vstd::prelude::*;
use sums::Sums;
use crate::error::ArborError;
use crate::types::{views, FieldView, Schema};
use buffered::Buffered;
use batch::{carried, told, Batch, BatchView, Fault, Outcome};

pub use aggregate::HashAggregateExec;
pub use batch::Column;
pub use expr_eval::evaluate_expr;
pub use filter_exec::FilterExec;
pub use join::HashJoinExec;
pub use limit_exec::LimitExec;
pub use physical::create_physical_plan;
pub use projection::ProjectionExec;
pub use prune::{prune_row_groups, RowGroupPruneStats};
pub use scan::{scan_requests, ScanExec, ScanRequest};
pub use sort::SortExec;

verus! {

/// Standard batch size (rows) for readers and operators.
pub const BATCH_SIZE: usize = 8192;

/// How a sequence of batches ends.
pub enum End {
    /// There are no more batches.
    Done,
    /// The next batch fails.
    Failed(Fault),
    /// What comes next is left open.
    Open,
}

/// What an operator still has to give: some batches, then an end.
pub struct Stream {
    pub batches: Seq<BatchView>,
    pub end: End,
}

impl Stream {
    /// The stream without its first batch.
    pub open spec fn rest(self) -> Stream {
        Stream { batches: self.batches.skip(1), end: self.end }
    }

    /// The stream with one more batch before the others.
    pub open spec fn after(self, first: BatchView) -> Stream {
        Stream { batches: seq![first] + self.batches, end: self.end }
    }
}

/// A batch put before a stream is its first, and the stream is what is left after it.
pub proof fn lemma_after(s: Stream, first: BatchView)
    ensures
        s.after(first).batches.len() > 0,
        s.after(first).batches[0] == first,
        s.after(first).rest() == s,
{
    assert(s.after(first).batches.skip(1) =~= s.batches);
}

/// A stream that ends at once.
pub open spec fn ends(end: End) -> Stream {
    Stream { batches: Seq::empty(), end }
}

/// A stream that fails at once, or is left open, as an operation that gave no value.
pub open spec fn stops<T>(o: Outcome<T>) -> Stream {
    match o {
        Outcome::Fault(f) => ends(End::Failed(f)),
        _ => ends(End::Open),
    }
}

/// `r` is the first step of the stream `before`, and `after` is what is left then.
pub open spec fn stepped(
    before: Stream,
    r: Result<Option<Batch>, ArborError>,
    after: Stream,
) -> bool {
    if before.batches.len() > 0 {
        (r matches Ok(Some(b)) && b@ == before.batches[0]) && after == before.rest()
    } else {
        match before.end {
            End::Done => (r matches Ok(None)) && after == before,
            End::Failed(f) => r matches Err(e) && told(e, f),
            End::Open => true,
        }
    }
}

/// The stream, however sums of floats come out.
pub open spec fn fixed(s: Stream) -> spec_fn(Sums) -> Stream {
    |o: Sums| s
}

/// `r` is the first step of something that can be given, and `after` is what is left then.
pub open spec fn begins(
    before: spec_fn(Sums) -> Stream,
    r: Result<Option<Batch>, ArborError>,
    after: Stream,
) -> bool {
    exists|p: Sums| #[trigger] stepped(before(p), r, after)
}

/// `r` is a step from `before` to `after`: whatever is given after it, was to be given with it.
pub open spec fn leads(
    before: spec_fn(Sums) -> Stream,
    r: Result<Option<Batch>, ArborError>,
    after: spec_fn(Sums) -> Stream,
) -> bool {
    forall|o: Sums| begins(before, r, #[trigger] after(o))
}

/// Iterator-style physical operator producing record batches.
pub trait PhysicalPlan: Send {
    /// What the operator still has to give, for each way in which sums of floats come out; left open
    /// where an operator does not say.
    open spec fn pending(&self) -> spec_fn(Sums) -> Stream {
        fixed(ends(End::Open))
    }

    /// A bound on the number of batches that the operator still gives.
    open spec fn fuel(&self) -> nat {
        arbitrary()
    }

    /// The fields of output batches.
    open spec fn layout(&self) -> Seq<FieldView> {
        arbitrary()
    }

    /// Schema of output batches.
    fn schema(&self) -> (r: Schema)
        ensures
            r@ == self.layout(),
    ;

    /// Next batch, or `None` if exhausted.
    fn next_batch(&mut self) -> (r: Result<Option<Batch>, ArborError>)
        ensures
            leads(old(self).pending(), r, final(self).pending()),
            r matches Ok(Some(b)) ==> carried(b@) && final(self).fuel() < old(self).fuel(),
            final(self).layout() == old(self).layout(),
    ;
}

/// How draining a stream comes out.
pub open spec fn drained(s: Stream) -> Outcome<Seq<BatchView>> {
    match s.end {
        End::Done => Outcome::Value(s.batches),
        End::Failed(f) => Outcome::Fault(f),
        End::Open => Outcome::Open,
    }
}

/// `r` is what draining the stream gives.
pub open spec fn drains(r: Result<Vec<Batch>, ArborError>, s: Stream) -> bool {
    match drained(s) {
        Outcome::Value(bs) => r matches Ok(v) && views(v@) == bs,
        Outcome::Fault(f) => r matches Err(e) && told(e, f),
        Outcome::Open => true,
    }
}

/// `r` holds what the stream has to give.
pub open spec fn fills(r: Result<Buffered, ArborError>, s: Stream) -> bool {
    match drained(s) {
        Outcome::Value(bs) => r matches Ok(b) && b.left() == bs && bs.len() <= usize::MAX,
        Outcome::Fault(f) => r matches Err(e) && told(e, f),
        Outcome::Open => r matches Ok(b) ==> b.left().len() <= usize::MAX,
    }
}

/// `rest` is what is left of `s` after the batches `done`; nothing is known after an open end.
pub open spec fn reached(s: Stream, done: Seq<BatchView>, rest: Stream) -> bool {
    (s.batches == done + rest.batches && s.end == rest.end) || s.end is Open
}

/// `rest` is what is left after the batches `done` of something that can be given.
pub open spec fn reaches(s: spec_fn(Sums) -> Stream, done: Seq<BatchView>, rest: Stream) -> bool {
    exists|p: Sums| #[trigger] reached(s(p), done, rest)
}

/// One more batch leads on.
proof fn lemma_reached(s: Stream, done: Seq<BatchView>, before: Stream, b: Batch, after: Stream)
    requires
        reached(s, done, before),
        stepped(before, Ok(Some(b)), after),
    ensures
        reached(s, done.push(b@), after),
{
    if !(s.end is Open) {
        assert(before.batches =~= seq![b@] + before.rest().batches);
        assert(done + before.batches =~= done.push(b@) + after.batches);
    }
}

/// Drains all batches from `plan` into a vector.
pub fn collect<P: PhysicalPlan + ?Sized>(plan: &mut P) -> (r: Result<Vec<Batch>, ArborError>)
    ensures
        exists|o: Sums| #[trigger] drains(r, old(plan).pending()(o)),
        r matches Ok(v) ==> forall|i: int| 0 <= i < v.len() ==> carried((#[trigger] v[i])@),
        final(plan).layout() == old(plan).layout(),
{
    let mut v: Vec<Batch> = Vec::new();
    let ghost start = plan.pending();
    let ghost layout = plan.layout();
    proof {
        assert forall|o: Sums| reaches(start, views(v@), #[trigger] plan.pending()(o)) by {
            let s = start(o);
            assert(views(v@) + s.batches =~= s.batches);
            assert(reached(start(o), views(v@), plan.pending()(o)));
        }
    }
    loop
        invariant
            start == old(plan).pending(),
            layout == old(plan).layout(),
            plan.layout() == layout,
            forall|i: int| 0 <= i < v.len() ==> carried((#[trigger] v[i])@),
            forall|o: Sums| reaches(start, views(v@), #[trigger] plan.pending()(o)),
        decreases plan.fuel(),
    {
        let ghost before = plan.pending();
        let next = plan.next_batch();
        let ghost after = plan.pending();
        match next {
            Err(e) => {
                let r: Result<Vec<Batch>, ArborError> = Err(e);
                proof {
                    let o = Sums::Nowhere;
                    assert(begins(before, next, after(o)));
                    let q = choose|q: Sums| #[trigger] stepped(before(q), next, after(o));
                    assert(reaches(start, views(v@), before(q)));
                    let p = choose|p: Sums| #[trigger] reached(start(p), views(v@), before(q));
                    assert(drains(r, start(p)));
                }
                return r;
            },
            Ok(None) => {
                let ghost done = views(v@);
                let r: Result<Vec<Batch>, ArborError> = Ok(v);
                proof {
                    let o = Sums::Nowhere;
                    assert(begins(before, next, after(o)));
                    let q = choose|q: Sums| #[trigger] stepped(before(q), next, after(o));
                    assert(reaches(start, done, before(q)));
                    let p = choose|p: Sums| #[trigger] reached(start(p), done, before(q));
                    if !(start(p).end is Open) {
                        assert(done + before(q).batches =~= done);
                    }
                    assert(drains(r, start(p)));
                }
                return r;
            },
            Ok(Some(b)) => {
                let ghost done = views(v@);
                proof {
                    crate::types::lemma_views_push(v@, b);
                }
                v.push(b);
                proof {
                    assert forall|o: Sums| reaches(start, views(v@), #[trigger] plan.pending()(o)) by {
                        assert(begins(before, next, after(o)));
                    let q = choose|q: Sums| #[trigger] stepped(before(q), next, after(o));
                        assert(reaches(start, done, before(q)));
                    let p = choose|p: Sums| #[trigger] reached(start(p), done, before(q));
                        lemma_reached(start(p), done, before(q), b, after(o));
                        assert(reached(start(p), views(v@), plan.pending()(o)));
                    }
                }
            },
        }
    }
}

} // verus!
