//! LIMIT rows.

use vstd::prelude::*;
use crate::error::ArborError;
use crate::executor::batch::{first_rows, Batch};
use crate::executor::sums::Sums;
use crate::executor::{begins, ends, lemma_after, stepped, End, PhysicalPlan, Stream};
use crate::types::{FieldView, Schema};

verus! {

/// The batches of a stream up to `n` rows, the last one cut short; nothing is read after that.
pub open spec fn limit_stream(n: nat, s: Stream) -> Stream
    decreases s.batches.len(),
{
    if n == 0 {
        ends(End::Done)
    } else if s.batches.len() == 0 {
        ends(s.end)
    } else {
        let b = s.batches[0];
        if b.rows <= n {
            limit_stream((n - b.rows) as nat, s.rest()).after(b)
        } else {
            ends(End::Done).after(first_rows(b, n))
        }
    }
}

/// The first rows of whatever is given.
pub open spec fn limit_streams(n: nat, s: spec_fn(Sums) -> Stream) -> spec_fn(Sums) -> Stream {
    |o: Sums| limit_stream(n, s(o))
}

/// Returns at most `n` rows from its child.
pub struct LimitExec<C: PhysicalPlan + ?Sized> {
    child: Box<C>,
    remaining: usize,
    schema: Schema,
}

impl<C: PhysicalPlan + ?Sized> LimitExec<C> {
    /// What the input still has to give.
    pub closed spec fn input(&self) -> spec_fn(Sums) -> Stream {
        self.child.pending()
    }

    /// How many rows may still be given.
    pub closed spec fn allowance(&self) -> nat {
        self.remaining as nat
    }

    /// Caps output from `child` to `n` rows across batches.
    pub fn new(child: Box<C>, n: usize) -> (r: LimitExec<C>)
        ensures
            r.pending() == limit_streams(n as nat, child.pending()),
            r.layout() == child.layout(),
    {
        let schema = child.schema();
        LimitExec { child, remaining: n, schema }
    }
}

impl<C: PhysicalPlan + ?Sized> PhysicalPlan for LimitExec<C> {
    open spec fn pending(&self) -> spec_fn(Sums) -> Stream {
        limit_streams(self.allowance(), self.input())
    }

    closed spec fn fuel(&self) -> nat {
        self.child.fuel()
    }

    closed spec fn layout(&self) -> Seq<FieldView> {
        self.schema@
    }

    fn schema(&self) -> (r: Schema) {
        self.schema.clone()
    }

    fn next_batch(&mut self) -> (r: Result<Option<Batch>, ArborError>)
        ensures
            old(self).allowance() == 0 ==> final(self).input() == old(self).input()
                && final(self).allowance() == 0,
            r matches Ok(Some(b)) ==> final(self).allowance() == old(self).allowance() - b@.rows,
    {
        let ghost was = self.pending();
        let ghost left = self.remaining as nat;
        let ghost before = self.child.pending();
        if self.remaining == 0 {
            let r: Result<Option<Batch>, ArborError> = Ok(None);
            proof {
                assert forall|o: Sums| begins(was, r, #[trigger] self.pending()(o)) by {
                    assert(stepped(was(o), r, self.pending()(o)));
                }
            }
            return r;
        }
        let next = self.child.next_batch();
        let ghost after = self.child.pending();
        let r: Result<Option<Batch>, ArborError> = match next {
            Err(e) => Err(e),
            Ok(None) => Ok(None),
            Ok(Some(batch)) => {
                let n: usize = batch.num_rows();
                if n <= self.remaining {
                    self.remaining = self.remaining - n;
                    Ok(Some(batch))
                } else {
                    let out = batch.head(self.remaining);
                    self.remaining = 0;
                    Ok(Some(out))
                }
            },
        };
        proof {
            assert forall|o: Sums| begins(was, r, #[trigger] self.pending()(o)) by {
                assert(begins(before, next, after(o)));
                let p = choose|p: Sums| #[trigger] stepped(before(p), next, after(o));
                if let Ok(Some(batch)) = next {
                    if before(p).batches.len() > 0 {
                        if batch@.rows <= left {
                            lemma_after(
                                limit_stream((left - batch@.rows) as nat, after(o)),
                                batch@,
                            );
                        } else {
                            lemma_after(ends(End::Done), first_rows(batch@, left));
                        }
                    }
                }
                assert(stepped(was(p), r, self.pending()(o)));
            }
        }
        r
    }
}

} // verus!
