//! Batches that are computed already and wait to be handed out.

use vstd::prelude::*;
use crate::executor::batch::{carried, Batch, BatchView};
use crate::types::views;

verus! {

/// Batches that are handed out one after the other.
pub struct Buffered {
    batches: Vec<Batch>,
    next_i: usize,
}

impl Buffered {
    #[verifier::type_invariant]
    spec fn wf(&self) -> bool {
        &&& self.next_i <= self.batches.len()
        &&& forall|i: int| 0 <= i < self.batches.len() ==> carried((#[trigger] self.batches[i])@)
    }

    /// The batches that are still to be handed out.
    pub closed spec fn left(&self) -> Seq<BatchView> {
        views(self.batches@).skip(self.next_i as int)
    }

    /// All of `batches` wait.
    pub fn new(batches: Vec<Batch>) -> (r: Buffered)
        requires
            forall|i: int| 0 <= i < batches.len() ==> carried((#[trigger] batches[i])@),
        ensures
            r.left() == views(batches@),
            r.left().len() <= usize::MAX,
    {
        let r = Buffered { batches, next_i: 0 };
        proof {
            assert(r.left() =~= views(batches@));
        }
        r
    }

    /// Hands out the next batch.
    pub fn next(&mut self) -> (r: Option<Batch>)
        ensures
            match r {
                Some(b) => old(self).left().len() > 0 && b@ == old(self).left()[0] && carried(b@)
                    && final(self).left() == old(self).left().skip(1),
                None => old(self).left().len() == 0 && final(self).left() == old(self).left(),
            },
    {
        proof {
            use_type_invariant(&*self);
        }
        if self.next_i >= self.batches.len() {
            return None;
        }
        let b = self.batches[self.next_i].clone();
        let ghost before = self.left();
        self.next_i = self.next_i + 1;
        proof {
            assert(self.left() =~= before.skip(1));
        }
        Some(b)
    }
}

} // verus!
