//! Rule-based logical plan rewrites.

pub mod columns;
pub mod constant_folding;
pub mod predicate_pushdown;
pub mod projection_pruning;

use vstd::prelude::*;
use crate::error::ArborError;
use crate::planner::logical_plan::{LogicalPlan, PlanView};
use constant_folding::{fold_down, ConstantFolding};
use predicate_pushdown::{push_down, PredicatePushdown};
use projection_pruning::{pruned, ProjectionPruning};

pub use columns::{collect_columns, ColumnSet};

verus! {

/// One rewrite pass over a [`LogicalPlan`].
pub trait OptimizerRule {
    /// The plans that the rule can rewrite.
    open spec fn accepts(&self, plan: PlanView) -> bool {
        true
    }

    /// `out` is what the rule makes of `plan`.
    open spec fn rewrites(&self, plan: PlanView, out: PlanView) -> bool {
        true
    }

    /// Human-readable rule name (logging).
    fn name(&self) -> &str;

    /// Returns an equivalent optimized plan.
    fn optimize(&self, plan: LogicalPlan) -> (r: Result<LogicalPlan, ArborError>)
        requires
            self.accepts(plan@),
        ensures
            r matches Ok(out) ==> self.rewrites(plan@, out@),
    ;
}

/// The plan after predicate pushdown, projection pruning and constant folding.
pub open spec fn optimized(p: PlanView) -> PlanView {
    fold_down(pruned(push_down(p)))
}

/// Applies predicate pushdown, projection pruning, then constant folding.
pub fn optimize(plan: LogicalPlan) -> (r: Result<LogicalPlan, ArborError>)
    ensures
        r matches Ok(out) && out@ == optimized(plan@),
{
    let pushed = match PredicatePushdown.optimize(plan) {
        Ok(p) => p,
        Err(e) => return Err(e),
    };
    let narrowed = match ProjectionPruning.optimize(pushed) {
        Ok(p) => p,
        Err(e) => return Err(e),
    };
    ConstantFolding.optimize(narrowed)
}

} // verus!
