//! Logical plans and how they are built.

pub mod expressions;
pub mod logical_plan;
pub mod query;

pub use logical_plan::{AggFunc, BinaryOp, Expr, JoinType, LogicalPlan, SortExpr};
pub use expressions::convert_expr;
pub use query::plan_query;
