//! Arbor: a small SQL query engine over Arrow data.
//!
//! The pipeline is: SQL text, logical plan, optimizer, physical operators, record batches.

pub mod error;
pub mod executor;
pub mod float;
pub mod optimizer;
pub mod order;
pub mod parser;
pub mod planner;
pub mod semantics;
pub mod text;
pub mod types;
pub mod written;
