//! Typed statement execution for a relational engine: type families, typed
//! values and expression trees, storage cells, and the lazy row pipeline that
//! evaluates, validates and writes rows.

pub mod binary;
pub mod decimal;
pub mod node_engine;
pub mod query_plan;
pub mod query_result;
pub mod typed_queries;
pub mod typed_tree;
pub mod typed_values;
pub mod types;
