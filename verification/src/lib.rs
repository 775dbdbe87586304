//! Migration planning and query-graph compilation.
//!
//! Two independent cores live here. The first walks the difference between two
//! SQL schemas and records which alterations lose data or cannot be executed.
//! The second lowers a graph of dependent queries into a nested expression
//! tree of let-bindings.

pub mod database_setup;
pub mod destructive_check_plan;
pub mod error;
pub mod expanded_alter_column;
pub mod expression;
pub mod expressionista;
pub mod flavour;
pub mod projection;
pub mod query;
pub mod query_graph;
pub mod sql_destructive_changes_checker;
pub mod sql_schema;
pub mod sql_schema_differ;
