//! Query model, query IR and SQL generation for a star-schema OLAP engine.

pub mod compiler;
pub mod error;
pub mod metadata;
pub mod names;
pub mod query;
pub mod query_ir;
pub mod request;
pub mod schema;
pub mod sql;
pub mod text;
