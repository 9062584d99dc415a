//! Configuration, errors and pure building blocks of the Cedar schema
//! generator for MCP tools.

pub mod config;
pub mod identifiers;
pub mod err;
pub mod cli;
pub mod dedup;
pub mod names;
pub mod stub;
pub mod plan;
pub mod model;
pub mod translate;
pub mod schema_state;
pub mod actions;
pub mod leaf_fields;
pub mod schema;
pub mod scopes;
pub mod stub_text;
pub mod field_order;
pub mod request;
