//! Verified building blocks for generating Cedar schemas and policies for
//! agents that call MCP tools: a located JSON tokenizer and parser, the MCP
//! tool-description model, and the agent policy builder.

pub mod loc;
pub mod tokenizer;
pub mod json;
pub mod parser;
pub mod description;
pub mod deserializer;
pub mod strmap;
pub mod text;
pub mod agent;
pub mod generator;
