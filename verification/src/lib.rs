//! Research project management: a typed causal knowledge graph over an
//! impact-ranked phase DAG, with the rules that govern how research nodes
//! are created, linked and moved through their lifecycles.

pub mod analysis;
pub mod board;
pub mod cli;
pub mod dag;
pub mod files;
pub mod import;
pub mod kg;
pub mod mcp;
pub mod store;
pub mod text;
