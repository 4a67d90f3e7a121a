//! The research tools: each takes the store and plain arguments, applies
//! the project's rules, changes the store as the rules allow and answers
//! with the text that the assistant reads.
pub mod audit;
pub mod common;
pub mod dashboard;
pub mod completion;
pub mod constraint;
pub mod context;
pub mod decision;
pub mod edges;
pub mod experiment;
pub mod finding;
pub mod hypothesis;
pub mod init;
pub mod literature;
pub mod nodes;
pub mod principle;
pub mod projects;
pub mod repair;
pub mod review;
pub mod scaffold;
pub mod since;
