//! Text analysis over research notes.
pub mod contradictions;
pub mod numbers;
