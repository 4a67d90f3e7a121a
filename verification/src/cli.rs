//! The commands of the command-line interface, as plain values: what a
//! parsed command line asks the tool to do.
use vstd::prelude::*;

verus! {

/// A parsed command line: the command and, optionally, the database path.
#[derive(Debug)]
pub struct Cli {
    pub command: Commands,
    /// Database path (default: ~/.local/share/pm/pm.db).
    pub db: Option<String>,
}

/// The top-level commands.
#[derive(Debug)]
pub enum Commands {
    /// Project management.
    Project { action: ProjectAction },
    /// Phase management of a project (by name or alias).
    Phase { project: String, action: PhaseAction },
    /// Experiment management.
    Exp { project: String, action: ExpAction },
    /// Finding management.
    Finding { project: String, action: FindingAction },
    /// Decision management.
    Dec { project: String, action: DecAction },
    /// Research and reflection management.
    Research { project: String, action: ResearchAction },
    /// Principle management (project-level guidance).
    Principle { project: String, action: PrincipleAction },
    /// Hypothesis management (testable predictions).
    Hyp { project: String, action: HypAction },
    /// Constraint management (hard boundaries).
    Con { project: String, action: ConAction },
    /// Literature management (citations).
    Lit { project: String, action: LitAction },
    /// Feedback management (corrections and confirmations).
    Fb { project: String, action: FbAction },
    /// The knowledge graph.
    Kg { project: String, action: KgAction },
    /// The cross-project dashboard.
    Dashboard,
    /// The next actions of a project.
    Next { project: String },
    /// A research review of a project.
    Review { project: String },
    /// A phase scaffolded into task items.
    Scaffold { project: String, phase: i64, format: String },
    /// A session handoff document.
    Handoff { project: String },
    /// The web dashboard server.
    Serve { port: u16 },
    /// An import of earlier project data.
    Import { path: String, name: String },
}

/// Project commands.
#[derive(Debug)]
pub enum ProjectAction {
    List,
    Activate { name: String, alias: Option<String> },
    Pause { name: String },
    Archive { name: String },
}

/// Phase commands.
#[derive(Debug)]
pub enum PhaseAction {
    Add { name: String, impact: i32, depends: Option<Vec<i64>> },
    List,
    Update { id: i64, status: String },
    Get { id: i64 },
}

/// Experiment commands.
#[derive(Debug)]
pub enum ExpAction {
    Add { name: String, phase: Option<i64>, status: Option<String>, result: Option<String> },
    List { phase: Option<i64> },
    Update { id: i64, status: String, result: Option<String> },
}

/// Finding commands.
#[derive(Debug)]
pub enum FindingAction {
    Add { text: String, experiment: Option<i64> },
    List { experiment: Option<i64> },
    Traverse { id: i64, depth: usize },
}

/// Decision commands.
#[derive(Debug)]
pub enum DecAction {
    Add { what: String, why: Option<String>, experiment: Option<i64> },
    List,
}

/// Knowledge-graph commands.
#[derive(Debug)]
pub enum KgAction {
    /// The whole graph at a glance.
    Overview,
    Traverse { from: String },
    Cluster,
    /// Add an edge.
    Edge { source_type: String, source_id: i64, target_type: String, target_id: i64, relation: String },
    /// List all edges.
    Edges,
    /// List the edges leaving a node.
    From { node_type: String, node_id: i64 },
    /// List the edges entering a node.
    To { node_type: String, node_id: i64 },
    /// Delete an edge by id.
    Rm { id: i64 },
}

/// Research commands.
#[derive(Debug)]
pub enum ResearchAction {
    Add { name: String, phase: Option<i64>, report: Option<String> },
    List { phase: Option<i64> },
    Update { id: i64, status: Option<String>, report: Option<String> },
}

/// Principle commands.
#[derive(Debug)]
pub enum PrincipleAction {
    Add { text: String, scope: String },
    List,
    Supersede { id: i64, by: Option<i64> },
}

/// Hypothesis commands.
#[derive(Debug)]
pub enum HypAction {
    Add { text: String, phase: Option<i64> },
    List { phase: Option<i64> },
    Test { id: i64, experiment: i64 },
    Resolve { id: i64, status: String, finding: Option<i64> },
}

/// Constraint commands.
#[derive(Debug)]
pub enum ConAction {
    Add { text: String, scope: String, source: Option<String> },
    List,
}

/// Literature commands.
#[derive(Debug)]
pub enum LitAction {
    Add { title: String, arxiv: Option<String>, relevance: Option<String>, findings: Option<String> },
    List,
}

/// Feedback commands.
#[derive(Debug)]
pub enum FbAction {
    Add { text: String, category: String },
    List,
}

} // verus!
