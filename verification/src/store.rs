//! The project store: typed research nodes (projects, phases, experiments,
//! findings, decisions, hypotheses, literature, research tasks, principles,
//! constraints, sessions) and the typed edges of the knowledge graph.
//!
//! Every table hands out ids 1, 2, 3, ... in creation order, so the row with
//! id `k` is the `k`-th row created; lookups, lists and updates are specified
//! over the store's view, a snapshot of all tables.
use vstd::prelude::*;

verus! {

broadcast use vstd::seq_lib::group_seq_properties;

// ---------------------------------------------------------------- enums

#[derive(Debug, Clone, Copy, PartialEq, Eq, Structural)]
pub enum ProjectStatus {
    Active,
    Paused,
    Archived,
}

#[derive(Debug, Clone, Copy, PartialEq, Eq, Structural)]
pub enum PhaseStatus {
    Pending,
    InProgress,
    Complete,
    Paused,
    Deprioritized,
}

#[derive(Debug, Clone, Copy, PartialEq, Eq, Structural)]
pub enum ExperimentStatus {
    Pending,
    Pass,
    Fail,
    Inconclusive,
}

#[derive(Debug, Clone, Copy, PartialEq, Eq, Structural)]
pub enum HypothesisStatus {
    Proposed,
    Testing,
    Confirmed,
    Refuted,
}

#[derive(Debug, Clone, Copy, PartialEq, Eq, Structural)]
pub enum ResearchStatus {
    Pending,
    InProgress,
    Complete,
    Abandoned,
}

#[derive(Debug, Clone, Copy, PartialEq, Eq, Structural)]
pub enum PrincipleScope {
    Universal,
    Project,
    Phase,
}

#[derive(Debug, Clone, Copy, PartialEq, Eq, Structural)]
pub enum PrincipleStatus {
    Active,
    Superseded,
}

#[derive(Debug, Clone, Copy, PartialEq, Eq, Structural)]
pub enum ConstraintScope {
    Hardware,
    Software,
    Process,
}

/// The kinds of node in the knowledge graph.
#[derive(Debug, Clone, Copy, PartialEq, Eq, Structural)]
pub enum NodeType {
    Finding,
    Experiment,
    Decision,
    Phase,
    Research,
    Principle,
    Hypothesis,
    Constraint,
    Literature,
    Feedback,
}

/// The kinds of typed edge in the knowledge graph.
#[derive(Debug, Clone, Copy, PartialEq, Eq, Structural)]
pub enum EdgeType {
    Supports,
    Contradicts,
    DependsOn,
    Informed,
    Supersedes,
    RelatedTo,
    ProducedBy,
    CitedIn,
    Contains,
    DerivedFrom,
    TestedBy,
    ViolatedBy,
    ConvergesInto,
    BranchesFrom,
}

/// Why a store operation was refused.
#[derive(Debug, Clone, Copy, PartialEq, Eq, Structural)]
pub enum StoreError {
    /// No row of the named kind has the given id.
    NotFound,
    /// The row would break a reference (such as a parent that does not exist).
    Constraint,
    /// The table has handed out every id that an `i64` can hold.
    Capacity,
    /// The request names a kind that the operation does not know.
    Invalid,
}

pub type Result<T> = core::result::Result<T, StoreError>;

impl ProjectStatus {
    /// The name of this variant, as `Debug` prints it.
    pub open spec fn spec_name(self) -> Seq<char> {
        match self {
            ProjectStatus::Active => "Active"@,
            ProjectStatus::Paused => "Paused"@,
            ProjectStatus::Archived => "Archived"@,
        }
    }

    /// The name of this variant, as `Debug` prints it.
    pub fn name(&self) -> (s: &'static str)
        ensures
            s@ == self.spec_name(),
    {
        match self {
            ProjectStatus::Active => "Active",
            ProjectStatus::Paused => "Paused",
            ProjectStatus::Archived => "Archived",
        }
    }
}

impl PhaseStatus {
    /// The name of this variant, as `Debug` prints it.
    pub open spec fn spec_name(self) -> Seq<char> {
        match self {
            PhaseStatus::Pending => "Pending"@,
            PhaseStatus::InProgress => "InProgress"@,
            PhaseStatus::Complete => "Complete"@,
            PhaseStatus::Paused => "Paused"@,
            PhaseStatus::Deprioritized => "Deprioritized"@,
        }
    }

    /// The name of this variant, as `Debug` prints it.
    pub fn name(&self) -> (s: &'static str)
        ensures
            s@ == self.spec_name(),
    {
        match self {
            PhaseStatus::Pending => "Pending",
            PhaseStatus::InProgress => "InProgress",
            PhaseStatus::Complete => "Complete",
            PhaseStatus::Paused => "Paused",
            PhaseStatus::Deprioritized => "Deprioritized",
        }
    }
}

impl ExperimentStatus {
    /// The name of this variant, as `Debug` prints it.
    pub open spec fn spec_name(self) -> Seq<char> {
        match self {
            ExperimentStatus::Pending => "Pending"@,
            ExperimentStatus::Pass => "Pass"@,
            ExperimentStatus::Fail => "Fail"@,
            ExperimentStatus::Inconclusive => "Inconclusive"@,
        }
    }

    /// The name of this variant, as `Debug` prints it.
    pub fn name(&self) -> (s: &'static str)
        ensures
            s@ == self.spec_name(),
    {
        match self {
            ExperimentStatus::Pending => "Pending",
            ExperimentStatus::Pass => "Pass",
            ExperimentStatus::Fail => "Fail",
            ExperimentStatus::Inconclusive => "Inconclusive",
        }
    }
}

impl HypothesisStatus {
    /// The name of this variant, as `Debug` prints it.
    pub open spec fn spec_name(self) -> Seq<char> {
        match self {
            HypothesisStatus::Proposed => "Proposed"@,
            HypothesisStatus::Testing => "Testing"@,
            HypothesisStatus::Confirmed => "Confirmed"@,
            HypothesisStatus::Refuted => "Refuted"@,
        }
    }

    /// The name of this variant, as `Debug` prints it.
    pub fn name(&self) -> (s: &'static str)
        ensures
            s@ == self.spec_name(),
    {
        match self {
            HypothesisStatus::Proposed => "Proposed",
            HypothesisStatus::Testing => "Testing",
            HypothesisStatus::Confirmed => "Confirmed",
            HypothesisStatus::Refuted => "Refuted",
        }
    }
}

impl ResearchStatus {
    /// The name of this variant, as `Debug` prints it.
    pub open spec fn spec_name(self) -> Seq<char> {
        match self {
            ResearchStatus::Pending => "Pending"@,
            ResearchStatus::InProgress => "InProgress"@,
            ResearchStatus::Complete => "Complete"@,
            ResearchStatus::Abandoned => "Abandoned"@,
        }
    }

    /// The name of this variant, as `Debug` prints it.
    pub fn name(&self) -> (s: &'static str)
        ensures
            s@ == self.spec_name(),
    {
        match self {
            ResearchStatus::Pending => "Pending",
            ResearchStatus::InProgress => "InProgress",
            ResearchStatus::Complete => "Complete",
            ResearchStatus::Abandoned => "Abandoned",
        }
    }
}

impl NodeType {
    /// The name of this variant, as `Debug` prints it.
    pub open spec fn spec_name(self) -> Seq<char> {
        match self {
            NodeType::Finding => "Finding"@,
            NodeType::Experiment => "Experiment"@,
            NodeType::Decision => "Decision"@,
            NodeType::Phase => "Phase"@,
            NodeType::Research => "Research"@,
            NodeType::Principle => "Principle"@,
            NodeType::Hypothesis => "Hypothesis"@,
            NodeType::Constraint => "Constraint"@,
            NodeType::Literature => "Literature"@,
            NodeType::Feedback => "Feedback"@,
        }
    }

    /// The name of this variant, as `Debug` prints it.
    pub fn name(&self) -> (s: &'static str)
        ensures
            s@ == self.spec_name(),
    {
        match self {
            NodeType::Finding => "Finding",
            NodeType::Experiment => "Experiment",
            NodeType::Decision => "Decision",
            NodeType::Phase => "Phase",
            NodeType::Research => "Research",
            NodeType::Principle => "Principle",
            NodeType::Hypothesis => "Hypothesis",
            NodeType::Constraint => "Constraint",
            NodeType::Literature => "Literature",
            NodeType::Feedback => "Feedback",
        }
    }
}

impl EdgeType {
    /// The name of this variant, as `Debug` prints it.
    pub open spec fn spec_name(self) -> Seq<char> {
        match self {
            EdgeType::Supports => "Supports"@,
            EdgeType::Contradicts => "Contradicts"@,
            EdgeType::DependsOn => "DependsOn"@,
            EdgeType::Informed => "Informed"@,
            EdgeType::Supersedes => "Supersedes"@,
            EdgeType::RelatedTo => "RelatedTo"@,
            EdgeType::ProducedBy => "ProducedBy"@,
            EdgeType::CitedIn => "CitedIn"@,
            EdgeType::Contains => "Contains"@,
            EdgeType::DerivedFrom => "DerivedFrom"@,
            EdgeType::TestedBy => "TestedBy"@,
            EdgeType::ViolatedBy => "ViolatedBy"@,
            EdgeType::ConvergesInto => "ConvergesInto"@,
            EdgeType::BranchesFrom => "BranchesFrom"@,
        }
    }

    /// The name of this variant, as `Debug` prints it.
    pub fn name(&self) -> (s: &'static str)
        ensures
            s@ == self.spec_name(),
    {
        match self {
            EdgeType::Supports => "Supports",
            EdgeType::Contradicts => "Contradicts",
            EdgeType::DependsOn => "DependsOn",
            EdgeType::Informed => "Informed",
            EdgeType::Supersedes => "Supersedes",
            EdgeType::RelatedTo => "RelatedTo",
            EdgeType::ProducedBy => "ProducedBy",
            EdgeType::CitedIn => "CitedIn",
            EdgeType::Contains => "Contains",
            EdgeType::DerivedFrom => "DerivedFrom",
            EdgeType::TestedBy => "TestedBy",
            EdgeType::ViolatedBy => "ViolatedBy",
            EdgeType::ConvergesInto => "ConvergesInto",
            EdgeType::BranchesFrom => "BranchesFrom",
        }
    }
}

// ---------------------------------------------------------------- rows

#[derive(Debug)]
pub struct Project {
    pub id: i64,
    pub name: String,
    pub alias: Option<String>,
    pub parent_id: Option<i64>,
    pub status: ProjectStatus,
}

#[derive(Debug)]
pub struct Phase {
    pub id: i64,
    pub project_id: i64,
    pub name: String,
    pub impact: i32,
    pub depends_on: Vec<i64>,
    pub status: PhaseStatus,
    pub description: Option<String>,
    pub goals: Option<String>,
    pub success_criteria: Option<String>,
    /// The phase's ordinal within its project, from 1 in order of creation.
    pub project_seq: i64,
    /// Store clock reading when the phase was first put in progress.
    pub started_at: Option<u64>,
    /// Store clock reading when the phase was completed.
    pub completed_at: Option<u64>,
}

/// A phase as a mathematical value.
pub struct PhaseView {
    pub id: i64,
    pub project_id: i64,
    pub name: Seq<char>,
    pub impact: i32,
    pub depends_on: Seq<i64>,
    pub status: PhaseStatus,
    pub description: Option<Seq<char>>,
    pub goals: Option<Seq<char>>,
    pub success_criteria: Option<Seq<char>>,
    pub project_seq: i64,
    pub started_at: Option<u64>,
    pub completed_at: Option<u64>,
}

#[derive(Debug)]
pub struct Experiment {
    pub id: i64,
    pub phase_id: Option<i64>,
    pub name: String,
    pub status: ExperimentStatus,
    pub result: Option<String>,
    pub notes: Option<String>,
}

#[derive(Debug)]
pub struct Finding {
    pub id: i64,
    pub experiment_id: Option<i64>,
    pub text: String,
}

#[derive(Debug, Clone, Copy, PartialEq, Eq, Structural)]
pub struct Edge {
    pub id: i64,
    pub source_type: NodeType,
    pub source_id: i64,
    pub target_type: NodeType,
    pub target_id: i64,
    pub relation: EdgeType,
}

#[derive(Debug)]
pub struct Decision {
    pub id: i64,
    pub experiment_id: Option<i64>,
    pub what: String,
    pub why: Option<String>,
    pub project_id: Option<i64>,
}

#[derive(Debug)]
pub struct Hypothesis {
    pub id: i64,
    pub phase_id: Option<i64>,
    pub text: String,
    pub status: HypothesisStatus,
    /// The experiment that tests it.
    pub experiment_id: Option<i64>,
    /// The finding that resolved it.
    pub finding_id: Option<i64>,
    /// What it predicts.
    pub prediction: Option<String>,
    /// What would confirm or refute it.
    pub criteria: Option<String>,
}

#[derive(Debug)]
pub struct Literature {
    pub id: i64,
    pub project_id: i64,
    pub title: String,
    pub arxiv_id: Option<String>,
    pub relevance: Option<String>,
    pub key_findings: Option<String>,
    pub authors: Option<String>,
    pub venue: Option<String>,
    pub year: Option<i32>,
    pub url: Option<String>,
    pub code_url: Option<String>,
    pub summary: Option<String>,
    pub status: Option<String>,
}

#[derive(Debug)]
pub struct Research {
    pub id: i64,
    pub phase_id: Option<i64>,
    pub name: String,
    pub status: ResearchStatus,
    pub report: Option<String>,
}

#[derive(Debug)]
pub struct Principle {
    pub id: i64,
    pub project_id: i64,
    pub scope: PrincipleScope,
    pub text: String,
    pub rationale: Option<String>,
    pub enforcement_level: Option<String>,
    pub status: PrincipleStatus,
}

#[derive(Debug)]
pub struct Constraint {
    pub id: i64,
    pub project_id: i64,
    pub scope: ConstraintScope,
    pub text: String,
    pub source: Option<String>,
    pub severity: Option<String>,
    pub resource: Option<String>,
    pub measured_value: Option<String>,
    pub expires_at: Option<String>,
}

/// A belief status recorded for an evidence-bearing node (a finding,
/// decision, hypothesis, principle or constraint).
#[derive(Debug)]
pub struct Belief {
    pub node_type: NodeType,
    pub node_id: i64,
    pub status: String,
}

/// How many rows each node table held at a moment: the rows added since
/// are the ones past these counts.
#[derive(Debug, Clone, Copy)]
pub struct Marks {
    pub phases: usize,
    pub experiments: usize,
    pub findings: usize,
    pub decisions: usize,
    pub hypotheses: usize,
    pub research: usize,
    pub literature: usize,
    pub principles: usize,
    pub constraints: usize,
}

#[derive(Debug)]
pub struct Session {
    pub id: i64,
    pub project_id: Option<i64>,
    pub active_experiment_id: Option<i64>,
    /// Store clock reading when the session started.
    pub started_at: u64,
    /// Store clock reading when the session ended.
    pub ended_at: Option<u64>,
    pub summary: Option<String>,
    /// How many rows each node table held when the session started.
    pub marks: Marks,
}

/// One hit of a text search.
#[derive(Debug)]
pub struct SearchResult {
    pub node_type: String,
    pub node_id: i64,
    pub text_excerpt: String,
}

/// The view of an optional string.
pub open spec fn opt_str(o: Option<String>) -> Option<Seq<char>> {
    match o {
        Some(s) => Some(s@),
        None => None,
    }
}

/// The view of an optional string slice.
pub open spec fn opt_ref(o: Option<&str>) -> Option<Seq<char>> {
    match o {
        Some(s) => Some(s@),
        None => None,
    }
}

impl View for Phase {
    type V = PhaseView;

    open spec fn view(&self) -> PhaseView {
        PhaseView {
            id: self.id,
            project_id: self.project_id,
            name: self.name@,
            impact: self.impact,
            depends_on: self.depends_on@,
            status: self.status,
            description: opt_str(self.description),
            goals: opt_str(self.goals),
            success_criteria: opt_str(self.success_criteria),
            project_seq: self.project_seq,
            started_at: self.started_at,
            completed_at: self.completed_at,
        }
    }
}

/// Phases of project `pid`.
pub open spec fn phase_of(pid: i64) -> spec_fn(PhaseView) -> bool {
    |p: PhaseView| p.project_id == pid
}

/// Experiments of phase `phase` (all experiments when `phase` is `None`).
pub open spec fn experiment_in(phase: Option<i64>) -> spec_fn(Experiment) -> bool {
    |e: Experiment| phase matches Some(p) ==> e.phase_id == Some(p)
}

/// Findings of experiment `exp` (all findings when `exp` is `None`).
pub open spec fn finding_in(exp: Option<i64>) -> spec_fn(Finding) -> bool {
    |f: Finding| exp matches Some(x) ==> f.experiment_id == Some(x)
}

/// Hypotheses of phase `phase` (all hypotheses when `phase` is `None`).
pub open spec fn hypothesis_in(phase: Option<i64>) -> spec_fn(Hypothesis) -> bool {
    |h: Hypothesis| phase matches Some(p) ==> h.phase_id == Some(p)
}

/// Research tasks of phase `phase` (all of them when `phase` is `None`).
pub open spec fn research_in(phase: Option<i64>) -> spec_fn(Research) -> bool {
    |r: Research| phase matches Some(p) ==> r.phase_id == Some(p)
}

/// Decisions that belong to project `pid` or to no project.
pub open spec fn decision_of(pid: i64) -> spec_fn(Decision) -> bool {
    |d: Decision| d.project_id == Some(pid) || d.project_id is None
}

/// Literature of project `pid`.
pub open spec fn literature_of(pid: i64) -> spec_fn(Literature) -> bool {
    |l: Literature| l.project_id == pid
}

/// Principles of project `pid`.
pub open spec fn principle_of(pid: i64) -> spec_fn(Principle) -> bool {
    |p: Principle| p.project_id == pid
}

/// Constraints of project `pid`.
pub open spec fn constraint_of(pid: i64) -> spec_fn(Constraint) -> bool {
    |c: Constraint| c.project_id == pid
}

/// Edges that leave node (`nt`, `id`).
pub open spec fn edge_from(nt: NodeType, id: i64) -> spec_fn(Edge) -> bool {
    |e: Edge| e.source_type == nt && e.source_id == id
}

/// Edges that enter node (`nt`, `id`).
pub open spec fn edge_to(nt: NodeType, id: i64) -> spec_fn(Edge) -> bool {
    |e: Edge| e.target_type == nt && e.target_id == id
}

/// Whether `o` is `None` or holds `v`.
pub fn opt_none_or_is(o: Option<i64>, v: Option<i64>) -> (b: bool)
    ensures
        b == (v matches Some(x) ==> o == Some(x)),
{
    match v {
        Some(x) => opt_is(o, x),
        None => true,
    }
}

/// The most recently started session that has not ended.
pub open spec fn current_session(s: Seq<Session>) -> Option<Session>
    decreases s.len(),
{
    if s.len() == 0 {
        None
    } else if s.last().ended_at is None {
        Some(s.last())
    } else {
        current_session(s.drop_last())
    }
}

/// Experiments whose phase belongs to project `pid`.
pub open spec fn experiment_of_project(v: StoreView, pid: i64) -> spec_fn(Experiment) -> bool {
    |e: Experiment| e.phase_id matches Some(ph) && v.phase(ph) matches Some(p) && p.project_id == pid
}

/// Projects whose parent is `pid`.
pub open spec fn child_of(pid: i64) -> spec_fn(Project) -> bool {
    |p: Project| p.parent_id == Some(pid)
}

/// Whether `o` holds `v`.
pub fn opt_is(o: Option<i64>, v: i64) -> (b: bool)
    ensures
        b == (o == Some(v)),
{
    match o {
        Some(x) => x == v,
        None => false,
    }
}

/// The status of a literature entry that nobody has read yet.
pub fn unread_status() -> (s: String)
    ensures
        s@ == seq!['u', 'n', 'r', 'e', 'a', 'd'],
{
    proof { reveal_strlit("unread"); }
    "unread".to_owned()
}

/// Whether `id` numbers a row of a table of `len` rows.
pub fn in_table(id: i64, len: usize) -> (b: bool)
    ensures
        b == (1 <= id && id <= len),
{
    id >= 1 && (id as u64) <= (len as u64)
}

/// A copy of an optional string.
pub fn clone_opt(o: &Option<String>) -> (r: Option<String>)
    ensures
        r == *o,
{
    match o {
        Some(s) => Some(s.clone()),
        None => None,
    }
}

/// An owned copy of an optional string slice.
pub fn own_opt(o: Option<&str>) -> (r: Option<String>)
    ensures
        opt_str(r) == opt_ref(o),
{
    match o {
        Some(s) => Some(s.to_owned()),
        None => None,
    }
}

impl Project {
    /// A copy of this project.
    pub fn dup(&self) -> (r: Project)
        ensures
            r == *self,
    {
        Project {
            id: self.id,
            name: self.name.clone(),
            alias: clone_opt(&self.alias),
            parent_id: self.parent_id,
            status: self.status,
        }
    }
}

impl Phase {
    /// A copy of this phase.
    pub fn dup(&self) -> (r: Phase)
        ensures
            r@ == self@,
    {
        let deps = self.depends_on.clone();
        proof { assert(deps@ =~= self.depends_on@); }
        Phase {
            id: self.id,
            project_id: self.project_id,
            name: self.name.clone(),
            impact: self.impact,
            depends_on: deps,
            status: self.status,
            description: clone_opt(&self.description),
            goals: clone_opt(&self.goals),
            success_criteria: clone_opt(&self.success_criteria),
            project_seq: self.project_seq,
            started_at: self.started_at,
            completed_at: self.completed_at,
        }
    }
}

impl Experiment {
    /// A copy of this experiment.
    pub fn dup(&self) -> (r: Experiment)
        ensures
            r == *self,
    {
        Experiment {
            id: self.id,
            phase_id: self.phase_id,
            name: self.name.clone(),
            status: self.status,
            result: clone_opt(&self.result),
            notes: clone_opt(&self.notes),
        }
    }
}

impl Finding {
    /// A copy of this finding.
    pub fn dup(&self) -> (r: Finding)
        ensures
            r == *self,
    {
        Finding { id: self.id, experiment_id: self.experiment_id, text: self.text.clone() }
    }
}

impl Decision {
    /// A copy of this decision.
    pub fn dup(&self) -> (r: Decision)
        ensures
            r == *self,
    {
        Decision {
            id: self.id,
            experiment_id: self.experiment_id,
            what: self.what.clone(),
            why: clone_opt(&self.why),
            project_id: self.project_id,
        }
    }
}

impl Hypothesis {
    /// A copy of this hypothesis.
    pub fn dup(&self) -> (r: Hypothesis)
        ensures
            r == *self,
    {
        Hypothesis {
            id: self.id,
            phase_id: self.phase_id,
            text: self.text.clone(),
            status: self.status,
            experiment_id: self.experiment_id,
            finding_id: self.finding_id,
            prediction: clone_opt(&self.prediction),
            criteria: clone_opt(&self.criteria),
        }
    }
}

impl Literature {
    /// A copy of this literature entry.
    pub fn dup(&self) -> (r: Literature)
        ensures
            r == *self,
    {
        Literature {
            id: self.id,
            project_id: self.project_id,
            title: self.title.clone(),
            arxiv_id: clone_opt(&self.arxiv_id),
            relevance: clone_opt(&self.relevance),
            key_findings: clone_opt(&self.key_findings),
            authors: clone_opt(&self.authors),
            venue: clone_opt(&self.venue),
            year: self.year,
            url: clone_opt(&self.url),
            code_url: clone_opt(&self.code_url),
            summary: clone_opt(&self.summary),
            status: clone_opt(&self.status),
        }
    }
}

impl Research {
    /// A copy of this research task.
    pub fn dup(&self) -> (r: Research)
        ensures
            r == *self,
    {
        Research {
            id: self.id,
            phase_id: self.phase_id,
            name: self.name.clone(),
            status: self.status,
            report: clone_opt(&self.report),
        }
    }
}

impl Principle {
    /// A copy of this principle.
    pub fn dup(&self) -> (r: Principle)
        ensures
            r == *self,
    {
        Principle {
            id: self.id,
            project_id: self.project_id,
            scope: self.scope,
            text: self.text.clone(),
            rationale: clone_opt(&self.rationale),
            enforcement_level: clone_opt(&self.enforcement_level),
            status: self.status,
        }
    }
}

impl Constraint {
    /// A copy of this constraint.
    pub fn dup(&self) -> (r: Constraint)
        ensures
            r == *self,
    {
        Constraint {
            id: self.id,
            project_id: self.project_id,
            scope: self.scope,
            text: self.text.clone(),
            source: clone_opt(&self.source),
            severity: clone_opt(&self.severity),
            resource: clone_opt(&self.resource),
            measured_value: clone_opt(&self.measured_value),
            expires_at: clone_opt(&self.expires_at),
        }
    }
}

impl Session {
    /// A copy of this session.
    pub fn dup(&self) -> (r: Session)
        ensures
            r == *self,
    {
        Session {
            id: self.id,
            project_id: self.project_id,
            active_experiment_id: self.active_experiment_id,
            started_at: self.started_at,
            ended_at: self.ended_at,
            summary: clone_opt(&self.summary),
            marks: self.marks,
        }
    }
}

// ---------------------------------------------------------------- store

/// All tables of the store as mathematical values.
pub struct StoreView {
    pub projects: Seq<Project>,
    pub phases: Seq<PhaseView>,
    pub experiments: Seq<Experiment>,
    pub findings: Seq<Finding>,
    pub edges: Seq<Edge>,
    pub decisions: Seq<Decision>,
    pub hypotheses: Seq<Hypothesis>,
    pub literature: Seq<Literature>,
    pub research: Seq<Research>,
    pub principles: Seq<Principle>,
    pub constraints: Seq<Constraint>,
    pub sessions: Seq<Session>,
    pub beliefs: Seq<Belief>,
    pub clock: u64,
}

/// The in-memory project store.
pub struct Store {
    projects: Vec<Project>,
    phases: Vec<Phase>,
    experiments: Vec<Experiment>,
    findings: Vec<Finding>,
    edges: Vec<Edge>,
    decisions: Vec<Decision>,
    hypotheses: Vec<Hypothesis>,
    literature: Vec<Literature>,
    research: Vec<Research>,
    principles: Vec<Principle>,
    constraints: Vec<Constraint>,
    sessions: Vec<Session>,
    beliefs: Vec<Belief>,
    clock: u64,
}

impl View for Store {
    type V = StoreView;

    closed spec fn view(&self) -> StoreView {
        StoreView {
            projects: self.projects@,
            phases: self.phases@.map_values(|p: Phase| p@),
            experiments: self.experiments@,
            findings: self.findings@,
            edges: self.edges@,
            decisions: self.decisions@,
            hypotheses: self.hypotheses@,
            literature: self.literature@,
            research: self.research@,
            principles: self.principles@,
            constraints: self.constraints@,
            sessions: self.sessions@,
            beliefs: self.beliefs@,
            clock: self.clock,
        }
    }
}

/// The largest number of rows that a table can hold: ids must fit an `i64`.
/// An edge from `s`#`si` to `t`#`ti` of relation `r` is already stored.
pub open spec fn edge_exists(v: StoreView, s: NodeType, si: i64, t: NodeType, ti: i64, r: EdgeType) -> bool {
    exists|k: int| 0 <= k < v.edges.len() && #[trigger] same_edge(v.edges[k], s, si, t, ti, r)
}

/// Edge `e` joins `s`#`si` to `t`#`ti` by relation `r`.
pub open spec fn same_edge(e: Edge, s: NodeType, si: i64, t: NodeType, ti: i64, r: EdgeType) -> bool {
    e.source_type == s && e.source_id == si && e.target_type == t && e.target_id == ti && e.relation == r
}

/// How many rows each node table of `v` holds.
pub open spec fn marks_of(v: StoreView) -> Marks {
    Marks {
        phases: v.phases.len() as usize,
        experiments: v.experiments.len() as usize,
        findings: v.findings.len() as usize,
        decisions: v.decisions.len() as usize,
        hypotheses: v.hypotheses.len() as usize,
        research: v.research.len() as usize,
        literature: v.literature.len() as usize,
        principles: v.principles.len() as usize,
        constraints: v.constraints.len() as usize,
    }
}

/// A belief status that the store records.
pub open spec fn belief_word(s: Seq<char>) -> bool {
    s == "believed"@ || s == "suspended"@ || s == "retracted"@
}

pub open spec fn has_room(n: nat) -> bool {
    n < 0x7fff_ffff_ffff_fff0
}

impl StoreView {
    /// Every table numbers its rows 1, 2, 3, ... in order.
    pub open spec fn wf(self) -> bool {
        &&& forall|i: int| 0 <= i < self.projects.len() ==> #[trigger] self.projects[i].id == i + 1
        &&& forall|i: int| 0 <= i < self.phases.len() ==> #[trigger] self.phases[i].id == i + 1
        &&& forall|i: int| 0 <= i < self.experiments.len() ==> #[trigger] self.experiments[i].id == i + 1
        &&& forall|i: int| 0 <= i < self.findings.len() ==> #[trigger] self.findings[i].id == i + 1
        &&& forall|i: int| 0 <= i < self.edges.len() ==> #[trigger] self.edges[i].id == i + 1
        &&& forall|i: int| 0 <= i < self.decisions.len() ==> #[trigger] self.decisions[i].id == i + 1
        &&& forall|i: int| 0 <= i < self.hypotheses.len() ==> #[trigger] self.hypotheses[i].id == i + 1
        &&& forall|i: int| 0 <= i < self.literature.len() ==> #[trigger] self.literature[i].id == i + 1
        &&& forall|i: int| 0 <= i < self.research.len() ==> #[trigger] self.research[i].id == i + 1
        &&& forall|i: int| 0 <= i < self.principles.len() ==> #[trigger] self.principles[i].id == i + 1
        &&& forall|i: int| 0 <= i < self.constraints.len() ==> #[trigger] self.constraints[i].id == i + 1
        &&& forall|i: int| 0 <= i < self.sessions.len() ==> #[trigger] self.sessions[i].id == i + 1
    }

    pub open spec fn with_projects(self, t: Seq<Project>) -> StoreView {
        StoreView { projects: t, ..self }
    }

    pub open spec fn with_phases(self, t: Seq<PhaseView>) -> StoreView {
        StoreView { phases: t, ..self }
    }

    pub open spec fn with_experiments(self, t: Seq<Experiment>) -> StoreView {
        StoreView { experiments: t, ..self }
    }

    pub open spec fn with_findings(self, t: Seq<Finding>) -> StoreView {
        StoreView { findings: t, ..self }
    }

    pub open spec fn with_edges(self, t: Seq<Edge>) -> StoreView {
        StoreView { edges: t, ..self }
    }

    pub open spec fn with_decisions(self, t: Seq<Decision>) -> StoreView {
        StoreView { decisions: t, ..self }
    }

    pub open spec fn with_hypotheses(self, t: Seq<Hypothesis>) -> StoreView {
        StoreView { hypotheses: t, ..self }
    }

    pub open spec fn with_literature(self, t: Seq<Literature>) -> StoreView {
        StoreView { literature: t, ..self }
    }

    pub open spec fn with_research(self, t: Seq<Research>) -> StoreView {
        StoreView { research: t, ..self }
    }

    pub open spec fn with_principles(self, t: Seq<Principle>) -> StoreView {
        StoreView { principles: t, ..self }
    }

    pub open spec fn with_constraints(self, t: Seq<Constraint>) -> StoreView {
        StoreView { constraints: t, ..self }
    }

    pub open spec fn with_sessions(self, t: Seq<Session>) -> StoreView {
        StoreView { sessions: t, ..self }
    }

    /// The project with id `id`, if any.
    pub open spec fn project(self, id: i64) -> Option<Project> {
        if 1 <= id <= self.projects.len() { Some(self.projects[id - 1]) } else { None }
    }

    /// The phase with id `id`, if any.
    pub open spec fn phase(self, id: i64) -> Option<PhaseView> {
        if 1 <= id <= self.phases.len() { Some(self.phases[id - 1]) } else { None }
    }

    /// The experiment with id `id`, if any.
    pub open spec fn experiment(self, id: i64) -> Option<Experiment> {
        if 1 <= id <= self.experiments.len() { Some(self.experiments[id - 1]) } else { None }
    }

    /// Node `nt`#`id` exists: a finding, decision, hypothesis, principle
    /// or constraint with that id.
    pub open spec fn holds_belief(self, nt: NodeType, id: i64) -> bool {
        match nt {
            NodeType::Finding => 1 <= id <= self.findings.len(),
            NodeType::Decision => 1 <= id <= self.decisions.len(),
            NodeType::Hypothesis => 1 <= id <= self.hypotheses.len(),
            NodeType::Principle => 1 <= id <= self.principles.len(),
            NodeType::Constraint => 1 <= id <= self.constraints.len(),
            _ => false,
        }
    }

    /// The belief status last recorded for node `nt`#`id`, if any.
    pub open spec fn belief(self, nt: NodeType, id: i64) -> Option<Seq<char>>
        decreases self.beliefs.len(),
    {
        if self.beliefs.len() == 0 {
            None
        } else if self.beliefs.last().node_type == nt && self.beliefs.last().node_id == id {
            Some(self.beliefs.last().status@)
        } else {
            StoreView { beliefs: self.beliefs.drop_last(), ..self }.belief(nt, id)
        }
    }

    /// The finding with id `id`, if any.
    pub open spec fn finding(self, id: i64) -> Option<Finding> {
        if 1 <= id <= self.findings.len() { Some(self.findings[id - 1]) } else { None }
    }

    /// The decision with id `id`, if any.
    pub open spec fn decision(self, id: i64) -> Option<Decision> {
        if 1 <= id <= self.decisions.len() { Some(self.decisions[id - 1]) } else { None }
    }

    /// The hypothesis with id `id`, if any.
    pub open spec fn hypothesis(self, id: i64) -> Option<Hypothesis> {
        if 1 <= id <= self.hypotheses.len() { Some(self.hypotheses[id - 1]) } else { None }
    }

    /// The literature entry with id `id`, if any.
    pub open spec fn literature_entry(self, id: i64) -> Option<Literature> {
        if 1 <= id <= self.literature.len() { Some(self.literature[id - 1]) } else { None }
    }

    /// The research task with id `id`, if any.
    pub open spec fn research_task(self, id: i64) -> Option<Research> {
        if 1 <= id <= self.research.len() { Some(self.research[id - 1]) } else { None }
    }

    /// The principle with id `id`, if any.
    pub open spec fn principle(self, id: i64) -> Option<Principle> {
        if 1 <= id <= self.principles.len() { Some(self.principles[id - 1]) } else { None }
    }

    /// The constraint with id `id`, if any.
    pub open spec fn constraint(self, id: i64) -> Option<Constraint> {
        if 1 <= id <= self.constraints.len() { Some(self.constraints[id - 1]) } else { None }
    }

    /// The phases of a project, in creation order.
    pub open spec fn phases_of(self, project_id: i64) -> Seq<PhaseView> {
        self.phases.filter(phase_of(project_id))
    }

    /// The edges leaving a node, in creation order.
    pub open spec fn edges_from(self, nt: NodeType, id: i64) -> Seq<Edge> {
        self.edges.filter(edge_from(nt, id))
    }

    /// The edges entering a node, in creation order.
    pub open spec fn edges_to(self, nt: NodeType, id: i64) -> Seq<Edge> {
        self.edges.filter(edge_to(nt, id))
    }
}

impl Store {
    /// Every table numbers its rows 1, 2, 3, ... in order.
    pub open spec fn wf(&self) -> bool {
        self@.wf()
    }

    /// An empty store.
    pub fn in_memory() -> (s: Store)
        ensures
            s.wf(),
            s@.projects.len() == 0,
            s@.phases.len() == 0,
            s@.experiments.len() == 0,
            s@.findings.len() == 0,
            s@.edges.len() == 0,
            s@.decisions.len() == 0,
            s@.hypotheses.len() == 0,
            s@.literature.len() == 0,
            s@.research.len() == 0,
            s@.principles.len() == 0,
            s@.constraints.len() == 0,
            s@.sessions.len() == 0,
            s@.beliefs.len() == 0,
            s@.clock == 0,
    {
        let s = Store {
            projects: Vec::new(),
            phases: Vec::new(),
            experiments: Vec::new(),
            findings: Vec::new(),
            edges: Vec::new(),
            decisions: Vec::new(),
            hypotheses: Vec::new(),
            literature: Vec::new(),
            research: Vec::new(),
            principles: Vec::new(),
            constraints: Vec::new(),
            sessions: Vec::new(),
            beliefs: Vec::new(),
            clock: 0,
        };
        proof { assert(s.phases@.map_values(|p: Phase| p@) =~= Seq::<PhaseView>::empty()); }
        s
    }

    // ------------------------------------------------------------ projects

    /// Creates a project; a parent, when named, must exist.
    pub fn create_project(&mut self, name: &str, alias: Option<&str>, parent_id: Option<i64>) -> (res: Result<Project>)
        requires
            old(self).wf(),
        ensures
            final(self).wf(),
            (res is Ok) == (has_room(old(self)@.projects.len()) && (parent_id matches Some(pid) ==> (old(self)@.project(pid) is Some))),
            res matches Ok(p) ==> {
                &&& p.id == old(self)@.projects.len() + 1
                &&& p.name@ == name@
                &&& opt_str(p.alias) == opt_ref(alias)
                &&& p.parent_id == parent_id
                &&& p.status == ProjectStatus::Active
                &&& final(self)@ == old(self)@.with_projects(old(self)@.projects.push(p))
            },
            (res is Err) ==> (final(self)@ == old(self)@),
            res matches Err(e) ==> (e == (if !has_room(old(self)@.projects.len()) { StoreError::Capacity } else { StoreError::Constraint })),
    {
        let n = self.projects.len();
        if n as u64 >= 0x7fff_ffff_ffff_fff0 {
            return Err(StoreError::Capacity);
        }
        if let Some(pid) = parent_id {
            if pid < 1 || pid > n as i64 {
                return Err(StoreError::Constraint);
            }
        }
        let p = Project {
            id: n as i64 + 1,
            name: name.to_owned(),
            alias: own_opt(alias),
            parent_id,
            status: ProjectStatus::Active,
        };
        let r = p.dup();
        self.projects.push(p);
        proof {
            assert(self@.projects =~= old(self)@.projects.push(r));
            assert(self@.phases =~= old(self)@.phases);
        }
        Ok(r)
    }

    /// All projects, in creation order.
    pub fn list_projects(&self) -> (res: Result<Vec<Project>>)
        ensures
            res matches Ok(v) && v@ == self@.projects,
    {
        let mut out: Vec<Project> = Vec::new();
        let mut i: usize = 0;
        while i < self.projects.len()
            invariant
                i <= self.projects@.len(),
                out@ == self.projects@.take(i as int),
            decreases self.projects@.len() - i,
        {
            out.push(self.projects[i].dup());
            i = i + 1;
            proof { assert(out@ =~= self.projects@.take(i as int)); }
        }
        proof { assert(self.projects@.take(i as int) =~= self.projects@); }
        Ok(out)
    }

    /// The project with the given id.
    pub fn get_project(&self, id: i64) -> (res: Result<Project>)
        requires
            self.wf(),
        ensures
            (res is Ok) == (self@.project(id) is Some),
            res matches Ok(p) ==> (self@.project(id) == Some(p)),
            res matches Err(e) ==> (e == StoreError::NotFound),
    {
        if !in_table(id, self.projects.len()) {
            return Err(StoreError::NotFound);
        }
        Ok(self.projects[(id - 1) as usize].dup())
    }

    /// The direct subprojects of a project, in creation order.
    pub fn list_subprojects(&self, parent_id: i64) -> (res: Result<Vec<Project>>)
        ensures
            res matches Ok(v) && v@ == self@.projects.filter(child_of(parent_id)),
    {
        let ghost pred = child_of(parent_id);
        let mut out: Vec<Project> = Vec::new();
        let mut i: usize = 0;
        while i < self.projects.len()
            invariant
                i <= self.projects@.len(),
                pred == child_of(parent_id),
                out@ == self.projects@.take(i as int).filter(pred),
            decreases self.projects@.len() - i,
        {
            proof {
                assert(self.projects@.take(i + 1) =~= self.projects@.take(i as int).push(self.projects@[i as int]));
                self.projects@.take(i as int).lemma_filter_push(self.projects@[i as int], pred);
            }
            if opt_is(self.projects[i].parent_id, parent_id) {
                out.push(self.projects[i].dup());
            }
            i = i + 1;
        }
        proof { assert(self.projects@.take(i as int) =~= self.projects@); }
        Ok(out)
    }

    /// Sets the status of a project.
    pub fn update_project_status(&mut self, id: i64, status: ProjectStatus) -> (res: Result<()>)
        requires
            old(self).wf(),
        ensures
            final(self).wf(),
            (res is Ok) == (old(self)@.project(id) is Some),
            res matches Err(e) ==> (final(self)@ == old(self)@ && e == StoreError::NotFound),
            (res is Ok) ==> (final(self)@ == old(self)@.with_projects(
                old(self)@.projects.update(id - 1, (Project { status, ..old(self)@.projects[id - 1] })))),
    {
        if !in_table(id, self.projects.len()) {
            return Err(StoreError::NotFound);
        }
        let k = (id - 1) as usize;
        let mut p = self.projects[k].dup();
        p.status = status;
        self.projects.set(k, p);
        proof {
            assert(self@.projects =~= old(self)@.projects.update(id - 1, Project { status, ..old(self)@.projects[id - 1] }));
            assert(self@.phases =~= old(self)@.phases);
        }
        Ok(())
    }

    /// The phases of a project, in creation order.
    pub fn list_phases(&self, project_id: i64) -> (res: Result<Vec<Phase>>)
        ensures
            res matches Ok(v) && v@.map_values(|p: Phase| p@) == self@.phases.filter(phase_of(project_id)),
    {
        let ghost pred = phase_of(project_id);
        let mut out: Vec<Phase> = Vec::new();
        let mut i: usize = 0;
        while i < self.phases.len()
            invariant
                i <= self.phases@.len(),
                pred == phase_of(project_id),
                out@.map_values(|p: Phase| p@) == self@.phases.take(i as int).filter(pred),
            decreases self.phases@.len() - i,
        {
            proof {
                assert(self@.phases.take(i + 1) =~= self@.phases.take(i as int).push(self@.phases[i as int]));
                self@.phases.take(i as int).lemma_filter_push(self@.phases[i as int], pred);
            }
            if self.phases[i].project_id == project_id {
                let r = self.phases[i].dup();
                let ghost before = out@;
                out.push(r);
                proof { assert(out@.map_values(|p: Phase| p@) =~= before.map_values(|p: Phase| p@).push(r@)); }
            }
            i = i + 1;
        }
        proof { assert(self@.phases.take(i as int) =~= self@.phases); }
        Ok(out)
    }

    /// The phase with the given id.
    pub fn get_phase(&self, id: i64) -> (res: Result<Phase>)
        requires
            self.wf(),
        ensures
            (res is Ok) == (self@.phase(id) is Some),
            res matches Ok(p) ==> (self@.phase(id) == Some(p@)),
            res matches Err(e) ==> (e == StoreError::NotFound),
    {
        if !in_table(id, self.phases.len()) {
            return Err(StoreError::NotFound);
        }
        Ok(self.phases[(id - 1) as usize].dup())
    }

    /// The experiments of a phase (all experiments for `None`), in creation order.
    pub fn list_experiments(&self, phase_id: Option<i64>) -> (res: Result<Vec<Experiment>>)
        ensures
            res matches Ok(v) && v@ == self@.experiments.filter(experiment_in(phase_id)),
    {
        let ghost pred = experiment_in(phase_id);
        let mut out: Vec<Experiment> = Vec::new();
        let mut i: usize = 0;
        while i < self.experiments.len()
            invariant
                i <= self.experiments@.len(),
                pred == experiment_in(phase_id),
                out@ == self@.experiments.take(i as int).filter(pred),
            decreases self.experiments@.len() - i,
        {
            proof {
                assert(self@.experiments.take(i + 1) =~= self@.experiments.take(i as int).push(self@.experiments[i as int]));
                self@.experiments.take(i as int).lemma_filter_push(self@.experiments[i as int], pred);
            }
            if opt_none_or_is(self.experiments[i].phase_id, phase_id) {
                out.push(self.experiments[i].dup());
            }
            i = i + 1;
        }
        proof { assert(self@.experiments.take(i as int) =~= self@.experiments); }
        Ok(out)
    }

    /// The experiment with the given id.
    pub fn get_experiment(&self, id: i64) -> (res: Result<Experiment>)
        requires
            self.wf(),
        ensures
            (res is Ok) == (self@.experiment(id) is Some),
            res matches Ok(p) ==> (self@.experiment(id) == Some(p)),
            res matches Err(e) ==> (e == StoreError::NotFound),
    {
        if !in_table(id, self.experiments.len()) {
            return Err(StoreError::NotFound);
        }
        Ok(self.experiments[(id - 1) as usize].dup())
    }

    /// The findings of an experiment (all findings for `None`), in creation order.
    pub fn list_findings(&self, experiment_id: Option<i64>) -> (res: Result<Vec<Finding>>)
        ensures
            res matches Ok(v) && v@ == self@.findings.filter(finding_in(experiment_id)),
    {
        let ghost pred = finding_in(experiment_id);
        let mut out: Vec<Finding> = Vec::new();
        let mut i: usize = 0;
        while i < self.findings.len()
            invariant
                i <= self.findings@.len(),
                pred == finding_in(experiment_id),
                out@ == self@.findings.take(i as int).filter(pred),
            decreases self.findings@.len() - i,
        {
            proof {
                assert(self@.findings.take(i + 1) =~= self@.findings.take(i as int).push(self@.findings[i as int]));
                self@.findings.take(i as int).lemma_filter_push(self@.findings[i as int], pred);
            }
            if opt_none_or_is(self.findings[i].experiment_id, experiment_id) {
                out.push(self.findings[i].dup());
            }
            i = i + 1;
        }
        proof { assert(self@.findings.take(i as int) =~= self@.findings); }
        Ok(out)
    }

    /// The finding with the given id.
    pub fn get_finding(&self, id: i64) -> (res: Result<Finding>)
        requires
            self.wf(),
        ensures
            (res is Ok) == (self@.finding(id) is Some),
            res matches Ok(p) ==> (self@.finding(id) == Some(p)),
            res matches Err(e) ==> (e == StoreError::NotFound),
    {
        if !in_table(id, self.findings.len()) {
            return Err(StoreError::NotFound);
        }
        Ok(self.findings[(id - 1) as usize].dup())
    }

    /// The edges that leave a node, in creation order.
    pub fn get_edges_from(&self, nt: NodeType, id: i64) -> (res: Result<Vec<Edge>>)
        ensures
            res matches Ok(v) && v@ == self@.edges.filter(edge_from(nt, id)),
    {
        let ghost pred = edge_from(nt, id);
        let mut out: Vec<Edge> = Vec::new();
        let mut i: usize = 0;
        while i < self.edges.len()
            invariant
                i <= self.edges@.len(),
                pred == edge_from(nt, id),
                out@ == self@.edges.take(i as int).filter(pred),
            decreases self.edges@.len() - i,
        {
            proof {
                assert(self@.edges.take(i + 1) =~= self@.edges.take(i as int).push(self@.edges[i as int]));
                self@.edges.take(i as int).lemma_filter_push(self@.edges[i as int], pred);
            }
            if self.edges[i].source_type == nt && self.edges[i].source_id == id {
                out.push(self.edges[i]);
            }
            i = i + 1;
        }
        proof { assert(self@.edges.take(i as int) =~= self@.edges); }
        Ok(out)
    }

    /// The edges that enter a node, in creation order.
    pub fn get_edges_to(&self, nt: NodeType, id: i64) -> (res: Result<Vec<Edge>>)
        ensures
            res matches Ok(v) && v@ == self@.edges.filter(edge_to(nt, id)),
    {
        let ghost pred = edge_to(nt, id);
        let mut out: Vec<Edge> = Vec::new();
        let mut i: usize = 0;
        while i < self.edges.len()
            invariant
                i <= self.edges@.len(),
                pred == edge_to(nt, id),
                out@ == self@.edges.take(i as int).filter(pred),
            decreases self.edges@.len() - i,
        {
            proof {
                assert(self@.edges.take(i + 1) =~= self@.edges.take(i as int).push(self@.edges[i as int]));
                self@.edges.take(i as int).lemma_filter_push(self@.edges[i as int], pred);
            }
            if self.edges[i].target_type == nt && self.edges[i].target_id == id {
                out.push(self.edges[i]);
            }
            i = i + 1;
        }
        proof { assert(self@.edges.take(i as int) =~= self@.edges); }
        Ok(out)
    }

    /// The decisions of a project together with those of no project, in creation order.
    pub fn list_decisions(&self, project_id: i64) -> (res: Result<Vec<Decision>>)
        ensures
            res matches Ok(v) && v@ == self@.decisions.filter(decision_of(project_id)),
    {
        let ghost pred = decision_of(project_id);
        let mut out: Vec<Decision> = Vec::new();
        let mut i: usize = 0;
        while i < self.decisions.len()
            invariant
                i <= self.decisions@.len(),
                pred == decision_of(project_id),
                out@ == self@.decisions.take(i as int).filter(pred),
            decreases self.decisions@.len() - i,
        {
            proof {
                assert(self@.decisions.take(i + 1) =~= self@.decisions.take(i as int).push(self@.decisions[i as int]));
                self@.decisions.take(i as int).lemma_filter_push(self@.decisions[i as int], pred);
            }
            if (opt_is(self.decisions[i].project_id, project_id) || self.decisions[i].project_id.is_none()) {
                out.push(self.decisions[i].dup());
            }
            i = i + 1;
        }
        proof { assert(self@.decisions.take(i as int) =~= self@.decisions); }
        Ok(out)
    }

    /// The decision with the given id.
    pub fn get_decision(&self, id: i64) -> (res: Result<Decision>)
        requires
            self.wf(),
        ensures
            (res is Ok) == (self@.decision(id) is Some),
            res matches Ok(p) ==> (self@.decision(id) == Some(p)),
            res matches Err(e) ==> (e == StoreError::NotFound),
    {
        if !in_table(id, self.decisions.len()) {
            return Err(StoreError::NotFound);
        }
        Ok(self.decisions[(id - 1) as usize].dup())
    }

    /// The hypotheses of a phase (all hypotheses for `None`), in creation order.
    pub fn list_hypotheses(&self, phase_id: Option<i64>) -> (res: Result<Vec<Hypothesis>>)
        ensures
            res matches Ok(v) && v@ == self@.hypotheses.filter(hypothesis_in(phase_id)),
    {
        let ghost pred = hypothesis_in(phase_id);
        let mut out: Vec<Hypothesis> = Vec::new();
        let mut i: usize = 0;
        while i < self.hypotheses.len()
            invariant
                i <= self.hypotheses@.len(),
                pred == hypothesis_in(phase_id),
                out@ == self@.hypotheses.take(i as int).filter(pred),
            decreases self.hypotheses@.len() - i,
        {
            proof {
                assert(self@.hypotheses.take(i + 1) =~= self@.hypotheses.take(i as int).push(self@.hypotheses[i as int]));
                self@.hypotheses.take(i as int).lemma_filter_push(self@.hypotheses[i as int], pred);
            }
            if opt_none_or_is(self.hypotheses[i].phase_id, phase_id) {
                out.push(self.hypotheses[i].dup());
            }
            i = i + 1;
        }
        proof { assert(self@.hypotheses.take(i as int) =~= self@.hypotheses); }
        Ok(out)
    }

    /// The hypothesis with the given id.
    pub fn get_hypothesis(&self, id: i64) -> (res: Result<Hypothesis>)
        requires
            self.wf(),
        ensures
            (res is Ok) == (self@.hypothesis(id) is Some),
            res matches Ok(p) ==> (self@.hypothesis(id) == Some(p)),
            res matches Err(e) ==> (e == StoreError::NotFound),
    {
        if !in_table(id, self.hypotheses.len()) {
            return Err(StoreError::NotFound);
        }
        Ok(self.hypotheses[(id - 1) as usize].dup())
    }

    /// The literature of a project, in creation order.
    pub fn list_literature(&self, project_id: i64) -> (res: Result<Vec<Literature>>)
        ensures
            res matches Ok(v) && v@ == self@.literature.filter(literature_of(project_id)),
    {
        let ghost pred = literature_of(project_id);
        let mut out: Vec<Literature> = Vec::new();
        let mut i: usize = 0;
        while i < self.literature.len()
            invariant
                i <= self.literature@.len(),
                pred == literature_of(project_id),
                out@ == self@.literature.take(i as int).filter(pred),
            decreases self.literature@.len() - i,
        {
            proof {
                assert(self@.literature.take(i + 1) =~= self@.literature.take(i as int).push(self@.literature[i as int]));
                self@.literature.take(i as int).lemma_filter_push(self@.literature[i as int], pred);
            }
            if self.literature[i].project_id == project_id {
                out.push(self.literature[i].dup());
            }
            i = i + 1;
        }
        proof { assert(self@.literature.take(i as int) =~= self@.literature); }
        Ok(out)
    }

    /// The literature entry with the given id.
    pub fn get_literature(&self, id: i64) -> (res: Result<Literature>)
        requires
            self.wf(),
        ensures
            (res is Ok) == (self@.literature_entry(id) is Some),
            res matches Ok(p) ==> (self@.literature_entry(id) == Some(p)),
            res matches Err(e) ==> (e == StoreError::NotFound),
    {
        if !in_table(id, self.literature.len()) {
            return Err(StoreError::NotFound);
        }
        Ok(self.literature[(id - 1) as usize].dup())
    }

    /// The principle with the given id.
    pub fn get_principle(&self, id: i64) -> (res: Result<Principle>)
        requires
            self.wf(),
        ensures
            (res is Ok) == (self@.principle(id) is Some),
            res matches Ok(p) ==> (self@.principle(id) == Some(p)),
            res matches Err(e) ==> (e == StoreError::NotFound),
    {
        if !in_table(id, self.principles.len()) {
            return Err(StoreError::NotFound);
        }
        Ok(self.principles[(id - 1) as usize].dup())
    }

    /// The constraint with the given id.
    pub fn get_constraint(&self, id: i64) -> (res: Result<Constraint>)
        requires
            self.wf(),
        ensures
            (res is Ok) == (self@.constraint(id) is Some),
            res matches Ok(p) ==> (self@.constraint(id) == Some(p)),
            res matches Err(e) ==> (e == StoreError::NotFound),
    {
        if !in_table(id, self.constraints.len()) {
            return Err(StoreError::NotFound);
        }
        Ok(self.constraints[(id - 1) as usize].dup())
    }

    /// The research tasks of a phase (all of them for `None`), in creation order.
    pub fn list_research(&self, phase_id: Option<i64>) -> (res: Result<Vec<Research>>)
        ensures
            res matches Ok(v) && v@ == self@.research.filter(research_in(phase_id)),
    {
        let ghost pred = research_in(phase_id);
        let mut out: Vec<Research> = Vec::new();
        let mut i: usize = 0;
        while i < self.research.len()
            invariant
                i <= self.research@.len(),
                pred == research_in(phase_id),
                out@ == self@.research.take(i as int).filter(pred),
            decreases self.research@.len() - i,
        {
            proof {
                assert(self@.research.take(i + 1) =~= self@.research.take(i as int).push(self@.research[i as int]));
                self@.research.take(i as int).lemma_filter_push(self@.research[i as int], pred);
            }
            if opt_none_or_is(self.research[i].phase_id, phase_id) {
                out.push(self.research[i].dup());
            }
            i = i + 1;
        }
        proof { assert(self@.research.take(i as int) =~= self@.research); }
        Ok(out)
    }

    /// The research task with the given id.
    pub fn get_research(&self, id: i64) -> (res: Result<Research>)
        requires
            self.wf(),
        ensures
            (res is Ok) == (self@.research_task(id) is Some),
            res matches Ok(p) ==> (self@.research_task(id) == Some(p)),
            res matches Err(e) ==> (e == StoreError::NotFound),
    {
        if !in_table(id, self.research.len()) {
            return Err(StoreError::NotFound);
        }
        Ok(self.research[(id - 1) as usize].dup())
    }

    /// The principles of a project, in creation order.
    pub fn list_principles(&self, project_id: i64) -> (res: Result<Vec<Principle>>)
        ensures
            res matches Ok(v) && v@ == self@.principles.filter(principle_of(project_id)),
    {
        let ghost pred = principle_of(project_id);
        let mut out: Vec<Principle> = Vec::new();
        let mut i: usize = 0;
        while i < self.principles.len()
            invariant
                i <= self.principles@.len(),
                pred == principle_of(project_id),
                out@ == self@.principles.take(i as int).filter(pred),
            decreases self.principles@.len() - i,
        {
            proof {
                assert(self@.principles.take(i + 1) =~= self@.principles.take(i as int).push(self@.principles[i as int]));
                self@.principles.take(i as int).lemma_filter_push(self@.principles[i as int], pred);
            }
            if self.principles[i].project_id == project_id {
                out.push(self.principles[i].dup());
            }
            i = i + 1;
        }
        proof { assert(self@.principles.take(i as int) =~= self@.principles); }
        Ok(out)
    }

    /// The constraints of a project, in creation order.
    pub fn list_constraints(&self, project_id: i64) -> (res: Result<Vec<Constraint>>)
        ensures
            res matches Ok(v) && v@ == self@.constraints.filter(constraint_of(project_id)),
    {
        let ghost pred = constraint_of(project_id);
        let mut out: Vec<Constraint> = Vec::new();
        let mut i: usize = 0;
        while i < self.constraints.len()
            invariant
                i <= self.constraints@.len(),
                pred == constraint_of(project_id),
                out@ == self@.constraints.take(i as int).filter(pred),
            decreases self.constraints@.len() - i,
        {
            proof {
                assert(self@.constraints.take(i + 1) =~= self@.constraints.take(i as int).push(self@.constraints[i as int]));
                self@.constraints.take(i as int).lemma_filter_push(self@.constraints[i as int], pred);
            }
            if self.constraints[i].project_id == project_id {
                out.push(self.constraints[i].dup());
            }
            i = i + 1;
        }
        proof { assert(self@.constraints.take(i as int) =~= self@.constraints); }
        Ok(out)
    }

    /// How many phases project `project_id` has.
    fn count_phases_of(&self, project_id: i64) -> (n: usize)
        ensures
            n == self@.phases_of(project_id).len(),
    {
        let ghost pred = phase_of(project_id);
        let mut n: usize = 0;
        let mut i: usize = 0;
        while i < self.phases.len()
            invariant
                i <= self.phases@.len(),
                pred == phase_of(project_id),
                self@.phases == self.phases@.map_values(|p: Phase| p@),
                n == self@.phases.take(i as int).filter(pred).len(),
                n <= i,
            decreases self.phases@.len() - i,
        {
            proof {
                assert(self@.phases.take(i + 1) =~= self@.phases.take(i as int).push(self@.phases[i as int]));
                self@.phases.take(i as int).lemma_filter_push(self@.phases[i as int], pred);
            }
            if self.phases[i].project_id == project_id {
                n = n + 1;
            }
            i = i + 1;
        }
        proof { assert(self@.phases.take(i as int) =~= self@.phases); }
        n
    }

    /// Creates a pending phase of an existing project.
    pub fn create_phase(&mut self, project_id: i64, name: &str, impact: i32, depends_on: &[i64]) -> (res: Result<Phase>)
        requires
            old(self).wf(),
        ensures
            final(self).wf(),
            (res is Ok) == (has_room(old(self)@.phases.len()) && (old(self)@.project(project_id) is Some)),
            res matches Ok(r) ==> {
                &&& r.id == old(self)@.phases.len() + 1
                &&& r.project_id == project_id
                &&& r.name@ == name@
                &&& r.impact == impact
                &&& r.depends_on@ == depends_on@
                &&& r.status == PhaseStatus::Pending
                &&& r.description is None && r.goals is None && r.success_criteria is None
                &&& r.started_at is None && r.completed_at is None
                &&& r.project_seq == old(self)@.phases_of(project_id).len() + 1
                &&& final(self)@ == old(self)@.with_phases(old(self)@.phases.push(r@))
            },
            res matches Err(e) ==> (final(self)@ == old(self)@ && e == (if !has_room(old(self)@.phases.len()) { StoreError::Capacity } else { StoreError::Constraint })),
    {
        let n = self.phases.len();
        if n as u64 >= 0x7fff_ffff_ffff_fff0 {
            return Err(StoreError::Capacity);
        }
        if !in_table(project_id, self.projects.len()) {
            return Err(StoreError::Constraint);
        }
        let seq = self.count_phases_of(project_id);
        let row = Phase {
            id: n as i64 + 1,
            project_id,
            name: name.to_owned(),
            impact,
            depends_on: vstd::slice::slice_to_vec(depends_on),
            status: PhaseStatus::Pending,
            description: None,
            goals: None,
            success_criteria: None,
            project_seq: seq as i64 + 1,
            started_at: None,
            completed_at: None,
        };
        let r = row.dup();
        self.phases.push(row);
        proof {
            assert(self@.phases =~= old(self)@.phases.push(r@));
        }
        Ok(r)
    }

    /// Creates a pending experiment, in an existing phase when one is named.
    pub fn create_experiment(&mut self, phase_id: Option<i64>, name: &str) -> (res: Result<Experiment>)
        requires
            old(self).wf(),
        ensures
            final(self).wf(),
            (res is Ok) == (has_room(old(self)@.experiments.len()) && (phase_id matches Some(x) ==> (old(self)@.phase(x) is Some))),
            res matches Ok(r) ==> {
                &&& r.id == old(self)@.experiments.len() + 1
                &&& r.phase_id == phase_id
                &&& r.name@ == name@
                &&& r.status == ExperimentStatus::Pending
                &&& r.result is None && r.notes is None
                &&& final(self)@ == old(self)@.with_experiments(old(self)@.experiments.push(r))
            },
            res matches Err(e) ==> (final(self)@ == old(self)@ && e == (if !has_room(old(self)@.experiments.len()) { StoreError::Capacity } else { StoreError::Constraint })),
    {
        let n = self.experiments.len();
        if n as u64 >= 0x7fff_ffff_ffff_fff0 {
            return Err(StoreError::Capacity);
        }
        if let Some(x) = phase_id {
            if !in_table(x, self.phases.len()) {
                return Err(StoreError::Constraint);
            }
        }
        let row = Experiment {
            id: n as i64 + 1,
            phase_id,
            name: name.to_owned(),
            status: ExperimentStatus::Pending,
            result: None,
            notes: None,
        };
        let r = row.dup();
        self.experiments.push(row);
        proof {
            assert(self@.experiments =~= old(self)@.experiments.push(r));
            assert(self@.phases =~= old(self)@.phases);
        }
        Ok(r)
    }

    /// Creates a finding, of an existing experiment when one is named.
    pub fn create_finding(&mut self, experiment_id: Option<i64>, text: &str) -> (res: Result<Finding>)
        requires
            old(self).wf(),
        ensures
            final(self).wf(),
            (res is Ok) == (has_room(old(self)@.findings.len()) && (experiment_id matches Some(x) ==> (old(self)@.experiment(x) is Some))),
            res matches Ok(r) ==> {
                &&& r.id == old(self)@.findings.len() + 1
                &&& r.experiment_id == experiment_id
                &&& r.text@ == text@
                &&& final(self)@ == old(self)@.with_findings(old(self)@.findings.push(r))
            },
            res matches Err(e) ==> (final(self)@ == old(self)@ && e == (if !has_room(old(self)@.findings.len()) { StoreError::Capacity } else { StoreError::Constraint })),
    {
        let n = self.findings.len();
        if n as u64 >= 0x7fff_ffff_ffff_fff0 {
            return Err(StoreError::Capacity);
        }
        if let Some(x) = experiment_id {
            if !in_table(x, self.experiments.len()) {
                return Err(StoreError::Constraint);
            }
        }
        let row = Finding { id: n as i64 + 1, experiment_id, text: text.to_owned() };
        let r = row.dup();
        self.findings.push(row);
        proof {
            assert(self@.findings =~= old(self)@.findings.push(r));
            assert(self@.phases =~= old(self)@.phases);
        }
        Ok(r)
    }

    /// Creates a decision; a named experiment and project must exist.
    pub fn create_decision(&mut self, experiment_id: Option<i64>, what: &str, why: Option<&str>, project_id: Option<i64>) -> (res: Result<Decision>)
        requires
            old(self).wf(),
        ensures
            final(self).wf(),
            (res is Ok) == (has_room(old(self)@.decisions.len()) && (experiment_id matches Some(x) ==> (old(self)@.experiment(x) is Some)) && (project_id matches Some(x) ==> (old(self)@.project(x) is Some))),
            res matches Ok(r) ==> {
                &&& r.id == old(self)@.decisions.len() + 1
                &&& r.experiment_id == experiment_id
                &&& r.what@ == what@
                &&& opt_str(r.why) == opt_ref(why)
                &&& r.project_id == project_id
                &&& final(self)@ == old(self)@.with_decisions(old(self)@.decisions.push(r))
            },
            res matches Err(e) ==> (final(self)@ == old(self)@ && e == (if !has_room(old(self)@.decisions.len()) { StoreError::Capacity } else { StoreError::Constraint })),
    {
        let n = self.decisions.len();
        if n as u64 >= 0x7fff_ffff_ffff_fff0 {
            return Err(StoreError::Capacity);
        }
        if let Some(x) = experiment_id {
            if !in_table(x, self.experiments.len()) {
                return Err(StoreError::Constraint);
            }
        }
        if let Some(x) = project_id {
            if !in_table(x, self.projects.len()) {
                return Err(StoreError::Constraint);
            }
        }
        let row = Decision {
            id: n as i64 + 1,
            experiment_id,
            what: what.to_owned(),
            why: own_opt(why),
            project_id,
        };
        let r = row.dup();
        self.decisions.push(row);
        proof {
            assert(self@.decisions =~= old(self)@.decisions.push(r));
            assert(self@.phases =~= old(self)@.phases);
        }
        Ok(r)
    }

    /// Creates a proposed hypothesis, in an existing phase when one is named.
    pub fn create_hypothesis(&mut self, phase_id: Option<i64>, text: &str) -> (res: Result<Hypothesis>)
        requires
            old(self).wf(),
        ensures
            final(self).wf(),
            (res is Ok) == (has_room(old(self)@.hypotheses.len()) && (phase_id matches Some(x) ==> (old(self)@.phase(x) is Some))),
            res matches Ok(r) ==> {
                &&& r.id == old(self)@.hypotheses.len() + 1
                &&& r.phase_id == phase_id
                &&& r.text@ == text@
                &&& r.status == HypothesisStatus::Proposed
                &&& r.experiment_id is None && r.finding_id is None && r.prediction is None && r.criteria is None
                &&& final(self)@ == old(self)@.with_hypotheses(old(self)@.hypotheses.push(r))
            },
            res matches Err(e) ==> (final(self)@ == old(self)@ && e == (if !has_room(old(self)@.hypotheses.len()) { StoreError::Capacity } else { StoreError::Constraint })),
    {
        let n = self.hypotheses.len();
        if n as u64 >= 0x7fff_ffff_ffff_fff0 {
            return Err(StoreError::Capacity);
        }
        if let Some(x) = phase_id {
            if !in_table(x, self.phases.len()) {
                return Err(StoreError::Constraint);
            }
        }
        let row = Hypothesis {
            id: n as i64 + 1,
            phase_id,
            text: text.to_owned(),
            status: HypothesisStatus::Proposed,
            experiment_id: None,
            finding_id: None,
            prediction: None,
            criteria: None,
        };
        let r = row.dup();
        self.hypotheses.push(row);
        proof {
            assert(self@.hypotheses =~= old(self)@.hypotheses.push(r));
            assert(self@.phases =~= old(self)@.phases);
        }
        Ok(r)
    }

    /// Creates an unread literature entry of an existing project.
    pub fn create_literature(&mut self, project_id: i64, title: &str, arxiv_id: Option<&str>, relevance: Option<&str>, key_findings: Option<&str>, authors: Option<&str>, venue: Option<&str>, year: Option<i32>, url: Option<&str>, code_url: Option<&str>, summary: Option<&str>) -> (res: Result<Literature>)
        requires
            old(self).wf(),
        ensures
            final(self).wf(),
            (res is Ok) == (has_room(old(self)@.literature.len()) && (old(self)@.project(project_id) is Some)),
            res matches Ok(r) ==> {
                &&& r.id == old(self)@.literature.len() + 1
                &&& r.project_id == project_id
                &&& r.title@ == title@
                &&& opt_str(r.arxiv_id) == opt_ref(arxiv_id)
                &&& opt_str(r.relevance) == opt_ref(relevance)
                &&& opt_str(r.key_findings) == opt_ref(key_findings)
                &&& opt_str(r.authors) == opt_ref(authors)
                &&& opt_str(r.venue) == opt_ref(venue)
                &&& r.year == year
                &&& opt_str(r.url) == opt_ref(url)
                &&& opt_str(r.code_url) == opt_ref(code_url)
                &&& opt_str(r.summary) == opt_ref(summary)
                &&& opt_str(r.status) == Some(seq!['u', 'n', 'r', 'e', 'a', 'd'])
                &&& final(self)@ == old(self)@.with_literature(old(self)@.literature.push(r))
            },
            res matches Err(e) ==> (final(self)@ == old(self)@ && e == (if !has_room(old(self)@.literature.len()) { StoreError::Capacity } else { StoreError::Constraint })),
    {
        let n = self.literature.len();
        if n as u64 >= 0x7fff_ffff_ffff_fff0 {
            return Err(StoreError::Capacity);
        }
        if !in_table(project_id, self.projects.len()) {
            return Err(StoreError::Constraint);
        }
        let row = Literature {
            id: n as i64 + 1,
            project_id,
            title: title.to_owned(),
            arxiv_id: own_opt(arxiv_id),
            relevance: own_opt(relevance),
            key_findings: own_opt(key_findings),
            authors: own_opt(authors),
            venue: own_opt(venue),
            year,
            url: own_opt(url),
            code_url: own_opt(code_url),
            summary: own_opt(summary),
            status: Some(unread_status()),
        };
        let r = row.dup();
        self.literature.push(row);
        proof {
            assert(self@.literature =~= old(self)@.literature.push(r));
            assert(self@.phases =~= old(self)@.phases);
        }
        Ok(r)
    }

    /// Creates a pending research task, in an existing phase when one is named.
    pub fn create_research(&mut self, phase_id: Option<i64>, name: &str) -> (res: Result<Research>)
        requires
            old(self).wf(),
        ensures
            final(self).wf(),
            (res is Ok) == (has_room(old(self)@.research.len()) && (phase_id matches Some(x) ==> (old(self)@.phase(x) is Some))),
            res matches Ok(r) ==> {
                &&& r.id == old(self)@.research.len() + 1
                &&& r.phase_id == phase_id
                &&& r.name@ == name@
                &&& r.status == ResearchStatus::Pending
                &&& r.report is None
                &&& final(self)@ == old(self)@.with_research(old(self)@.research.push(r))
            },
            res matches Err(e) ==> (final(self)@ == old(self)@ && e == (if !has_room(old(self)@.research.len()) { StoreError::Capacity } else { StoreError::Constraint })),
    {
        let n = self.research.len();
        if n as u64 >= 0x7fff_ffff_ffff_fff0 {
            return Err(StoreError::Capacity);
        }
        if let Some(x) = phase_id {
            if !in_table(x, self.phases.len()) {
                return Err(StoreError::Constraint);
            }
        }
        let row = Research { id: n as i64 + 1, phase_id, name: name.to_owned(), status: ResearchStatus::Pending, report: None };
        let r = row.dup();
        self.research.push(row);
        proof {
            assert(self@.research =~= old(self)@.research.push(r));
            assert(self@.phases =~= old(self)@.phases);
        }
        Ok(r)
    }

    /// Creates an active principle of an existing project.
    pub fn create_principle(&mut self, project_id: i64, scope: PrincipleScope, text: &str, rationale: Option<&str>, enforcement_level: Option<&str>) -> (res: Result<Principle>)
        requires
            old(self).wf(),
        ensures
            final(self).wf(),
            (res is Ok) == (has_room(old(self)@.principles.len()) && (old(self)@.project(project_id) is Some)),
            res matches Ok(r) ==> {
                &&& r.id == old(self)@.principles.len() + 1
                &&& r.project_id == project_id
                &&& r.scope == scope
                &&& r.text@ == text@
                &&& opt_str(r.rationale) == opt_ref(rationale)
                &&& opt_str(r.enforcement_level) == opt_ref(enforcement_level)
                &&& r.status == PrincipleStatus::Active
                &&& final(self)@ == old(self)@.with_principles(old(self)@.principles.push(r))
            },
            res matches Err(e) ==> (final(self)@ == old(self)@ && e == (if !has_room(old(self)@.principles.len()) { StoreError::Capacity } else { StoreError::Constraint })),
    {
        let n = self.principles.len();
        if n as u64 >= 0x7fff_ffff_ffff_fff0 {
            return Err(StoreError::Capacity);
        }
        if !in_table(project_id, self.projects.len()) {
            return Err(StoreError::Constraint);
        }
        let row = Principle {
            id: n as i64 + 1,
            project_id,
            scope,
            text: text.to_owned(),
            rationale: own_opt(rationale),
            enforcement_level: own_opt(enforcement_level),
            status: PrincipleStatus::Active,
        };
        let r = row.dup();
        self.principles.push(row);
        proof {
            assert(self@.principles =~= old(self)@.principles.push(r));
            assert(self@.phases =~= old(self)@.phases);
        }
        Ok(r)
    }

    /// Creates a constraint of an existing project.
    pub fn create_constraint(&mut self, project_id: i64, scope: ConstraintScope, text: &str, source: Option<&str>, severity: Option<&str>, resource: Option<&str>, measured_value: Option<&str>, expires_at: Option<&str>) -> (res: Result<Constraint>)
        requires
            old(self).wf(),
        ensures
            final(self).wf(),
            (res is Ok) == (has_room(old(self)@.constraints.len()) && (old(self)@.project(project_id) is Some)),
            res matches Ok(r) ==> {
                &&& r.id == old(self)@.constraints.len() + 1
                &&& r.project_id == project_id
                &&& r.scope == scope
                &&& r.text@ == text@
                &&& opt_str(r.source) == opt_ref(source)
                &&& opt_str(r.severity) == opt_ref(severity)
                &&& opt_str(r.resource) == opt_ref(resource)
                &&& opt_str(r.measured_value) == opt_ref(measured_value)
                &&& opt_str(r.expires_at) == opt_ref(expires_at)
                &&& final(self)@ == old(self)@.with_constraints(old(self)@.constraints.push(r))
            },
            res matches Err(e) ==> (final(self)@ == old(self)@ && e == (if !has_room(old(self)@.constraints.len()) { StoreError::Capacity } else { StoreError::Constraint })),
    {
        let n = self.constraints.len();
        if n as u64 >= 0x7fff_ffff_ffff_fff0 {
            return Err(StoreError::Capacity);
        }
        if !in_table(project_id, self.projects.len()) {
            return Err(StoreError::Constraint);
        }
        let row = Constraint {
            id: n as i64 + 1,
            project_id,
            scope,
            text: text.to_owned(),
            source: own_opt(source),
            severity: own_opt(severity),
            resource: own_opt(resource),
            measured_value: own_opt(measured_value),
            expires_at: own_opt(expires_at),
        };
        let r = row.dup();
        self.constraints.push(row);
        proof {
            assert(self@.constraints =~= old(self)@.constraints.push(r));
            assert(self@.phases =~= old(self)@.phases);
        }
        Ok(r)
    }

    /// Records the belief status of an evidence-bearing node: believed,
    /// suspended or retracted. Another node type is refused as `Invalid`,
    /// another status as `Invalid`, a node that does not exist as
    /// `NotFound`.
    pub fn update_belief_status(&mut self, nt: NodeType, id: i64, status: &str) -> (res: Result<()>)
        requires
            old(self).wf(),
        ensures
            final(self).wf(),
            (res is Ok) == (belief_word(status@) && old(self)@.holds_belief(nt, id)),
            res matches Err(e) ==> final(self)@ == old(self)@
                && e == (if !belief_word(status@) { StoreError::Invalid } else if nt == NodeType::Finding || nt == NodeType::Decision
                    || nt == NodeType::Hypothesis || nt == NodeType::Principle || nt == NodeType::Constraint { StoreError::NotFound }
                    else { StoreError::Invalid }),
            res is Ok ==> final(self)@.beliefs.len() == old(self)@.beliefs.len() + 1
                && final(self)@.beliefs.last().node_type == nt && final(self)@.beliefs.last().node_id == id
                && final(self)@.beliefs.last().status@ == status@
                && final(self)@ == (StoreView { beliefs: final(self)@.beliefs, ..old(self)@ })
                && final(self)@.beliefs.drop_last() == old(self)@.beliefs,
    {
        if !(crate::text::str_eq(status, "believed") || crate::text::str_eq(status, "suspended")
            || crate::text::str_eq(status, "retracted")) {
            return Err(StoreError::Invalid);
        }
        let n = match nt {
            NodeType::Finding => self.findings.len(),
            NodeType::Decision => self.decisions.len(),
            NodeType::Hypothesis => self.hypotheses.len(),
            NodeType::Principle => self.principles.len(),
            NodeType::Constraint => self.constraints.len(),
            _ => { return Err(StoreError::Invalid); },
        };
        if !in_table(id, n) {
            return Err(StoreError::NotFound);
        }
        let ghost b0 = self.beliefs@;
        self.beliefs.push(Belief { node_type: nt, node_id: id, status: status.to_owned() });
        proof {
            assert(self@.beliefs.drop_last() =~= b0);
            assert(self@.phases =~= old(self)@.phases);
        }
        Ok(())
    }

    /// Whether an edge from `source_type`#`source_id` to
    /// `target_type`#`target_id` of relation `relation` is stored.
    pub fn has_edge(&self, source_type: NodeType, source_id: i64, target_type: NodeType, target_id: i64, relation: EdgeType) -> (b: bool)
        ensures
            b == edge_exists(self@, source_type, source_id, target_type, target_id, relation),
    {
        let mut i: usize = 0;
        while i < self.edges.len()
            invariant
                i <= self@.edges.len(),
                self@.edges == self.edges@,
                forall|k: int| 0 <= k < i ==> !#[trigger] same_edge(self@.edges[k], source_type, source_id, target_type, target_id, relation),
            decreases self@.edges.len() - i,
        {
            let e = &self.edges[i];
            if e.source_type == source_type && e.source_id == source_id && e.target_type == target_type
                && e.target_id == target_id && e.relation == relation {
                proof { assert(same_edge(self@.edges[i as int], source_type, source_id, target_type, target_id, relation)); }
                return true;
            }
            i = i + 1;
        }
        false
    }

    /// Creates a typed edge between two nodes.
    pub fn create_edge(&mut self, source_type: NodeType, source_id: i64, target_type: NodeType, target_id: i64, relation: EdgeType) -> (res: Result<Edge>)
        requires
            old(self).wf(),
        ensures
            final(self).wf(),
            (res is Ok) == (has_room(old(self)@.edges.len())),
            res matches Ok(r) ==> {
                &&& r.id == old(self)@.edges.len() + 1
                &&& r.source_type == source_type && r.source_id == source_id
                &&& r.target_type == target_type && r.target_id == target_id
                &&& r.relation == relation
                &&& final(self)@ == old(self)@.with_edges(old(self)@.edges.push(r))
            },
            res matches Err(e) ==> (final(self)@ == old(self)@ && e == StoreError::Capacity),
    {
        let n = self.edges.len();
        if n as u64 >= 0x7fff_ffff_ffff_fff0 {
            return Err(StoreError::Capacity);
        }

        let row = Edge { id: n as i64 + 1, source_type, source_id, target_type, target_id, relation };
        let r = row;
        self.edges.push(row);
        proof {
            assert(self@.edges =~= old(self)@.edges.push(r));
            assert(self@.phases =~= old(self)@.phases);
        }
        Ok(r)
    }

    /// Sets the status of a phase.
    pub fn update_phase_status(&mut self, id: i64, status: PhaseStatus) -> (res: Result<()>)
        requires
            old(self).wf(),
        ensures
            final(self).wf(),
            (res is Ok) == (old(self)@.phase(id) is Some),
            res matches Err(e) ==> (final(self)@ == old(self)@ && e == StoreError::NotFound),
            (res is Ok) ==> (final(self)@ == old(self)@.with_phases(old(self)@.phases.update(id - 1, (PhaseView { status, ..old(self)@.phases[id - 1] })))),
    {
        if !in_table(id, self.phases.len()) {
            return Err(StoreError::NotFound);
        }
        let k = (id - 1) as usize;
        let mut p = self.phases[k].dup();
        p.status = status;
        self.phases.set(k, p);
        proof {
            assert(self@.phases =~= old(self)@.phases.update(id - 1, (PhaseView { status, ..old(self)@.phases[id - 1] })));
        }
        Ok(())
    }

    /// Replaces the description, goals and success criteria of a phase where new ones are given.
    pub fn update_phase_fields(&mut self, id: i64, description: Option<&str>, goals: Option<&str>, success_criteria: Option<&str>) -> (res: Result<()>)
        requires
            old(self).wf(),
        ensures
            final(self).wf(),
            (res is Ok) == (old(self)@.phase(id) is Some),
            res matches Err(e) ==> (final(self)@ == old(self)@ && e == StoreError::NotFound),
            (res is Ok) ==> (final(self)@ == old(self)@.with_phases(old(self)@.phases.update(id - 1, (PhaseView {
                description: if description is Some { opt_ref(description) } else { old(self)@.phases[id - 1].description },
                goals: if goals is Some { opt_ref(goals) } else { old(self)@.phases[id - 1].goals },
                success_criteria: if success_criteria is Some { opt_ref(success_criteria) } else { old(self)@.phases[id - 1].success_criteria },
                ..old(self)@.phases[id - 1]
            })))),
    {
        if !in_table(id, self.phases.len()) {
            return Err(StoreError::NotFound);
        }
        let k = (id - 1) as usize;
        let mut p = self.phases[k].dup();
        if description.is_some() {
            p.description = own_opt(description);
        }
        if goals.is_some() {
            p.goals = own_opt(goals);
        }
        if success_criteria.is_some() {
            p.success_criteria = own_opt(success_criteria);
        }
        self.phases.set(k, p);
        proof {
            assert(self@.phases =~= old(self)@.phases.update(id - 1, (PhaseView {
                description: if description is Some { opt_ref(description) } else { old(self)@.phases[id - 1].description },
                goals: if goals is Some { opt_ref(goals) } else { old(self)@.phases[id - 1].goals },
                success_criteria: if success_criteria is Some { opt_ref(success_criteria) } else { old(self)@.phases[id - 1].success_criteria },
                ..old(self)@.phases[id - 1]
            })));
        }
        Ok(())
    }

    /// Sets the status of an experiment, and its result where one is given.
    pub fn update_experiment_status(&mut self, id: i64, status: ExperimentStatus, result: Option<&str>) -> (res: Result<()>)
        requires
            old(self).wf(),
        ensures
            final(self).wf(),
            (res is Ok) == (old(self)@.experiment(id) is Some),
            res matches Err(e) ==> (final(self)@ == old(self)@ && e == StoreError::NotFound),
            (res is Ok) ==> {
                let (o, n) = (old(self)@.experiments[id - 1], final(self)@.experiments[id - 1]);
                &&& final(self)@ == old(self)@.with_experiments(old(self)@.experiments.update(id - 1, n))
                &&& n.id == o.id && n.phase_id == o.phase_id && n.name == o.name && n.notes == o.notes
                &&& n.status == status
                &&& opt_str(n.result) == (if result is Some { opt_ref(result) } else { opt_str(o.result) })
            },
    {
        if !in_table(id, self.experiments.len()) {
            return Err(StoreError::NotFound);
        }
        let k = (id - 1) as usize;
        let mut p = self.experiments[k].dup();
        p.status = status;
        if result.is_some() {
            p.result = own_opt(result);
        }
        let ghost np = p;
        self.experiments.set(k, p);
        proof {
            assert(self@.experiments =~= old(self)@.experiments.update(id - 1, np));
            assert(self@.phases =~= old(self)@.phases);
        }
        Ok(())
    }

    /// Sets the status of a hypothesis, and the experiment that tests it and
    /// the finding that resolved it where they are given (a link not given
    /// is kept).
    pub fn update_hypothesis(&mut self, id: i64, status: HypothesisStatus, experiment_id: Option<i64>,
        finding_id: Option<i64>) -> (res: Result<()>)
        requires
            old(self).wf(),
        ensures
            final(self).wf(),
            (res is Ok) == (old(self)@.hypothesis(id) is Some),
            res matches Err(e) ==> (final(self)@ == old(self)@ && e == StoreError::NotFound),
            (res is Ok) ==> {
                let (o, n) = (old(self)@.hypotheses[id - 1], final(self)@.hypotheses[id - 1]);
                &&& final(self)@ == old(self)@.with_hypotheses(old(self)@.hypotheses.update(id - 1, n))
                &&& n == (Hypothesis {
                    status,
                    experiment_id: if experiment_id is Some { experiment_id } else { o.experiment_id },
                    finding_id: if finding_id is Some { finding_id } else { o.finding_id },
                    ..o
                })
            },
    {
        if !in_table(id, self.hypotheses.len()) {
            return Err(StoreError::NotFound);
        }
        let k = (id - 1) as usize;
        let mut h = self.hypotheses[k].dup();
        h.status = status;
        if experiment_id.is_some() {
            h.experiment_id = experiment_id;
        }
        if finding_id.is_some() {
            h.finding_id = finding_id;
        }
        let ghost nh = h;
        self.hypotheses.set(k, h);
        proof {
            assert(self@.hypotheses =~= old(self)@.hypotheses.update(id - 1, nh));
            assert(self@.phases =~= old(self)@.phases);
        }
        Ok(())
    }

    /// Sets what a hypothesis predicts and what would settle it, where they
    /// are given (a field not given is kept).
    pub fn update_hypothesis_fields(&mut self, id: i64, prediction: Option<&str>, criteria: Option<&str>) -> (res: Result<()>)
        requires
            old(self).wf(),
        ensures
            final(self).wf(),
            (res is Ok) == (old(self)@.hypothesis(id) is Some),
            res matches Err(e) ==> (final(self)@ == old(self)@ && e == StoreError::NotFound),
            (res is Ok) ==> {
                let (o, n) = (old(self)@.hypotheses[id - 1], final(self)@.hypotheses[id - 1]);
                &&& final(self)@ == old(self)@.with_hypotheses(old(self)@.hypotheses.update(id - 1, n))
                &&& n.id == o.id && n.phase_id == o.phase_id && n.text == o.text && n.status == o.status
                &&& n.experiment_id == o.experiment_id && n.finding_id == o.finding_id
                &&& opt_str(n.prediction) == (if prediction is Some { opt_ref(prediction) } else { opt_str(o.prediction) })
                &&& opt_str(n.criteria) == (if criteria is Some { opt_ref(criteria) } else { opt_str(o.criteria) })
            },
    {
        if !in_table(id, self.hypotheses.len()) {
            return Err(StoreError::NotFound);
        }
        let k = (id - 1) as usize;
        let mut h = self.hypotheses[k].dup();
        if prediction.is_some() {
            h.prediction = own_opt(prediction);
        }
        if criteria.is_some() {
            h.criteria = own_opt(criteria);
        }
        let ghost nh = h;
        self.hypotheses.set(k, h);
        proof {
            assert(self@.hypotheses =~= old(self)@.hypotheses.update(id - 1, nh));
            assert(self@.phases =~= old(self)@.phases);
        }
        Ok(())
    }

    /// The next clock reading: the clock advances by one on each timestamp
    /// it hands out (and stays at its largest value once there).
    pub open spec fn tick(c: u64) -> u64 {
        if c < u64::MAX { (c + 1) as u64 } else { c }
    }

    fn advance_clock(&mut self) -> (t: u64)
        ensures
            t == old(self)@.clock,
            final(self)@ == (StoreView { clock: Self::tick(old(self)@.clock), ..old(self)@ }),
    {
        let t = self.clock;
        if self.clock < u64::MAX {
            self.clock = self.clock + 1;
        }
        proof { assert(self@.phases =~= old(self)@.phases); }
        t
    }

    /// Stamps a phase with the current clock reading as its start.
    pub fn set_phase_started(&mut self, id: i64) -> (res: Result<()>)
        requires
            old(self).wf(),
        ensures
            final(self).wf(),
            (res is Ok) == (old(self)@.phase(id) is Some),
            res matches Err(e) ==> (final(self)@ == old(self)@ && e == StoreError::NotFound),
            (res is Ok) ==> (final(self)@ == (StoreView {
                phases: old(self)@.phases.update(id - 1, (PhaseView { started_at: Some(old(self)@.clock), ..old(self)@.phases[id - 1] })),
                clock: Self::tick(old(self)@.clock),
                ..old(self)@
            })),
    {
        if !in_table(id, self.phases.len()) {
            return Err(StoreError::NotFound);
        }
        let t = self.advance_clock();
        let k = (id - 1) as usize;
        let mut p = self.phases[k].dup();
        p.started_at = Some(t);
        self.phases.set(k, p);
        proof {
            assert(self@.phases =~= old(self)@.phases.update(id - 1, (PhaseView { started_at: Some(old(self)@.clock), ..old(self)@.phases[id - 1] })));
        }
        Ok(())
    }

    /// Stamps a phase with the current clock reading as its completion.
    pub fn set_phase_completed(&mut self, id: i64) -> (res: Result<()>)
        requires
            old(self).wf(),
        ensures
            final(self).wf(),
            (res is Ok) == (old(self)@.phase(id) is Some),
            res matches Err(e) ==> (final(self)@ == old(self)@ && e == StoreError::NotFound),
            (res is Ok) ==> (final(self)@ == (StoreView {
                phases: old(self)@.phases.update(id - 1, (PhaseView { completed_at: Some(old(self)@.clock), ..old(self)@.phases[id - 1] })),
                clock: Self::tick(old(self)@.clock),
                ..old(self)@
            })),
    {
        if !in_table(id, self.phases.len()) {
            return Err(StoreError::NotFound);
        }
        let t = self.advance_clock();
        let k = (id - 1) as usize;
        let mut p = self.phases[k].dup();
        p.completed_at = Some(t);
        self.phases.set(k, p);
        proof {
            assert(self@.phases =~= old(self)@.phases.update(id - 1, (PhaseView { completed_at: Some(old(self)@.clock), ..old(self)@.phases[id - 1] })));
        }
        Ok(())
    }

    /// Sets the status of a literature entry.
    pub fn update_literature_status(&mut self, id: i64, status: &str) -> (res: Result<()>)
        requires
            old(self).wf(),
        ensures
            final(self).wf(),
            (res is Ok) == (old(self)@.literature_entry(id) is Some),
            res matches Err(e) ==> (final(self)@ == old(self)@ && e == StoreError::NotFound),
            (res is Ok) ==> {
                let (o, n) = (old(self)@.literature[id - 1], final(self)@.literature[id - 1]);
                &&& final(self)@ == old(self)@.with_literature(old(self)@.literature.update(id - 1, n))
                &&& opt_str(n.status) == Some(status@)
                &&& n == (Literature { status: n.status, ..o })
            },
    {
        if !in_table(id, self.literature.len()) {
            return Err(StoreError::NotFound);
        }
        let k = (id - 1) as usize;
        let mut p = self.literature[k].dup();
        p.status = Some(status.to_owned());
        let ghost np = p;
        self.literature.set(k, p);
        proof {
            assert(self@.literature =~= old(self)@.literature.update(id - 1, np));
            assert(self@.phases =~= old(self)@.phases);
        }
        Ok(())
    }

    /// Sets the status of a research task, and its report where one is given.
    pub fn update_research(&mut self, id: i64, status: ResearchStatus, report: Option<&str>) -> (res: Result<()>)
        requires
            old(self).wf(),
        ensures
            final(self).wf(),
            (res is Ok) == (old(self)@.research_task(id) is Some),
            res matches Err(e) ==> (final(self)@ == old(self)@ && e == StoreError::NotFound),
            (res is Ok) ==> {
                let (o, n) = (old(self)@.research[id - 1], final(self)@.research[id - 1]);
                &&& final(self)@ == old(self)@.with_research(old(self)@.research.update(id - 1, n))
                &&& opt_str(n.report) == (if report is Some { opt_ref(report) } else { opt_str(o.report) })
                &&& n == (Research { status, report: n.report, ..o })
            },
    {
        if !in_table(id, self.research.len()) {
            return Err(StoreError::NotFound);
        }
        let k = (id - 1) as usize;
        let mut p = self.research[k].dup();
        p.status = status;
        if report.is_some() {
            p.report = own_opt(report);
        }
        let ghost np = p;
        self.research.set(k, p);
        proof {
            assert(self@.research =~= old(self)@.research.update(id - 1, np));
            assert(self@.phases =~= old(self)@.phases);
        }
        Ok(())
    }

    /// Gives edge `id` a new relation; the edge keeps its id and place.
    pub fn set_edge_relation(&mut self, id: i64, relation: EdgeType) -> (res: Result<()>)
        requires
            old(self).wf(),
        ensures
            final(self).wf(),
            (res is Ok) == (1 <= id <= old(self)@.edges.len()),
            res is Ok ==> final(self)@ == old(self)@.with_edges(
                old(self)@.edges.update(id - 1, Edge { relation, ..old(self)@.edges[id - 1] })),
            res matches Err(e) ==> final(self)@ == old(self)@ && e == StoreError::NotFound,
    {
        if !in_table(id, self.edges.len()) {
            return Err(StoreError::NotFound);
        }
        let k = (id - 1) as usize;
        let mut e = self.edges[k];
        e.relation = relation;
        self.edges.set(k, e);
        proof {
            assert(self@.edges =~= old(self)@.edges.update(id - 1, Edge { relation, ..old(self)@.edges[id - 1] }));
            assert(self@.phases =~= old(self)@.phases);
        }
        Ok(())
    }

    /// All edges, in creation order.
    pub fn list_all_edges(&self) -> (res: Result<Vec<Edge>>)
        ensures
            res matches Ok(v) && v@ == self@.edges,
    {
        let mut out: Vec<Edge> = Vec::new();
        let mut i: usize = 0;
        while i < self.edges.len()
            invariant
                i <= self.edges@.len(),
                out@ == self.edges@.take(i as int),
            decreases self.edges@.len() - i,
        {
            out.push(self.edges[i]);
            i = i + 1;
            proof { assert(out@ =~= self.edges@.take(i as int)); }
        }
        proof { assert(self.edges@.take(i as int) =~= self.edges@); }
        Ok(out)
    }

    /// Starts a session, of an existing project when one is named.
    pub fn create_session(&mut self, project_id: Option<i64>) -> (res: Result<Session>)
        requires
            old(self).wf(),
        ensures
            final(self).wf(),
            (res is Ok) == (has_room(old(self)@.sessions.len()) && (project_id matches Some(x) ==> (old(self)@.project(x) is Some))),
            res matches Ok(r) ==> {
                &&& r.id == old(self)@.sessions.len() + 1
                &&& r.project_id == project_id && r.active_experiment_id is None
                &&& r.started_at == old(self)@.clock && r.ended_at is None && r.summary is None
                &&& r.marks == marks_of(old(self)@)
                &&& final(self)@ == (StoreView { sessions: old(self)@.sessions.push(r), clock: Self::tick(old(self)@.clock), ..old(self)@ })
            },
            res matches Err(e) ==> (final(self)@ == old(self)@ && e == (if !has_room(old(self)@.sessions.len()) { StoreError::Capacity } else { StoreError::Constraint })),
    {
        let n = self.sessions.len();
        if n as u64 >= 0x7fff_ffff_ffff_fff0 {
            return Err(StoreError::Capacity);
        }
        if let Some(x) = project_id {
            if !in_table(x, self.projects.len()) {
                return Err(StoreError::Constraint);
            }
        }
        let marks = Marks {
            phases: self.phases.len(),
            experiments: self.experiments.len(),
            findings: self.findings.len(),
            decisions: self.decisions.len(),
            hypotheses: self.hypotheses.len(),
            research: self.research.len(),
            literature: self.literature.len(),
            principles: self.principles.len(),
            constraints: self.constraints.len(),
        };
        let t = self.advance_clock();
        let row = Session { id: n as i64 + 1, project_id, active_experiment_id: None, started_at: t, ended_at: None, summary: None, marks };
        let r = row.dup();
        self.sessions.push(row);
        proof {
            assert(self@.sessions =~= old(self)@.sessions.push(r));
            assert(self@.phases =~= old(self)@.phases);
        }
        Ok(r)
    }

    /// The most recently started session that has not ended, if any.
    pub fn get_current_session(&self) -> (res: Result<Option<Session>>)
        ensures
            res matches Ok(o) && o == current_session(self@.sessions),
    {
        let mut i = self.sessions.len();
        proof { assert(self.sessions@.take(i as int) =~= self.sessions@); }
        while i > 0
            invariant
                i <= self.sessions@.len(),
                current_session(self.sessions@) == current_session(self.sessions@.take(i as int)),
            decreases i,
        {
            proof { assert(self.sessions@.take(i as int).drop_last() =~= self.sessions@.take(i - 1)); }
            if self.sessions[i - 1].ended_at.is_none() {
                return Ok(Some(self.sessions[i - 1].dup()));
            }
            i = i - 1;
        }
        Ok(None)
    }

    /// Ends a session, recording a summary where one is given.
    pub fn end_session(&mut self, id: i64, summary: Option<&str>) -> (res: Result<()>)
        requires
            old(self).wf(),
        ensures
            final(self).wf(),
            (res is Ok) == (1 <= id <= old(self)@.sessions.len()),
            res matches Err(e) ==> (final(self)@ == old(self)@ && e == StoreError::NotFound),
            (res is Ok) ==> {
                let (o, n) = (old(self)@.sessions[id - 1], final(self)@.sessions[id - 1]);
                &&& final(self)@ == (StoreView { sessions: old(self)@.sessions.update(id - 1, n), clock: Self::tick(old(self)@.clock), ..old(self)@ })
                &&& opt_str(n.summary) == (if summary is Some { opt_ref(summary) } else { opt_str(o.summary) })
                &&& n == (Session { ended_at: Some(old(self)@.clock), summary: n.summary, ..o })
            },
    {
        if !in_table(id, self.sessions.len()) {
            return Err(StoreError::NotFound);
        }
        let t = self.advance_clock();
        let k = (id - 1) as usize;
        let mut p = self.sessions[k].dup();
        p.ended_at = Some(t);
        if summary.is_some() {
            p.summary = own_opt(summary);
        }
        let ghost np = p;
        self.sessions.set(k, p);
        proof {
            assert(self@.sessions =~= old(self)@.sessions.update(id - 1, np));
            assert(self@.phases =~= old(self)@.phases);
        }
        Ok(())
    }

    /// How many rows each node table holds.
    pub fn table_sizes(&self) -> (m: Marks)
        ensures
            m == marks_of(self@),
            m.phases == self@.phases.len() && m.experiments == self@.experiments.len() && m.findings == self@.findings.len(),
            m.decisions == self@.decisions.len() && m.hypotheses == self@.hypotheses.len() && m.research == self@.research.len(),
            m.literature == self@.literature.len() && m.principles == self@.principles.len()
                && m.constraints == self@.constraints.len(),
    {
        Marks {
            phases: self.phases.len(),
            experiments: self.experiments.len(),
            findings: self.findings.len(),
            decisions: self.decisions.len(),
            hypotheses: self.hypotheses.len(),
            research: self.research.len(),
            literature: self.literature.len(),
            principles: self.principles.len(),
            constraints: self.constraints.len(),
        }
    }

    /// The session with id `id`.
    pub fn get_session(&self, id: i64) -> (res: Result<Session>)
        requires
            self.wf(),
        ensures
            (res is Ok) == (1 <= id <= self@.sessions.len()),
            res matches Ok(s) ==> s == self@.sessions[id - 1],
            res matches Err(e) ==> e == StoreError::NotFound,
    {
        if !in_table(id, self.sessions.len()) {
            return Err(StoreError::NotFound);
        }
        Ok(self.sessions[(id - 1) as usize].dup())
    }

    /// Sets the active experiment of session `id`.
    pub fn set_session_experiment(&mut self, id: i64, experiment_id: i64) -> (res: Result<()>)
        requires
            old(self).wf(),
        ensures
            final(self).wf(),
            (res is Ok) == (1 <= id <= old(self)@.sessions.len()),
            res matches Err(e) ==> (final(self)@ == old(self)@ && e == StoreError::NotFound),
            (res is Ok) ==> final(self)@ == (StoreView { sessions: old(self)@.sessions.update(id - 1,
                (Session { active_experiment_id: Some(experiment_id), ..old(self)@.sessions[id - 1] })), ..old(self)@ }),
    {
        if !in_table(id, self.sessions.len()) {
            return Err(StoreError::NotFound);
        }
        let k = (id - 1) as usize;
        let mut p = self.sessions[k].dup();
        p.active_experiment_id = Some(experiment_id);
        let ghost np = p;
        self.sessions.set(k, p);
        proof {
            assert(self@.sessions =~= old(self)@.sessions.update(id - 1, np));
            assert(self@.phases =~= old(self)@.phases);
        }
        Ok(())
    }

    /// The experiments of all phases of a project, in creation order.
    pub fn list_project_experiments(&self, project_id: i64) -> (res: Result<Vec<Experiment>>)
        ensures
            res matches Ok(v) && v@ == self@.experiments.filter(experiment_of_project(self@, project_id)),
    {
        let ghost pred = experiment_of_project(self@, project_id);
        let mut out: Vec<Experiment> = Vec::new();
        let mut i: usize = 0;
        while i < self.experiments.len()
            invariant
                i <= self.experiments@.len(),
                pred == experiment_of_project(self@, project_id),
                out@ == self@.experiments.take(i as int).filter(pred),
            decreases self.experiments@.len() - i,
        {
            proof {
                assert(self@.experiments.take(i + 1) =~= self@.experiments.take(i as int).push(self@.experiments[i as int]));
                self@.experiments.take(i as int).lemma_filter_push(self@.experiments[i as int], pred);
            }
            let belongs = match self.experiments[i].phase_id {
                Some(ph) => in_table(ph, self.phases.len()) && self.phases[(ph - 1) as usize].project_id == project_id,
                None => false,
            };
            if belongs {
                out.push(self.experiments[i].dup());
            }
            i = i + 1;
        }
        proof { assert(self@.experiments.take(i as int) =~= self@.experiments); }
        Ok(out)
    }
}

} // verus!
