//! Structural repair review of a project's knowledge graph: decisions with
//! no causal upstream, nodes that no edge touches, research with no phase,
//! decisions that lean on other projects' experiments, and the branch and
//! merge points of the causal backbone, each issue with a repair hint.
use vstd::prelude::*;
use crate::text::{push_str, push_i64, push_usize, take_chars, dec_int, dec_nat, prefix};
use crate::store::{Store, StoreView, Phase, PhaseView, Experiment, Finding, Decision, Hypothesis, Research,
    Edge, NodeType, EdgeType, ExperimentStatus, PhaseStatus, Project, phase_of, experiment_in, finding_in,
    hypothesis_in, research_in};
use crate::dag::views;
use crate::mcp::review::{phase_in, phase_in_exec};
use crate::mcp::common::views as text_views;
use crate::mcp::common::{project_named, find_project};
use crate::mcp::review::{edge_of_project, count_project_edges};
use crate::store::{decision_of, principle_of, constraint_of, literature_of};

verus! {

broadcast use vstd::seq_lib::group_seq_properties;

// ---------------------------------------------------------------- kinds

/// How much an issue weighs.
#[derive(Debug, Clone, Copy, PartialEq, Eq, Structural)]
pub enum Severity {
    High,
    Medium,
    Low,
}

/// The kinds of structural issue, in the order of their titles.
#[derive(Debug, Clone, Copy, PartialEq, Eq, Structural)]
pub enum RepairKind {
    CrossProjectBleed,
    DanglingBranch,
    DecisionWithoutUpstream,
    DecisionWithoutProject,
    OrphanedConstraint,
    OrphanedHypothesis,
    OrphanedPrinciple,
    ResearchWithoutPhase,
    OrphanExperiment,
    OrphanFinding,
    OrphanLiterature,
}

impl RepairKind {
    /// The title of the kind in the report.
    pub open spec fn spec_title(self) -> Seq<char> {
        match self {
            RepairKind::CrossProjectBleed => "Cross-project causal bleed"@,
            RepairKind::DanglingBranch => "Dangling branch"@,
            RepairKind::DecisionWithoutUpstream => "Decision without causal upstream"@,
            RepairKind::DecisionWithoutProject => "Decision without project_id"@,
            RepairKind::OrphanedConstraint => "Orphaned constraint"@,
            RepairKind::OrphanedHypothesis => "Orphaned hypothesis"@,
            RepairKind::OrphanedPrinciple => "Orphaned principle"@,
            RepairKind::ResearchWithoutPhase => "Research with no phase"@,
            RepairKind::OrphanExperiment => "True orphan (Experiment)"@,
            RepairKind::OrphanFinding => "True orphan (Finding)"@,
            RepairKind::OrphanLiterature => "True orphan (Literature)"@,
        }
    }

    /// The title of the kind in the report.
    pub fn title(&self) -> (s: &'static str)
        ensures
            s@ == self.spec_title(),
    {
        match self {
            RepairKind::CrossProjectBleed => "Cross-project causal bleed",
            RepairKind::DanglingBranch => "Dangling branch",
            RepairKind::DecisionWithoutUpstream => "Decision without causal upstream",
            RepairKind::DecisionWithoutProject => "Decision without project_id",
            RepairKind::OrphanedConstraint => "Orphaned constraint",
            RepairKind::OrphanedHypothesis => "Orphaned hypothesis",
            RepairKind::OrphanedPrinciple => "Orphaned principle",
            RepairKind::ResearchWithoutPhase => "Research with no phase",
            RepairKind::OrphanExperiment => "True orphan (Experiment)",
            RepairKind::OrphanFinding => "True orphan (Finding)",
            RepairKind::OrphanLiterature => "True orphan (Literature)",
        }
    }

    /// The weight of the kind.
    pub open spec fn severity(self) -> Severity {
        match self {
            RepairKind::CrossProjectBleed | RepairKind::DecisionWithoutUpstream => Severity::High,
            RepairKind::DanglingBranch | RepairKind::DecisionWithoutProject | RepairKind::OrphanedHypothesis
            | RepairKind::OrphanedPrinciple | RepairKind::ResearchWithoutPhase => Severity::Medium,
            _ => Severity::Low,
        }
    }

    /// The tag of the kind's weight in a section heading.
    pub open spec fn spec_tag(self) -> Seq<char> {
        match self.severity() {
            Severity::High => "HIGH"@,
            Severity::Medium => "MED"@,
            Severity::Low => "LOW"@,
        }
    }

    /// The tag of the kind's weight in a section heading.
    pub fn tag(&self) -> (s: &'static str)
        ensures
            s@ == self.spec_tag(),
    {
        match self {
            RepairKind::CrossProjectBleed | RepairKind::DecisionWithoutUpstream => "HIGH",
            RepairKind::DanglingBranch | RepairKind::DecisionWithoutProject | RepairKind::OrphanedHypothesis
            | RepairKind::OrphanedPrinciple | RepairKind::ResearchWithoutPhase => "MED",
            _ => "LOW",
        }
    }

    /// Whether the kind weighs `s`.
    pub fn weighs(&self, s: Severity) -> (b: bool)
        ensures
            b == (self.severity() == s),
    {
        let w = match self {
            RepairKind::CrossProjectBleed | RepairKind::DecisionWithoutUpstream => Severity::High,
            RepairKind::DanglingBranch | RepairKind::DecisionWithoutProject | RepairKind::OrphanedHypothesis
            | RepairKind::OrphanedPrinciple | RepairKind::ResearchWithoutPhase => Severity::Medium,
            _ => Severity::Low,
        };
        w == s
    }
}

/// Every kind, in the order of their titles.
pub open spec fn all_kinds() -> Seq<RepairKind> {
    seq![RepairKind::CrossProjectBleed, RepairKind::DanglingBranch, RepairKind::DecisionWithoutUpstream,
        RepairKind::DecisionWithoutProject, RepairKind::OrphanedConstraint, RepairKind::OrphanedHypothesis,
        RepairKind::OrphanedPrinciple, RepairKind::ResearchWithoutPhase, RepairKind::OrphanExperiment,
        RepairKind::OrphanFinding, RepairKind::OrphanLiterature]
}

/// One issue: its kind, the node it is about, a short description, and
/// how to repair it.
pub struct RepairIssue {
    pub kind: RepairKind,
    pub node_ref: String,
    pub description: String,
    pub repair: String,
}

/// An issue as a mathematical value.
pub struct IssueView {
    pub kind: RepairKind,
    pub node_ref: Seq<char>,
    pub description: Seq<char>,
    pub repair: Seq<char>,
}

impl View for RepairIssue {
    type V = IssueView;

    open spec fn view(&self) -> IssueView {
        IssueView { kind: self.kind, node_ref: self.node_ref@, description: self.description@, repair: self.repair@ }
    }
}

/// The views of a list of issues.
pub open spec fn issue_views(s: Seq<RepairIssue>) -> Seq<IssueView> {
    s.map_values(|i: RepairIssue| i@)
}

fn push_issue(issues: &mut Vec<RepairIssue>, i: RepairIssue)
    ensures
        issue_views(final(issues)@) == issue_views(old(issues)@).push(i@),
{
    let ghost before = issues@;
    issues.push(i);
    proof {
        assert(issue_views(issues@) =~= issue_views(before).push(i@));
    }
}

// ---------------------------------------------------------------- sequences

/// The one-element sequence of what `o` holds, or the empty one.
pub open spec fn opt_seq<B>(o: Option<B>) -> Seq<B> {
    match o {
        Some(b) => seq![b],
        None => Seq::empty(),
    }
}

/// What `f` gives for the items of `xs`, in order, leaving out `None`.
pub open spec fn collect<A, B>(xs: Seq<A>, f: spec_fn(A) -> Option<B>) -> Seq<B>
    decreases xs.len(),
{
    if xs.len() == 0 {
        Seq::empty()
    } else {
        collect(xs.drop_last(), f) + opt_seq(f(xs.last()))
    }
}

pub(crate) proof fn lemma_collect_step<A, B>(xs: Seq<A>, f: spec_fn(A) -> Option<B>, i: int)
    requires
        0 <= i < xs.len(),
    ensures
        collect(xs.take(i + 1), f) == collect(xs.take(i), f) + opt_seq(f(xs[i])),
{
    assert(xs.take(i + 1).drop_last() =~= xs.take(i));
}

pub(crate) proof fn lemma_take_all<A>(xs: Seq<A>)
    ensures
        xs.take(xs.len() as int) == xs,
{
    assert(xs.take(xs.len() as int) =~= xs);
}

// ---------------------------------------------------------------- nodes

/// The experiments of the phases `ps`, phase by phase.
pub open spec fn phase_exps(v: StoreView, ps: Seq<PhaseView>) -> Seq<Experiment>
    decreases ps.len(),
{
    if ps.len() == 0 {
        Seq::empty()
    } else {
        phase_exps(v, ps.drop_last()) + v.experiments.filter(experiment_in(Some(ps.last().id)))
    }
}

/// The findings of the experiments `es`, experiment by experiment.
pub open spec fn exp_findings(v: StoreView, es: Seq<Experiment>) -> Seq<Finding>
    decreases es.len(),
{
    if es.len() == 0 {
        Seq::empty()
    } else {
        exp_findings(v, es.drop_last()) + v.findings.filter(finding_in(Some(es.last().id)))
    }
}

/// The hypotheses of the phases `ps`, phase by phase.
pub open spec fn phase_hyps(v: StoreView, ps: Seq<PhaseView>) -> Seq<Hypothesis>
    decreases ps.len(),
{
    if ps.len() == 0 {
        Seq::empty()
    } else {
        phase_hyps(v, ps.drop_last()) + v.hypotheses.filter(hypothesis_in(Some(ps.last().id)))
    }
}

/// The research tasks of the phases `ps`, phase by phase.
pub open spec fn phase_research(v: StoreView, ps: Seq<PhaseView>) -> Seq<Research>
    decreases ps.len(),
{
    if ps.len() == 0 {
        Seq::empty()
    } else {
        phase_research(v, ps.drop_last()) + v.research.filter(research_in(Some(ps.last().id)))
    }
}

pub(crate) fn collect_experiments(store: &Store, phases: &Vec<Phase>) -> (r: Vec<Experiment>)
    ensures
        r@ == phase_exps(store@, views(phases@)),
{
    let ghost ps = views(phases@);
    let mut r: Vec<Experiment> = Vec::new();
    let mut i: usize = 0;
    while i < phases.len()
        invariant
            ps == views(phases@),
            i <= phases@.len(),
            r@ == phase_exps(store@, ps.take(i as int)),
        decreases phases@.len() - i,
    {
        let mut xs = match store.list_experiments(Some(phases[i].id)) {
            Ok(x) => x,
            Err(_) => Vec::new(),
        };
        proof {
            assert(ps.take(i + 1).drop_last() =~= ps.take(i as int));
            assert(ps.take(i + 1).last() == phases@[i as int]@);
        }
        r.append(&mut xs);
        i = i + 1;
    }
    proof { lemma_take_all(ps); }
    r
}

pub(crate) fn collect_findings(store: &Store, es: &Vec<Experiment>) -> (r: Vec<Finding>)
    ensures
        r@ == exp_findings(store@, es@),
{
    let mut r: Vec<Finding> = Vec::new();
    let mut i: usize = 0;
    while i < es.len()
        invariant
            i <= es@.len(),
            r@ == exp_findings(store@, es@.take(i as int)),
        decreases es@.len() - i,
    {
        let mut xs = match store.list_findings(Some(es[i].id)) {
            Ok(x) => x,
            Err(_) => Vec::new(),
        };
        proof {
            assert(es@.take(i + 1).drop_last() =~= es@.take(i as int));
        }
        r.append(&mut xs);
        i = i + 1;
    }
    proof { lemma_take_all(es@); }
    r
}

pub(crate) fn collect_hypotheses(store: &Store, phases: &Vec<Phase>) -> (r: Vec<Hypothesis>)
    ensures
        r@ == phase_hyps(store@, views(phases@)),
{
    let ghost ps = views(phases@);
    let mut r: Vec<Hypothesis> = Vec::new();
    let mut i: usize = 0;
    while i < phases.len()
        invariant
            ps == views(phases@),
            i <= phases@.len(),
            r@ == phase_hyps(store@, ps.take(i as int)),
        decreases phases@.len() - i,
    {
        let mut xs = match store.list_hypotheses(Some(phases[i].id)) {
            Ok(x) => x,
            Err(_) => Vec::new(),
        };
        proof {
            assert(ps.take(i + 1).drop_last() =~= ps.take(i as int));
            assert(ps.take(i + 1).last() == phases@[i as int]@);
        }
        r.append(&mut xs);
        i = i + 1;
    }
    proof { lemma_take_all(ps); }
    r
}

pub(crate) fn collect_research(store: &Store, phases: &Vec<Phase>) -> (r: Vec<Research>)
    ensures
        r@ == phase_research(store@, views(phases@)),
{
    let ghost ps = views(phases@);
    let mut r: Vec<Research> = Vec::new();
    let mut i: usize = 0;
    while i < phases.len()
        invariant
            ps == views(phases@),
            i <= phases@.len(),
            r@ == phase_research(store@, ps.take(i as int)),
        decreases phases@.len() - i,
    {
        let mut xs = match store.list_research(Some(phases[i].id)) {
            Ok(x) => x,
            Err(_) => Vec::new(),
        };
        proof {
            assert(ps.take(i + 1).drop_last() =~= ps.take(i as int));
            assert(ps.take(i + 1).last() == phases@[i as int]@);
        }
        r.append(&mut xs);
        i = i + 1;
    }
    proof { lemma_take_all(ps); }
    r
}

/// How the report names node `id` of the kind that `tag` abbreviates.
pub open spec fn node_ref(tag: Seq<char>, id: i64) -> Seq<char> {
    tag + "(id:"@ + dec_int(id as int) + ")"@
}

pub(crate) fn make_ref(tag: &str, id: i64) -> (s: String)
    ensures
        s@ == node_ref(tag@, id),
{
    let mut s = String::new();
    push_str(&mut s, tag);
    push_str(&mut s, "(id:");
    push_i64(&mut s, id);
    push_str(&mut s, ")");
    proof { assert(s@ =~= node_ref(tag@, id)); }
    s
}

/// No edge leaves or enters node (`nt`, `id`).
pub open spec fn untouched(v: StoreView, nt: NodeType, id: i64) -> bool {
    v.edges_from(nt, id).len() == 0 && v.edges_to(nt, id).len() == 0
}

pub(crate) fn untouched_exec(store: &Store, nt: NodeType, id: i64) -> (b: bool)
    ensures
        b == untouched(store@, nt, id),
{
    let from = match store.get_edges_from(nt, id) { Ok(x) => x.len(), Err(_) => 0 };
    let to = match store.get_edges_to(nt, id) { Ok(x) => x.len(), Err(_) => 0 };
    from == 0 && to == 0
}

// ---------------------------------------------------------------- checks

/// Some edge, of any relation, enters decision `id`.
pub open spec fn has_causal_upstream(v: StoreView, id: i64) -> bool {
    v.edges_to(NodeType::Decision, id).len() > 0
}

fn has_causal_upstream_exec(store: &Store, id: i64) -> (b: bool)
    ensures
        b == has_causal_upstream(store@, id),
{
    match store.get_edges_to(NodeType::Decision, id) {
        Ok(x) => x.len() > 0,
        Err(_) => false,
    }
}

/// The hint for a decision with no causal upstream.
pub open spec fn upstream_hint(es: Seq<Experiment>) -> Seq<char> {
    if es.len() > 0 {
        "Link to "@ + node_ref("E"@, es.last().id) + " via pm_add_edge or create a finding that leads to it"@
    } else {
        "Create an experiment or finding that motivates this decision"@
    }
}

/// A decision with no experiment and no edge into it.
pub open spec fn upstream_issue(v: StoreView, es: Seq<Experiment>) -> spec_fn(Decision) -> Option<IssueView> {
    |d: Decision| if d.experiment_id is None && !has_causal_upstream(v, d.id) {
        Some(IssueView { kind: RepairKind::DecisionWithoutUpstream, node_ref: node_ref("D"@, d.id),
            description: prefix(d.what@, 60), repair: upstream_hint(es) })
    } else {
        None
    }
}

/// A decision that belongs to no project.
pub open spec fn unowned_issue(p: Project) -> spec_fn(Decision) -> Option<IssueView> {
    |d: Decision| if d.project_id is None {
        Some(IssueView { kind: RepairKind::DecisionWithoutProject, node_ref: node_ref("D"@, d.id),
            description: prefix(d.what@, 60),
            repair: "Backfill project_id to "@ + p.name@ + " (id:"@ + dec_int(p.id as int) + ")"@ })
    } else {
        None
    }
}

fn check_decisions(store: &Store, p: &Project, ds: &Vec<Decision>, es: &Vec<Experiment>, issues: &mut Vec<RepairIssue>)
    ensures
        issue_views(final(issues)@) == issue_views(old(issues)@) + collect(ds@, upstream_issue(store@, es@))
            + collect(ds@, unowned_issue(*p)),
{
    let ghost base = issue_views(issues@);
    let ghost f = upstream_issue(store@, es@);
    let mut i: usize = 0;
    while i < ds.len()
        invariant
            f == upstream_issue(store@, es@),
            i <= ds@.len(),
            issue_views(issues@) == base + collect(ds@.take(i as int), f),
        decreases ds@.len() - i,
    {
        proof { lemma_collect_step(ds@, f, i as int); }
        let d = &ds[i];
        if d.experiment_id.is_none() && !has_causal_upstream_exec(store, d.id) {
            let hint = if es.len() > 0 {
                let mut h = String::new();
                push_str(&mut h, "Link to ");
                let r = make_ref("E", es[es.len() - 1].id);
                push_str(&mut h, r.as_str());
                push_str(&mut h, " via pm_add_edge or create a finding that leads to it");
                proof { assert(h@ =~= upstream_hint(es@)); }
                h
            } else {
                let mut h = String::new();
                push_str(&mut h, "Create an experiment or finding that motivates this decision");
                proof { assert(h@ =~= upstream_hint(es@)); }
                h
            };
            let issue = RepairIssue { kind: RepairKind::DecisionWithoutUpstream, node_ref: make_ref("D", d.id),
                description: take_chars(d.what.as_str(), 60), repair: hint };
            push_issue(issues, issue);
        }
        proof {
            assert(issue_views(issues@) =~= base + collect(ds@.take(i + 1), f));
        }
        i = i + 1;
    }
    proof { lemma_take_all(ds@); }
    let ghost mid = issue_views(issues@);
    let ghost g = unowned_issue(*p);
    let mut i: usize = 0;
    while i < ds.len()
        invariant
            g == unowned_issue(*p),
            i <= ds@.len(),
            issue_views(issues@) == mid + collect(ds@.take(i as int), g),
        decreases ds@.len() - i,
    {
        proof { lemma_collect_step(ds@, g, i as int); }
        let d = &ds[i];
        if d.project_id.is_none() {
            let mut h = String::new();
            push_str(&mut h, "Backfill project_id to ");
            push_str(&mut h, p.name.as_str());
            push_str(&mut h, " (id:");
            push_i64(&mut h, p.id);
            push_str(&mut h, ")");
            let issue = RepairIssue { kind: RepairKind::DecisionWithoutProject, node_ref: make_ref("D", d.id),
                description: take_chars(d.what.as_str(), 60), repair: h };
            proof { assert(issue@ == g(*d).unwrap()); }
            push_issue(issues, issue);
        }
        proof {
            assert(issue_views(issues@) =~= mid + collect(ds@.take(i + 1), g));
        }
        i = i + 1;
    }
    proof { lemma_take_all(ds@); }
}

/// The hint for a hypothesis that no edge touches.
pub open spec fn hypothesis_hint(v: StoreView, pid: i64, h: Hypothesis) -> Seq<char> {
    let generic = "Link to an experiment via pm_add_edge relation=tested_by"@;
    match h.phase_id {
        Some(x) => if phase_in(v, Some(x), pid) {
            let xs = v.experiments.filter(experiment_in(Some(x)));
            if xs.len() > 0 {
                "Link via: pm_add_edge source_type=hypothesis source_id="@ + dec_int(h.id as int)
                    + " target_type=experiment target_id="@ + dec_int(xs[0].id as int)
                    + " relation=tested_by ("@ + node_ref("E"@, xs[0].id) + ")"@
            } else {
                "Create an experiment in phase "@ + dec_int(x as int) + " to test this hypothesis"@
            }
        } else {
            generic
        },
        None => generic,
    }
}

/// A hypothesis that no edge touches.
pub open spec fn hypothesis_issue(v: StoreView, pid: i64) -> spec_fn(Hypothesis) -> Option<IssueView> {
    |h: Hypothesis| if untouched(v, NodeType::Hypothesis, h.id) {
        Some(IssueView { kind: RepairKind::OrphanedHypothesis, node_ref: node_ref("H"@, h.id),
            description: prefix(h.text@, 60), repair: hypothesis_hint(v, pid, h) })
    } else {
        None
    }
}

fn hypothesis_hint_exec(store: &Store, pid: i64, h: &Hypothesis) -> (s: String)
    requires
        store.wf(),
    ensures
        s@ == hypothesis_hint(store@, pid, *h),
{
    let mut s = String::new();
    match h.phase_id {
        Some(x) => {
            if phase_in_exec(store, Some(x), pid) {
                let xs = match store.list_experiments(Some(x)) { Ok(v) => v, Err(_) => Vec::new() };
                if xs.len() > 0 {
                    push_str(&mut s, "Link via: pm_add_edge source_type=hypothesis source_id=");
                    push_i64(&mut s, h.id);
                    push_str(&mut s, " target_type=experiment target_id=");
                    push_i64(&mut s, xs[0].id);
                    push_str(&mut s, " relation=tested_by (");
                    let r = make_ref("E", xs[0].id);
                    push_str(&mut s, r.as_str());
                    push_str(&mut s, ")");
                } else {
                    push_str(&mut s, "Create an experiment in phase ");
                    push_i64(&mut s, x);
                    push_str(&mut s, " to test this hypothesis");
                }
            } else {
                push_str(&mut s, "Link to an experiment via pm_add_edge relation=tested_by");
            }
        },
        None => {
            push_str(&mut s, "Link to an experiment via pm_add_edge relation=tested_by");
        },
    }
    proof { assert(s@ =~= hypothesis_hint(store@, pid, *h)); }
    s
}

fn check_hypotheses(store: &Store, pid: i64, hs: &Vec<Hypothesis>, issues: &mut Vec<RepairIssue>)
    requires
        store.wf(),
    ensures
        issue_views(final(issues)@) == issue_views(old(issues)@) + collect(hs@, hypothesis_issue(store@, pid)),
{
    let ghost base = issue_views(issues@);
    let ghost f = hypothesis_issue(store@, pid);
    let mut i: usize = 0;
    while i < hs.len()
        invariant
            store.wf(),
            f == hypothesis_issue(store@, pid),
            i <= hs@.len(),
            issue_views(issues@) == base + collect(hs@.take(i as int), f),
        decreases hs@.len() - i,
    {
        proof { lemma_collect_step(hs@, f, i as int); }
        let h = &hs[i];
        if untouched_exec(store, NodeType::Hypothesis, h.id) {
            let issue = RepairIssue { kind: RepairKind::OrphanedHypothesis, node_ref: make_ref("H", h.id),
                description: take_chars(h.text.as_str(), 60), repair: hypothesis_hint_exec(store, pid, h) };
            push_issue(issues, issue);
        }
        proof {
            assert(issue_views(issues@) =~= base + collect(hs@.take(i + 1), f));
        }
        i = i + 1;
    }
    proof { lemma_take_all(hs@); }
}

/// The hint for a principle that no edge touches.
pub open spec fn principle_hint(fs: Seq<Finding>, ds: Seq<Decision>, id: i64) -> Seq<char> {
    if fs.len() > 0 {
        "Link via: pm_add_edge source_type=principle source_id="@ + dec_int(id as int)
            + " target_type=finding target_id="@ + dec_int(fs.last().id as int) + " relation=derived_from"@
    } else if ds.len() > 0 {
        "Link via: pm_add_edge source_type=principle source_id="@ + dec_int(id as int)
            + " target_type=decision target_id="@ + dec_int(ds.last().id as int) + " relation=derived_from"@
    } else {
        "Link to a finding or decision via pm_add_edge relation=derived_from"@
    }
}

/// A principle that no edge touches.
pub open spec fn principle_issue(v: StoreView, fs: Seq<Finding>, ds: Seq<Decision>) -> spec_fn(crate::store::Principle) -> Option<IssueView> {
    |p: crate::store::Principle| if untouched(v, NodeType::Principle, p.id) {
        Some(IssueView { kind: RepairKind::OrphanedPrinciple, node_ref: node_ref("P"@, p.id),
            description: prefix(p.text@, 60), repair: principle_hint(fs, ds, p.id) })
    } else {
        None
    }
}

fn check_principles(store: &Store, ps: &Vec<crate::store::Principle>, fs: &Vec<Finding>, ds: &Vec<Decision>,
    issues: &mut Vec<RepairIssue>)
    ensures
        issue_views(final(issues)@) == issue_views(old(issues)@) + collect(ps@, principle_issue(store@, fs@, ds@)),
{
    let ghost base = issue_views(issues@);
    let ghost f = principle_issue(store@, fs@, ds@);
    let mut i: usize = 0;
    while i < ps.len()
        invariant
            f == principle_issue(store@, fs@, ds@),
            i <= ps@.len(),
            issue_views(issues@) == base + collect(ps@.take(i as int), f),
        decreases ps@.len() - i,
    {
        proof { lemma_collect_step(ps@, f, i as int); }
        let p = &ps[i];
        if untouched_exec(store, NodeType::Principle, p.id) {
            let mut h = String::new();
            if fs.len() > 0 {
                push_str(&mut h, "Link via: pm_add_edge source_type=principle source_id=");
                push_i64(&mut h, p.id);
                push_str(&mut h, " target_type=finding target_id=");
                push_i64(&mut h, fs[fs.len() - 1].id);
                push_str(&mut h, " relation=derived_from");
            } else if ds.len() > 0 {
                push_str(&mut h, "Link via: pm_add_edge source_type=principle source_id=");
                push_i64(&mut h, p.id);
                push_str(&mut h, " target_type=decision target_id=");
                push_i64(&mut h, ds[ds.len() - 1].id);
                push_str(&mut h, " relation=derived_from");
            } else {
                push_str(&mut h, "Link to a finding or decision via pm_add_edge relation=derived_from");
            }
            proof { assert(h@ =~= principle_hint(fs@, ds@, p.id)); }
            let issue = RepairIssue { kind: RepairKind::OrphanedPrinciple, node_ref: make_ref("P", p.id),
                description: take_chars(p.text.as_str(), 60), repair: h };
            push_issue(issues, issue);
        }
        proof {
            assert(issue_views(issues@) =~= base + collect(ps@.take(i + 1), f));
        }
        i = i + 1;
    }
    proof { lemma_take_all(ps@); }
}

/// The last experiment of `es` that passed.
pub open spec fn last_pass(es: Seq<Experiment>) -> Option<Experiment>
    decreases es.len(),
{
    if es.len() == 0 {
        None
    } else if es.last().status == ExperimentStatus::Pass {
        Some(es.last())
    } else {
        last_pass(es.drop_last())
    }
}

/// The hint for a constraint that no edge touches.
pub open spec fn constraint_hint(es: Seq<Experiment>, id: i64) -> Seq<char> {
    match last_pass(es) {
        Some(e) => "Link via: pm_add_edge source_type=constraint source_id="@ + dec_int(id as int)
            + " target_type=experiment target_id="@ + dec_int(e.id as int) + " relation=tested_by ("@
            + node_ref("E"@, e.id) + ")"@,
        None => "Link to an experiment via pm_add_edge relation=tested_by"@,
    }
}

/// A constraint that no edge touches.
pub open spec fn constraint_issue(v: StoreView, es: Seq<Experiment>) -> spec_fn(crate::store::Constraint) -> Option<IssueView> {
    |c: crate::store::Constraint| if untouched(v, NodeType::Constraint, c.id) {
        Some(IssueView { kind: RepairKind::OrphanedConstraint, node_ref: node_ref("C"@, c.id),
            description: prefix(c.text@, 60), repair: constraint_hint(es, c.id) })
    } else {
        None
    }
}

/// The index of the last experiment of `es` that passed.
fn last_pass_index(es: &Vec<Experiment>) -> (r: Option<usize>)
    ensures
        r is None <==> last_pass(es@) is None,
        r matches Some(k) ==> k < es@.len() && last_pass(es@) == Some(es@[k as int]),
{
    let mut found: Option<usize> = None;
    let mut i: usize = 0;
    while i < es.len()
        invariant
            i <= es@.len(),
            found is None <==> last_pass(es@.take(i as int)) is None,
            found matches Some(k) ==> k < i && last_pass(es@.take(i as int)) == Some(es@[k as int]),
        decreases es@.len() - i,
    {
        proof { assert(es@.take(i + 1).drop_last() =~= es@.take(i as int)); }
        if es[i].status == ExperimentStatus::Pass {
            found = Some(i);
        }
        i = i + 1;
    }
    proof { lemma_take_all(es@); }
    found
}

fn check_constraints(store: &Store, cs: &Vec<crate::store::Constraint>, es: &Vec<Experiment>, issues: &mut Vec<RepairIssue>)
    ensures
        issue_views(final(issues)@) == issue_views(old(issues)@) + collect(cs@, constraint_issue(store@, es@)),
{
    let ghost base = issue_views(issues@);
    let ghost f = constraint_issue(store@, es@);
    let lp = last_pass_index(es);
    let mut i: usize = 0;
    while i < cs.len()
        invariant
            f == constraint_issue(store@, es@),
            lp is None <==> last_pass(es@) is None,
            lp matches Some(k) ==> k < es@.len() && last_pass(es@) == Some(es@[k as int]),
            i <= cs@.len(),
            issue_views(issues@) == base + collect(cs@.take(i as int), f),
        decreases cs@.len() - i,
    {
        proof { lemma_collect_step(cs@, f, i as int); }
        let c = &cs[i];
        if untouched_exec(store, NodeType::Constraint, c.id) {
            let mut h = String::new();
            match lp {
                Some(k) => {
                    push_str(&mut h, "Link via: pm_add_edge source_type=constraint source_id=");
                    push_i64(&mut h, c.id);
                    push_str(&mut h, " target_type=experiment target_id=");
                    push_i64(&mut h, es[k].id);
                    push_str(&mut h, " relation=tested_by (");
                    let r = make_ref("E", es[k].id);
                    push_str(&mut h, r.as_str());
                    push_str(&mut h, ")");
                },
                None => {
                    push_str(&mut h, "Link to an experiment via pm_add_edge relation=tested_by");
                },
            }
            proof { assert(h@ =~= constraint_hint(es@, c.id)); }
            let issue = RepairIssue { kind: RepairKind::OrphanedConstraint, node_ref: make_ref("C", c.id),
                description: take_chars(c.text.as_str(), 60), repair: h };
            push_issue(issues, issue);
        }
        proof {
            assert(issue_views(issues@) =~= base + collect(cs@.take(i + 1), f));
        }
        i = i + 1;
    }
    proof { lemma_take_all(cs@); }
}

/// The first phase of `ps` in progress.
pub open spec fn first_in_progress(ps: Seq<PhaseView>) -> Option<PhaseView>
    decreases ps.len(),
{
    if ps.len() == 0 {
        None
    } else {
        match first_in_progress(ps.drop_last()) {
            Some(p) => Some(p),
            None => if ps.last().status == PhaseStatus::InProgress { Some(ps.last()) } else { None },
        }
    }
}

/// The hint for a research task with no phase.
pub open spec fn research_hint(ps: Seq<PhaseView>) -> Seq<char> {
    match first_in_progress(ps) {
        Some(p) => "Assign to active phase '"@ + p.name + "' (id:"@ + dec_int(p.id as int) + ")"@,
        None => if ps.len() > 0 {
            "Assign to phase '"@ + ps[0].name + "' (id:"@ + dec_int(ps[0].id as int) + ")"@
        } else {
            "Create a phase and assign this research to it"@
        },
    }
}

/// A research task with no phase.
pub open spec fn research_issue(ps: Seq<PhaseView>) -> spec_fn(Research) -> Option<IssueView> {
    |r: Research| if r.phase_id is None {
        Some(IssueView { kind: RepairKind::ResearchWithoutPhase, node_ref: node_ref("R"@, r.id),
            description: prefix(r.name@, 60), repair: research_hint(ps) })
    } else {
        None
    }
}

fn research_hint_exec(phases: &Vec<Phase>) -> (s: String)
    ensures
        s@ == research_hint(views(phases@)),
{
    let ghost ps = views(phases@);
    let mut found: Option<usize> = None;
    let mut i: usize = 0;
    while i < phases.len()
        invariant
            ps == views(phases@),
            i <= phases@.len(),
            found is None <==> first_in_progress(ps.take(i as int)) is None,
            found matches Some(k) ==> k < i && first_in_progress(ps.take(i as int)) == Some(ps[k as int]),
        decreases phases@.len() - i,
    {
        proof { assert(ps.take(i + 1).drop_last() =~= ps.take(i as int)); }
        if found.is_none() && phases[i].status == PhaseStatus::InProgress {
            found = Some(i);
        }
        i = i + 1;
    }
    proof { lemma_take_all(ps); }
    let mut s = String::new();
    match found {
        Some(k) => {
            push_str(&mut s, "Assign to active phase '");
            push_str(&mut s, phases[k].name.as_str());
            push_str(&mut s, "' (id:");
            push_i64(&mut s, phases[k].id);
            push_str(&mut s, ")");
        },
        None => {
            if phases.len() > 0 {
                push_str(&mut s, "Assign to phase '");
                push_str(&mut s, phases[0].name.as_str());
                push_str(&mut s, "' (id:");
                push_i64(&mut s, phases[0].id);
                push_str(&mut s, ")");
            } else {
                push_str(&mut s, "Create a phase and assign this research to it");
            }
        },
    }
    proof { assert(s@ =~= research_hint(ps)); }
    s
}

fn check_research(store: &Store, phases: &Vec<Phase>, issues: &mut Vec<RepairIssue>)
    ensures
        issue_views(final(issues)@) == issue_views(old(issues)@)
            + collect(store@.research, research_issue(views(phases@))),
{
    let rs = match store.list_research(None) { Ok(x) => x, Err(_) => Vec::new() };
    let ghost all = store@.research;
    proof {
        assert(all.filter(research_in(None)) =~= all) by {
            crate::mcp::review::lemma_filter_all(all, research_in(None));
        }
    }
    let hint = research_hint_exec(phases);
    let ghost base = issue_views(issues@);
    let ghost f = research_issue(views(phases@));
    let mut i: usize = 0;
    while i < rs.len()
        invariant
            rs@ == all,
            f == research_issue(views(phases@)),
            hint@ == research_hint(views(phases@)),
            i <= rs@.len(),
            issue_views(issues@) == base + collect(rs@.take(i as int), f),
        decreases rs@.len() - i,
    {
        proof { lemma_collect_step(rs@, f, i as int); }
        let r = &rs[i];
        if r.phase_id.is_none() {
            let issue = RepairIssue { kind: RepairKind::ResearchWithoutPhase, node_ref: make_ref("R", r.id),
                description: take_chars(r.name.as_str(), 60), repair: hint.clone() };
            push_issue(issues, issue);
        }
        proof {
            assert(issue_views(issues@) =~= base + collect(rs@.take(i + 1), f));
        }
        i = i + 1;
    }
    proof { lemma_take_all(rs@); }
}

/// A finding that no edge touches.
pub open spec fn orphan_finding(v: StoreView) -> spec_fn(Finding) -> Option<IssueView> {
    |f: Finding| if untouched(v, NodeType::Finding, f.id) {
        Some(IssueView { kind: RepairKind::OrphanFinding, node_ref: node_ref("F"@, f.id),
            description: prefix(f.text@, 60), repair: "Link via pm_add_edge to connect this finding into the KG"@ })
    } else {
        None
    }
}

/// An experiment that no edge touches.
pub open spec fn orphan_experiment(v: StoreView) -> spec_fn(Experiment) -> Option<IssueView> {
    |e: Experiment| if untouched(v, NodeType::Experiment, e.id) {
        Some(IssueView { kind: RepairKind::OrphanExperiment, node_ref: node_ref("E"@, e.id),
            description: prefix(e.name@, 60), repair: "Link via pm_add_edge to connect this experiment into the KG"@ })
    } else {
        None
    }
}

/// A literature entry that no edge touches.
pub open spec fn orphan_literature(v: StoreView) -> spec_fn(crate::store::Literature) -> Option<IssueView> {
    |l: crate::store::Literature| if untouched(v, NodeType::Literature, l.id) {
        Some(IssueView { kind: RepairKind::OrphanLiterature, node_ref: node_ref("L"@, l.id),
            description: prefix(l.title@, 60), repair: "Link via pm_add_edge to connect this literature into the KG"@ })
    } else {
        None
    }
}

/// Some issue of `iss` is about the node that `r` names.
pub open spec fn reported(iss: Seq<IssueView>, r: Seq<char>) -> bool {
    exists|k: int| 0 <= k < iss.len() && #[trigger] iss[k].node_ref == r
}

/// `acc` followed by those of `cands` whose node no earlier issue names.
pub open spec fn add_unreported(acc: Seq<IssueView>, cands: Seq<IssueView>) -> Seq<IssueView>
    decreases cands.len(),
{
    if cands.len() == 0 {
        acc
    } else {
        let a = add_unreported(acc, cands.drop_last());
        if reported(a, cands.last().node_ref) { a } else { a.push(cands.last()) }
    }
}

/// The nodes of the project that no edge touches: findings, experiments,
/// then literature.
pub open spec fn orphan_candidates(v: StoreView, fs: Seq<Finding>, es: Seq<Experiment>,
    ls: Seq<crate::store::Literature>) -> Seq<IssueView>
{
    collect(fs, orphan_finding(v)) + collect(es, orphan_experiment(v)) + collect(ls, orphan_literature(v))
}

fn is_reported(issues: &Vec<RepairIssue>, r: &String) -> (b: bool)
    ensures
        b == reported(issue_views(issues@), r@),
{
    let ghost iv = issue_views(issues@);
    let mut i: usize = 0;
    while i < issues.len()
        invariant
            iv == issue_views(issues@),
            i <= issues@.len(),
            forall|k: int| 0 <= k < i ==> #[trigger] iv[k].node_ref != r@,
        decreases issues@.len() - i,
    {
        if crate::text::str_eq(issues[i].node_ref.as_str(), r.as_str()) {
            proof { assert(iv[i as int].node_ref == r@); }
            return true;
        }
        i = i + 1;
    }
    false
}

/// Adds `c` unless an issue already names its node.
fn add_if_unreported(issues: &mut Vec<RepairIssue>, c: RepairIssue)
    ensures
        issue_views(final(issues)@) == (if reported(issue_views(old(issues)@), c@.node_ref) {
            issue_views(old(issues)@)
        } else {
            issue_views(old(issues)@).push(c@)
        }),
{
    if !is_reported(issues, &c.node_ref) {
        push_issue(issues, c);
    }
}

proof fn lemma_add_unreported_step(acc: Seq<IssueView>, cands: Seq<IssueView>, c: IssueView)
    ensures
        add_unreported(acc, cands.push(c)) == (if reported(add_unreported(acc, cands), c.node_ref) {
            add_unreported(acc, cands)
        } else {
            add_unreported(acc, cands).push(c)
        }),
{
    assert(cands.push(c).drop_last() =~= cands);
}

proof fn lemma_add_unreported_concat(acc: Seq<IssueView>, a: Seq<IssueView>, b: Seq<IssueView>)
    ensures
        add_unreported(acc, a + b) == add_unreported(add_unreported(acc, a), b),
    decreases b.len(),
{
    if b.len() == 0 {
        assert(a + b =~= a);
    } else {
        lemma_add_unreported_concat(acc, a, b.drop_last());
        assert((a + b).drop_last() =~= a + b.drop_last());
        assert((a + b).last() == b.last());
    }
}

fn check_orphans(store: &Store, fs: &Vec<Finding>, es: &Vec<Experiment>, ls: &Vec<crate::store::Literature>,
    issues: &mut Vec<RepairIssue>)
    ensures
        issue_views(final(issues)@) == add_unreported(issue_views(old(issues)@),
            orphan_candidates(store@, fs@, es@, ls@)),
{
    let ghost base = issue_views(issues@);
    let ghost f1 = orphan_finding(store@);
    let ghost f2 = orphan_experiment(store@);
    let ghost f3 = orphan_literature(store@);
    let mut i: usize = 0;
    while i < fs.len()
        invariant
            f1 == orphan_finding(store@),
            i <= fs@.len(),
            issue_views(issues@) == add_unreported(base, collect(fs@.take(i as int), f1)),
        decreases fs@.len() - i,
    {
        proof { lemma_collect_step(fs@, f1, i as int); }
        let f = &fs[i];
        if untouched_exec(store, NodeType::Finding, f.id) {
            let mut rep = String::new();
            push_str(&mut rep, "Link via pm_add_edge to connect this finding into the KG");
            let c = RepairIssue { kind: RepairKind::OrphanFinding, node_ref: make_ref("F", f.id),
                description: take_chars(f.text.as_str(), 60), repair: rep };
            proof {
                assert(opt_seq(f1(fs@[i as int])) =~= seq![c@]);
                assert(collect(fs@.take(i as int), f1) + seq![c@] =~= collect(fs@.take(i as int), f1).push(c@));
                lemma_add_unreported_step(base, collect(fs@.take(i as int), f1), c@);
            }
            add_if_unreported(issues, c);
        } else {
            proof { assert(collect(fs@.take(i + 1), f1) =~= collect(fs@.take(i as int), f1)); }
        }
        i = i + 1;
    }
    proof { lemma_take_all(fs@); }
    let ghost a1 = collect(fs@, f1);
    let mut i: usize = 0;
    while i < es.len()
        invariant
            f2 == orphan_experiment(store@),
            i <= es@.len(),
            issue_views(issues@) == add_unreported(add_unreported(base, a1), collect(es@.take(i as int), f2)),
        decreases es@.len() - i,
    {
        proof { lemma_collect_step(es@, f2, i as int); }
        let e = &es[i];
        if untouched_exec(store, NodeType::Experiment, e.id) {
            let mut rep = String::new();
            push_str(&mut rep, "Link via pm_add_edge to connect this experiment into the KG");
            let c = RepairIssue { kind: RepairKind::OrphanExperiment, node_ref: make_ref("E", e.id),
                description: take_chars(e.name.as_str(), 60), repair: rep };
            proof {
                assert(opt_seq(f2(es@[i as int])) =~= seq![c@]);
                assert(collect(es@.take(i as int), f2) + seq![c@] =~= collect(es@.take(i as int), f2).push(c@));
                lemma_add_unreported_step(add_unreported(base, a1), collect(es@.take(i as int), f2), c@);
            }
            add_if_unreported(issues, c);
        } else {
            proof { assert(collect(es@.take(i + 1), f2) =~= collect(es@.take(i as int), f2)); }
        }
        i = i + 1;
    }
    proof { lemma_take_all(es@); }
    let ghost a2 = collect(es@, f2);
    let mut i: usize = 0;
    while i < ls.len()
        invariant
            f3 == orphan_literature(store@),
            i <= ls@.len(),
            issue_views(issues@) == add_unreported(add_unreported(add_unreported(base, a1), a2),
                collect(ls@.take(i as int), f3)),
        decreases ls@.len() - i,
    {
        proof { lemma_collect_step(ls@, f3, i as int); }
        let l = &ls[i];
        if untouched_exec(store, NodeType::Literature, l.id) {
            let mut rep = String::new();
            push_str(&mut rep, "Link via pm_add_edge to connect this literature into the KG");
            let c = RepairIssue { kind: RepairKind::OrphanLiterature, node_ref: make_ref("L", l.id),
                description: take_chars(l.title.as_str(), 60), repair: rep };
            proof {
                assert(opt_seq(f3(ls@[i as int])) =~= seq![c@]);
                assert(collect(ls@.take(i as int), f3) + seq![c@] =~= collect(ls@.take(i as int), f3).push(c@));
                lemma_add_unreported_step(add_unreported(add_unreported(base, a1), a2), collect(ls@.take(i as int), f3), c@);
            }
            add_if_unreported(issues, c);
        } else {
            proof { assert(collect(ls@.take(i + 1), f3) =~= collect(ls@.take(i as int), f3)); }
        }
        i = i + 1;
    }
    proof {
        lemma_take_all(ls@);
        let a3 = collect(ls@, f3);
        lemma_add_unreported_concat(base, a1, a2);
        lemma_add_unreported_concat(base, a1 + a2, a3);
    }
}

/// Experiment `id` is one of `es`.
pub open spec fn has_exp(es: Seq<Experiment>, id: i64) -> bool {
    exists|k: int| 0 <= k < es.len() && #[trigger] es[k].id == id
}

fn has_exp_exec(es: &Vec<Experiment>, id: i64) -> (b: bool)
    ensures
        b == has_exp(es@, id),
{
    let mut i: usize = 0;
    while i < es.len()
        invariant
            i <= es@.len(),
            forall|k: int| 0 <= k < i ==> #[trigger] es@[k].id != id,
        decreases es@.len() - i,
    {
        if es[i].id == id {
            return true;
        }
        i = i + 1;
    }
    false
}

/// What the report says of the owner of experiment `eid`.
pub open spec fn owner_note(v: StoreView, eid: i64) -> Seq<char> {
    match v.experiment(eid) {
        None => " (experiment not found -- dangling reference)"@,
        Some(x) => match x.phase_id {
            None => " (experiment has no phase)"@,
            Some(ph) => match v.phase(ph) {
                None => Seq::empty(),
                Some(p) => match v.project(p.project_id) {
                    Some(o) => " (belongs to project '"@ + o.name@ + "')"@,
                    None => Seq::empty(),
                },
            },
        },
    }
}

fn push_owner_note(store: &Store, eid: i64, out: &mut String)
    requires
        store.wf(),
    ensures
        final(out)@ == old(out)@ + owner_note(store@, eid),
{
    match store.get_experiment(eid) {
        Ok(x) => match x.phase_id {
            Some(ph) => match store.get_phase(ph) {
                Ok(p) => match store.get_project(p.project_id) {
                    Ok(o) => {
                        push_str(out, " (belongs to project '");
                        push_str(out, o.name.as_str());
                        push_str(out, "')");
                    },
                    Err(_) => {},
                },
                Err(_) => {},
            },
            None => push_str(out, " (experiment has no phase)"),
        },
        Err(_) => push_str(out, " (experiment not found -- dangling reference)"),
    }
    proof { assert(out@ =~= old(out)@ + owner_note(store@, eid)); }
}

/// A decision that leans on an experiment outside the project.
pub open spec fn bleed_issue(v: StoreView, es: Seq<Experiment>) -> spec_fn(Decision) -> Option<IssueView> {
    |d: Decision| match d.experiment_id {
        Some(eid) => if !has_exp(es, eid) {
            Some(IssueView { kind: RepairKind::CrossProjectBleed, node_ref: node_ref("D"@, d.id),
                description: prefix(d.what@, 60),
                repair: "Decision references experiment_id="@ + dec_int(eid as int) + owner_note(v, eid)
                    + " -- reassign to a local experiment or clear the reference"@ })
        } else {
            None
        },
        None => None,
    }
}

fn check_bleed(store: &Store, ds: &Vec<Decision>, es: &Vec<Experiment>, issues: &mut Vec<RepairIssue>)
    requires
        store.wf(),
    ensures
        issue_views(final(issues)@) == issue_views(old(issues)@) + collect(ds@, bleed_issue(store@, es@)),
{
    let ghost base = issue_views(issues@);
    let ghost f = bleed_issue(store@, es@);
    let mut i: usize = 0;
    while i < ds.len()
        invariant
            store.wf(),
            f == bleed_issue(store@, es@),
            i <= ds@.len(),
            issue_views(issues@) == base + collect(ds@.take(i as int), f),
        decreases ds@.len() - i,
    {
        proof { lemma_collect_step(ds@, f, i as int); }
        let d = &ds[i];
        match d.experiment_id {
            Some(eid) => {
                if !has_exp_exec(es, eid) {
                    let mut h = String::new();
                    push_str(&mut h, "Decision references experiment_id=");
                    push_i64(&mut h, eid);
                    push_owner_note(store, eid, &mut h);
                    push_str(&mut h, " -- reassign to a local experiment or clear the reference");
                    let issue = RepairIssue { kind: RepairKind::CrossProjectBleed, node_ref: make_ref("D", d.id),
                        description: take_chars(d.what.as_str(), 60), repair: h };
                    proof { assert(issue@ == f(*d).unwrap()); }
                    push_issue(issues, issue);
                }
            },
            None => {},
        }
        proof {
            assert(issue_views(issues@) =~= base + collect(ds@.take(i + 1), f));
        }
        i = i + 1;
    }
    proof { lemma_take_all(ds@); }
}

// ---------------------------------------------------------------- topology

/// An edge from an experiment to a later experiment that it led to.
pub open spec fn downstream_edge(e: Edge) -> bool {
    e.target_type == NodeType::Experiment && (e.relation == EdgeType::Informed || e.relation == EdgeType::BranchesFrom)
}

/// The experiments that experiment `id` led to, one per edge, in edge order.
pub open spec fn downstream(v: StoreView, id: i64) -> Seq<i64> {
    v.edges_from(NodeType::Experiment, id).filter(|e: Edge| downstream_edge(e)).map_values(|e: Edge| e.target_id)
}

/// Experiment `d` exists and is still pending.
pub open spec fn pending_exp(v: StoreView) -> spec_fn(i64) -> bool {
    |d: i64| v.experiment(d) matches Some(x) && x.status == ExperimentStatus::Pending
}

/// `E#` references to the experiments `ids`, separated by commas.
pub open spec fn exp_refs(ids: Seq<i64>) -> Seq<char>
    decreases ids.len(),
{
    if ids.len() == 0 {
        Seq::empty()
    } else if ids.len() == 1 {
        "E#"@ + dec_int(ids[0] as int)
    } else {
        exp_refs(ids.drop_last()) + ", E#"@ + dec_int(ids.last() as int)
    }
}

/// The branch-point line of an experiment that led to more than one.
pub open spec fn branch_line(v: StoreView) -> spec_fn(Experiment) -> Option<Seq<char>> {
    |e: Experiment| {
        let ds = downstream(v, e.id);
        if ds.len() > 1 {
            Some("  "@ + node_ref("E"@, e.id) + " -> fan-out to "@ + dec_nat(ds.len()) + ": "@ + exp_refs(ds))
        } else {
            None
        }
    }
}

/// The part of a dangling-branch message after the node.
pub open spec fn pending_ratio(p: nat, n: nat) -> Seq<char> {
    dec_nat(p) + "/"@ + dec_nat(n) + " downstream experiments still pending"@
}

/// The dangling-branch line of a branch point with pending branches.
pub open spec fn dangling_line(v: StoreView) -> spec_fn(Experiment) -> Option<Seq<char>> {
    |e: Experiment| {
        let ds = downstream(v, e.id);
        let p = ds.filter(pending_exp(v)).len();
        if ds.len() > 1 && p > 0 {
            Some("  "@ + node_ref("E"@, e.id) + " has "@ + pending_ratio(p, ds.len()))
        } else {
            None
        }
    }
}

/// The issue of a branch point with pending branches.
pub open spec fn dangling_issue(v: StoreView) -> spec_fn(Experiment) -> Option<IssueView> {
    |e: Experiment| {
        let ds = downstream(v, e.id);
        let p = ds.filter(pending_exp(v)).len();
        if ds.len() > 1 && p > 0 {
            Some(IssueView { kind: RepairKind::DanglingBranch, node_ref: node_ref("E"@, e.id),
                description: pending_ratio(p, ds.len()),
                repair: "Complete or close pending branched experiments to resolve the branch"@ })
        } else {
            None
        }
    }
}

pub(crate) fn downstream_exec(store: &Store, id: i64) -> (r: Vec<i64>)
    ensures
        r@ == downstream(store@, id),
{
    let es = match store.get_edges_from(NodeType::Experiment, id) { Ok(x) => x, Err(_) => Vec::new() };
    let ghost pred = |e: Edge| downstream_edge(e);
    let mut r: Vec<i64> = Vec::new();
    let mut i: usize = 0;
    while i < es.len()
        invariant
            pred == (|e: Edge| downstream_edge(e)),
            i <= es@.len(),
            r@ == es@.take(i as int).filter(pred).map_values(|e: Edge| e.target_id),
        decreases es@.len() - i,
    {
        proof {
            assert(es@.take(i + 1) =~= es@.take(i as int).push(es@[i as int]));
            es@.take(i as int).lemma_filter_push(es@[i as int], pred);
        }
        let e = es[i];
        if e.target_type == NodeType::Experiment && (e.relation == EdgeType::Informed || e.relation == EdgeType::BranchesFrom) {
            let ghost before = r@;
            r.push(e.target_id);
            proof {
                assert(es@.take(i as int).filter(pred).push(e).map_values(|e: Edge| e.target_id)
                    =~= before.push(e.target_id));
            }
        }
        i = i + 1;
    }
    proof { lemma_take_all(es@); }
    r
}

pub(crate) fn count_pending(store: &Store, ids: &Vec<i64>) -> (n: usize)
    requires
        store.wf(),
    ensures
        n == ids@.filter(pending_exp(store@)).len(),
{
    let ghost pred = pending_exp(store@);
    let mut n: usize = 0;
    let mut i: usize = 0;
    while i < ids.len()
        invariant
            store.wf(),
            pred == pending_exp(store@),
            i <= ids@.len(),
            n == ids@.take(i as int).filter(pred).len(),
            n <= i,
        decreases ids@.len() - i,
    {
        proof {
            assert(ids@.take(i + 1) =~= ids@.take(i as int).push(ids@[i as int]));
            ids@.take(i as int).lemma_filter_push(ids@[i as int], pred);
        }
        let pending = match store.get_experiment(ids[i]) {
            Ok(x) => x.status == ExperimentStatus::Pending,
            Err(_) => false,
        };
        if pending {
            n = n + 1;
        }
        i = i + 1;
    }
    proof { lemma_take_all(ids@); }
    n
}

pub(crate) fn push_exp_refs(out: &mut String, ids: &Vec<i64>)
    ensures
        final(out)@ == old(out)@ + exp_refs(ids@),
{
    let mut i: usize = 0;
    while i < ids.len()
        invariant
            i <= ids@.len(),
            out@ == old(out)@ + exp_refs(ids@.take(i as int)),
        decreases ids@.len() - i,
    {
        if i == 0 {
            push_str(out, "E#");
        } else {
            push_str(out, ", E#");
        }
        push_i64(out, ids[i]);
        proof {
            let t = ids@.take(i + 1);
            if i == 0 {
                assert(t.len() == 1);
                assert(exp_refs(ids@.take(0)) =~= Seq::<char>::empty());
            } else {
                assert(t.drop_last() =~= ids@.take(i as int));
            }
            assert(out@ =~= old(out)@ + exp_refs(t));
        }
        i = i + 1;
    }
    proof { lemma_take_all(ids@); }
}

pub(crate) fn push_line(lines: &mut Vec<String>, l: String)
    ensures
        text_views(final(lines)@) == text_views(old(lines)@).push(l@),
{
    let ghost before = lines@;
    lines.push(l);
    proof { assert(text_views(lines@) =~= text_views(before).push(l@)); }
}

fn scan_branches(store: &Store, es: &Vec<Experiment>, branch: &mut Vec<String>, dangling: &mut Vec<String>,
    issues: &mut Vec<RepairIssue>)
    requires
        store.wf(),
    ensures
        text_views(final(branch)@) == text_views(old(branch)@) + collect(es@, branch_line(store@)),
        text_views(final(dangling)@) == text_views(old(dangling)@) + collect(es@, dangling_line(store@)),
        issue_views(final(issues)@) == issue_views(old(issues)@) + collect(es@, dangling_issue(store@)),
{
    let ghost b0 = text_views(branch@);
    let ghost d0 = text_views(dangling@);
    let ghost i0 = issue_views(issues@);
    let ghost fb = branch_line(store@);
    let ghost fd = dangling_line(store@);
    let ghost fi = dangling_issue(store@);
    let mut i: usize = 0;
    while i < es.len()
        invariant
            store.wf(),
            fb == branch_line(store@),
            fd == dangling_line(store@),
            fi == dangling_issue(store@),
            i <= es@.len(),
            text_views(branch@) == b0 + collect(es@.take(i as int), fb),
            text_views(dangling@) == d0 + collect(es@.take(i as int), fd),
            issue_views(issues@) == i0 + collect(es@.take(i as int), fi),
        decreases es@.len() - i,
    {
        proof {
            lemma_collect_step(es@, fb, i as int);
            lemma_collect_step(es@, fd, i as int);
            lemma_collect_step(es@, fi, i as int);
        }
        let e = &es[i];
        let ds = downstream_exec(store, e.id);
        if ds.len() > 1 {
            let r = make_ref("E", e.id);
            let mut line = String::new();
            push_str(&mut line, "  ");
            push_str(&mut line, r.as_str());
            push_str(&mut line, " -> fan-out to ");
            push_usize(&mut line, ds.len());
            push_str(&mut line, ": ");
            push_exp_refs(&mut line, &ds);
            proof { assert(line@ =~= fb(*e).unwrap()); }
            push_line(branch, line);
            let p = count_pending(store, &ds);
            if p > 0 {
                let mut ratio = String::new();
                push_usize(&mut ratio, p);
                push_str(&mut ratio, "/");
                push_usize(&mut ratio, ds.len());
                push_str(&mut ratio, " downstream experiments still pending");
                proof { assert(ratio@ =~= pending_ratio(p as nat, ds@.len())); }
                let mut dl = String::new();
                push_str(&mut dl, "  ");
                push_str(&mut dl, r.as_str());
                push_str(&mut dl, " has ");
                push_str(&mut dl, ratio.as_str());
                proof { assert(dl@ =~= fd(*e).unwrap()); }
                push_line(dangling, dl);
                let mut rep = String::new();
                push_str(&mut rep, "Complete or close pending branched experiments to resolve the branch");
                let issue = RepairIssue { kind: RepairKind::DanglingBranch, node_ref: r, description: ratio, repair: rep };
                proof { assert(issue@ == fi(*e).unwrap()); }
                push_issue(issues, issue);
            }
        }
        proof {
            assert(text_views(branch@) =~= b0 + collect(es@.take(i + 1), fb));
            assert(text_views(dangling@) =~= d0 + collect(es@.take(i + 1), fd));
            assert(issue_views(issues@) =~= i0 + collect(es@.take(i + 1), fi));
        }
        i = i + 1;
    }
    proof { lemma_take_all(es@); }
}

/// The experiments behind edge `e` into a decision: a finding's experiment,
/// or the experiment itself.
pub open spec fn source_ids(v: StoreView, e: Edge) -> Seq<i64> {
    (if e.source_type == NodeType::Finding {
        match v.finding(e.source_id) {
            Some(f) => opt_seq(f.experiment_id),
            None => Seq::empty(),
        }
    } else {
        Seq::empty()
    }) + (if e.source_type == NodeType::Experiment { seq![e.source_id] } else { Seq::empty() })
}

/// The experiments behind the edges `es`, edge by edge.
pub open spec fn all_source_ids(v: StoreView, es: Seq<Edge>) -> Seq<i64>
    decreases es.len(),
{
    if es.len() == 0 {
        Seq::empty()
    } else {
        all_source_ids(v, es.drop_last()) + source_ids(v, es.last())
    }
}

/// `s` without repeats, each kept where it first occurs.
pub open spec fn dedup(s: Seq<i64>) -> Seq<i64>
    decreases s.len(),
{
    if s.len() == 0 {
        Seq::empty()
    } else {
        let r = dedup(s.drop_last());
        if r.contains(s.last()) { r } else { r.push(s.last()) }
    }
}

/// The distinct experiments that a decision draws on: its own, then those
/// behind the edges into it.
pub open spec fn merge_sources(v: StoreView, d: Decision) -> Seq<i64> {
    dedup(opt_seq(d.experiment_id) + all_source_ids(v, v.edges_to(NodeType::Decision, d.id)))
}

/// The merge-point line of a decision that draws on more than one experiment.
pub open spec fn merge_line(v: StoreView) -> spec_fn(Decision) -> Option<Seq<char>> {
    |d: Decision| {
        let m = merge_sources(v, d);
        if m.len() > 1 {
            Some("  "@ + node_ref("D"@, d.id) + " <- converges: "@ + exp_refs(m))
        } else {
            None
        }
    }
}

fn vec_has(v: &Vec<i64>, x: i64) -> (b: bool)
    ensures
        b == v@.contains(x),
{
    let mut i: usize = 0;
    while i < v.len()
        invariant
            i <= v@.len(),
            forall|k: int| 0 <= k < i ==> v@[k] != x,
        decreases v@.len() - i,
    {
        if v[i] == x {
            proof { assert(v@[i as int] == x); }
            return true;
        }
        i = i + 1;
    }
    false
}

pub(crate) fn merge_sources_exec(store: &Store, d: &Decision) -> (r: Vec<i64>)
    requires
        store.wf(),
    ensures
        r@ == merge_sources(store@, *d),
{
    let mut cands: Vec<i64> = Vec::new();
    match d.experiment_id {
        Some(e) => cands.push(e),
        None => {},
    }
    proof { assert(cands@ =~= opt_seq(d.experiment_id)); }
    let ghost head = cands@;
    let es = match store.get_edges_to(NodeType::Decision, d.id) { Ok(x) => x, Err(_) => Vec::new() };
    let mut i: usize = 0;
    while i < es.len()
        invariant
            store.wf(),
            i <= es@.len(),
            cands@ == head + all_source_ids(store@, es@.take(i as int)),
        decreases es@.len() - i,
    {
        proof { assert(es@.take(i + 1).drop_last() =~= es@.take(i as int)); }
        let e = es[i];
        let ghost before = cands@;
        if e.source_type == NodeType::Finding {
            match store.get_finding(e.source_id) {
                Ok(f) => match f.experiment_id {
                    Some(x) => cands.push(x),
                    None => {},
                },
                Err(_) => {},
            }
        }
        if e.source_type == NodeType::Experiment {
            cands.push(e.source_id);
        }
        proof {
            assert(cands@ =~= before + source_ids(store@, e));
            assert(es@.take(i + 1).last() == e);
        }
        i = i + 1;
    }
    proof { lemma_take_all(es@); }
    let mut r: Vec<i64> = Vec::new();
    let mut k: usize = 0;
    while k < cands.len()
        invariant
            k <= cands@.len(),
            r@ == dedup(cands@.take(k as int)),
        decreases cands@.len() - k,
    {
        proof { assert(cands@.take(k + 1).drop_last() =~= cands@.take(k as int)); }
        if !vec_has(&r, cands[k]) {
            r.push(cands[k]);
        }
        k = k + 1;
    }
    proof { lemma_take_all(cands@); }
    r
}

fn scan_merges(store: &Store, ds: &Vec<Decision>, merge: &mut Vec<String>)
    requires
        store.wf(),
    ensures
        text_views(final(merge)@) == text_views(old(merge)@) + collect(ds@, merge_line(store@)),
{
    let ghost m0 = text_views(merge@);
    let ghost f = merge_line(store@);
    let mut i: usize = 0;
    while i < ds.len()
        invariant
            store.wf(),
            f == merge_line(store@),
            i <= ds@.len(),
            text_views(merge@) == m0 + collect(ds@.take(i as int), f),
        decreases ds@.len() - i,
    {
        proof { lemma_collect_step(ds@, f, i as int); }
        let d = &ds[i];
        let m = merge_sources_exec(store, d);
        if m.len() > 1 {
            let mut line = String::new();
            push_str(&mut line, "  ");
            let r = make_ref("D", d.id);
            push_str(&mut line, r.as_str());
            push_str(&mut line, " <- converges: ");
            push_exp_refs(&mut line, &m);
            proof { assert(line@ =~= f(*d).unwrap()); }
            push_line(merge, line);
        }
        proof { assert(text_views(merge@) =~= m0 + collect(ds@.take(i + 1), f)); }
        i = i + 1;
    }
    proof { lemma_take_all(ds@); }
}

// ---------------------------------------------------------------- report

/// The lines `ls`, each ended by a newline.
pub open spec fn line_block(ls: Seq<Seq<char>>) -> Seq<char>
    decreases ls.len(),
{
    if ls.len() == 0 {
        Seq::empty()
    } else {
        line_block(ls.drop_last()) + ls.last() + "\n"@
    }
}

/// A titled count and the lines `ls`; nothing when there are none.
pub open spec fn titled_block(title: Seq<char>, ls: Seq<Seq<char>>) -> Seq<char> {
    if ls.len() > 0 {
        title + " ("@ + dec_nat(ls.len()) + "):\n"@ + line_block(ls)
    } else {
        Seq::empty()
    }
}

/// The topology part of the report.
pub open spec fn topology_text(br: Seq<Seq<char>>, mg: Seq<Seq<char>>, dg: Seq<Seq<char>>) -> Seq<char> {
    (if br.len() > 0 || mg.len() > 0 { "\n--- Causal Backbone Topology ---\n"@ } else { Seq::empty() })
        + titled_block("Branch points"@, br) + titled_block("Merge points"@, mg)
        + titled_block("Dangling branches"@, dg)
}

fn push_titled_block(out: &mut String, title: &str, lines: &Vec<String>)
    ensures
        final(out)@ == old(out)@ + titled_block(title@, text_views(lines@)),
{
    let ghost ls = text_views(lines@);
    if lines.len() == 0 {
        proof { assert(old(out)@ + titled_block(title@, ls) =~= old(out)@); }
        return;
    }
    push_str(out, title);
    push_str(out, " (");
    push_usize(out, lines.len());
    push_str(out, "):\n");
    let ghost head = out@;
    let mut i: usize = 0;
    while i < lines.len()
        invariant
            ls == text_views(lines@),
            i <= lines@.len(),
            out@ == head + line_block(ls.take(i as int)),
        decreases lines@.len() - i,
    {
        proof { assert(ls.take(i + 1).drop_last() =~= ls.take(i as int)); }
        push_str(out, lines[i].as_str());
        push_str(out, "\n");
        proof { assert(out@ =~= head + line_block(ls.take(i + 1))); }
        i = i + 1;
    }
    proof {
        lemma_take_all(ls);
        assert(out@ =~= old(out)@ + titled_block(title@, ls));
    }
}

/// Picks out the issues of kind `k`.
pub open spec fn of_kind(k: RepairKind) -> spec_fn(IssueView) -> bool {
    |i: IssueView| i.kind == k
}

/// Picks out the issues of weight `s`.
pub open spec fn of_weight(s: Severity) -> spec_fn(IssueView) -> bool {
    |i: IssueView| i.kind.severity() == s
}

/// The two lines of each issue of `g`.
pub open spec fn issue_lines(g: Seq<IssueView>) -> Seq<char>
    decreases g.len(),
{
    if g.len() == 0 {
        Seq::empty()
    } else {
        let x = g.last();
        issue_lines(g.drop_last()) + "  "@ + x.node_ref + " -- "@ + x.description + "\n    Repair: "@ + x.repair + "\n"@
    }
}

/// The section of the issues of kind `k`; nothing when there are none.
pub open spec fn kind_section(iss: Seq<IssueView>, k: RepairKind) -> Seq<char> {
    let g = iss.filter(of_kind(k));
    if g.len() == 0 {
        Seq::empty()
    } else {
        "\n## ["@ + k.spec_tag() + "] "@ + k.spec_title() + " ("@ + dec_nat(g.len()) + ")\n"@ + issue_lines(g)
    }
}

/// The sections of the kinds `ks`, in order.
pub open spec fn kind_sections(iss: Seq<IssueView>, ks: Seq<RepairKind>) -> Seq<char>
    decreases ks.len(),
{
    if ks.len() == 0 {
        Seq::empty()
    } else {
        kind_sections(iss, ks.drop_last()) + kind_section(iss, ks.last())
    }
}

/// The issue part of the report: the counts by weight, then the issues
/// grouped by kind in the order of their titles.
pub open spec fn issues_text(iss: Seq<IssueView>) -> Seq<char> {
    if iss.len() == 0 {
        "\nNo structural issues found. KG is clean.\n"@
    } else {
        "\nFound "@ + dec_nat(iss.len()) + " issues: "@ + dec_nat(iss.filter(of_weight(Severity::High)).len())
            + " HIGH, "@ + dec_nat(iss.filter(of_weight(Severity::Medium)).len()) + " MEDIUM, "@
            + dec_nat(iss.filter(of_weight(Severity::Low)).len()) + " LOW\n"@ + kind_sections(iss, all_kinds())
    }
}

fn count_weight(issues: &Vec<RepairIssue>, w: Severity) -> (n: usize)
    ensures
        n == issue_views(issues@).filter(of_weight(w)).len(),
{
    let ghost iv = issue_views(issues@);
    let ghost pred = of_weight(w);
    let mut n: usize = 0;
    let mut i: usize = 0;
    while i < issues.len()
        invariant
            iv == issue_views(issues@),
            pred == of_weight(w),
            i <= issues@.len(),
            n == iv.take(i as int).filter(pred).len(),
            n <= i,
        decreases issues@.len() - i,
    {
        proof {
            assert(iv.take(i + 1) =~= iv.take(i as int).push(iv[i as int]));
            iv.take(i as int).lemma_filter_push(iv[i as int], pred);
        }
        if issues[i].kind.weighs(w) {
            n = n + 1;
        }
        i = i + 1;
    }
    proof { lemma_take_all(iv); }
    n
}

fn push_kind_section(out: &mut String, issues: &Vec<RepairIssue>, k: RepairKind)
    ensures
        final(out)@ == old(out)@ + kind_section(issue_views(issues@), k),
{
    let ghost iv = issue_views(issues@);
    let ghost pred = of_kind(k);
    let mut n: usize = 0;
    let mut i: usize = 0;
    while i < issues.len()
        invariant
            iv == issue_views(issues@),
            pred == of_kind(k),
            i <= issues@.len(),
            n == iv.take(i as int).filter(pred).len(),
            n <= i,
        decreases issues@.len() - i,
    {
        proof {
            assert(iv.take(i + 1) =~= iv.take(i as int).push(iv[i as int]));
            iv.take(i as int).lemma_filter_push(iv[i as int], pred);
        }
        if issues[i].kind == k {
            n = n + 1;
        }
        i = i + 1;
    }
    proof { lemma_take_all(iv); }
    if n == 0 {
        proof { assert(old(out)@ + kind_section(iv, k) =~= old(out)@); }
        return;
    }
    push_str(out, "\n## [");
    push_str(out, k.tag());
    push_str(out, "] ");
    push_str(out, k.title());
    push_str(out, " (");
    push_usize(out, n);
    push_str(out, ")\n");
    let ghost head = out@;
    let mut i: usize = 0;
    while i < issues.len()
        invariant
            iv == issue_views(issues@),
            pred == of_kind(k),
            i <= issues@.len(),
            out@ == head + issue_lines(iv.take(i as int).filter(pred)),
        decreases issues@.len() - i,
    {
        proof {
            assert(iv.take(i + 1) =~= iv.take(i as int).push(iv[i as int]));
            iv.take(i as int).lemma_filter_push(iv[i as int], pred);
        }
        if issues[i].kind == k {
            push_str(out, "  ");
            push_str(out, issues[i].node_ref.as_str());
            push_str(out, " -- ");
            push_str(out, issues[i].description.as_str());
            push_str(out, "\n    Repair: ");
            push_str(out, issues[i].repair.as_str());
            push_str(out, "\n");
            proof {
                let g = iv.take(i as int).filter(pred).push(iv[i as int]);
                assert(g.drop_last() =~= iv.take(i as int).filter(pred));
                assert(out@ =~= head + issue_lines(g));
            }
        }
        i = i + 1;
    }
    proof {
        lemma_take_all(iv);
        assert(out@ =~= old(out)@ + kind_section(iv, k));
    }
}

fn push_issues_text(out: &mut String, issues: &Vec<RepairIssue>)
    ensures
        final(out)@ == old(out)@ + issues_text(issue_views(issues@)),
{
    let ghost iv = issue_views(issues@);
    if issues.len() == 0 {
        push_str(out, "\nNo structural issues found. KG is clean.\n");
        return;
    }
    let high = count_weight(issues, Severity::High);
    let medium = count_weight(issues, Severity::Medium);
    let low = count_weight(issues, Severity::Low);
    push_str(out, "\nFound ");
    push_usize(out, issues.len());
    push_str(out, " issues: ");
    push_usize(out, high);
    push_str(out, " HIGH, ");
    push_usize(out, medium);
    push_str(out, " MEDIUM, ");
    push_usize(out, low);
    push_str(out, " LOW\n");
    let ghost head = out@;
    let kinds: Vec<RepairKind> = vec![RepairKind::CrossProjectBleed, RepairKind::DanglingBranch,
        RepairKind::DecisionWithoutUpstream, RepairKind::DecisionWithoutProject, RepairKind::OrphanedConstraint,
        RepairKind::OrphanedHypothesis, RepairKind::OrphanedPrinciple, RepairKind::ResearchWithoutPhase,
        RepairKind::OrphanExperiment, RepairKind::OrphanFinding, RepairKind::OrphanLiterature];
    proof { assert(kinds@ =~= all_kinds()); }
    let mut i: usize = 0;
    while i < kinds.len()
        invariant
            iv == issue_views(issues@),
            kinds@ == all_kinds(),
            i <= kinds@.len(),
            out@ == head + kind_sections(iv, kinds@.take(i as int)),
        decreases kinds@.len() - i,
    {
        proof { assert(kinds@.take(i + 1).drop_last() =~= kinds@.take(i as int)); }
        push_kind_section(out, issues, kinds[i]);
        proof { assert(out@ =~= head + kind_sections(iv, kinds@.take(i + 1))); }
        i = i + 1;
    }
    proof {
        lemma_take_all(kinds@);
        assert(out@ =~= old(out)@ + issues_text(iv));
    }
}

/// Every issue of project `p`, in the order the checks find them: decisions
/// with no causal upstream, decisions of no project, untouched hypotheses,
/// principles and constraints, research tasks with no phase, untouched
/// findings, experiments and literature not already named, decisions that
/// lean on other projects' experiments, and branch points with pending
/// branches.
pub open spec fn all_issues(v: StoreView, p: Project) -> Seq<IssueView> {
    let ps = v.phases.filter(phase_of(p.id));
    let ds = v.decisions.filter(decision_of(p.id));
    let es = phase_exps(v, ps);
    let fs = exp_findings(v, es);
    let hs = phase_hyps(v, ps);
    let first = collect(ds, upstream_issue(v, es)) + collect(ds, unowned_issue(p))
        + collect(hs, hypothesis_issue(v, p.id))
        + collect(v.principles.filter(principle_of(p.id)), principle_issue(v, fs, ds))
        + collect(v.constraints.filter(constraint_of(p.id)), constraint_issue(v, es))
        + collect(v.research, research_issue(ps));
    add_unreported(first, orphan_candidates(v, fs, es, v.literature.filter(literature_of(p.id))))
        + collect(ds, bleed_issue(v, es)) + collect(es, dangling_issue(v))
}

/// The closing counts of the report.
pub open spec fn repair_stats(v: StoreView, p: Project) -> Seq<char> {
    let ps = v.phases.filter(phase_of(p.id));
    let es = phase_exps(v, ps);
    "\n--- KG Stats ---\n"@
        + "Phases: "@ + dec_nat(ps.len()) + ", Experiments: "@ + dec_nat(es.len())
        + ", Findings: "@ + dec_nat(exp_findings(v, es).len()) + "\n"@
        + "Decisions: "@ + dec_nat(v.decisions.filter(decision_of(p.id)).len())
        + ", Hypotheses: "@ + dec_nat(phase_hyps(v, ps).len())
        + ", Research: "@ + dec_nat(phase_research(v, ps).len()) + "\n"@
        + "Principles: "@ + dec_nat(v.principles.filter(principle_of(p.id)).len())
        + ", Constraints: "@ + dec_nat(v.constraints.filter(constraint_of(p.id)).len())
        + ", Literature: "@ + dec_nat(v.literature.filter(literature_of(p.id)).len()) + "\n"@
        + "Edges: "@ + dec_nat(v.edges.filter(edge_of_project(v, p.id)).len()) + "\n"@
}

/// The repair report of project `p`.
pub open spec fn repair_report(v: StoreView, p: Project) -> Seq<char> {
    let ps = v.phases.filter(phase_of(p.id));
    let es = phase_exps(v, ps);
    "=== Orphan Repair Report: "@ + p.name@ + " ===\n"@
        + topology_text(collect(es, branch_line(v)), collect(v.decisions.filter(decision_of(p.id)), merge_line(v)),
            collect(es, dangling_line(v)))
        + issues_text(all_issues(v, p)) + repair_stats(v, p)
}

/// The repair report of the project named `name`, by name or alias.
pub open spec fn orphan_repair_text(v: StoreView, name: Seq<char>) -> Seq<char> {
    match project_named(v, name) {
        Some(p) => repair_report(v, p),
        None => "Project not found: "@ + name,
    }
}

fn gather(store: &Store, proj: &Project, issues: &mut Vec<RepairIssue>, branch: &mut Vec<String>,
    merge: &mut Vec<String>, dangling: &mut Vec<String>)
    requires
        store.wf(),
        old(issues)@.len() == 0,
        old(branch)@.len() == 0,
        old(merge)@.len() == 0,
        old(dangling)@.len() == 0,
    ensures
        issue_views(final(issues)@) == all_issues(store@, *proj),
        text_views(final(branch)@) == collect(phase_exps(store@, store@.phases.filter(phase_of(proj.id))), branch_line(store@)),
        text_views(final(dangling)@) == collect(phase_exps(store@, store@.phases.filter(phase_of(proj.id))), dangling_line(store@)),
        text_views(final(merge)@) == collect(store@.decisions.filter(decision_of(proj.id)), merge_line(store@)),
{
    let ghost v = store@;
    let pid = proj.id;
    let phases = match store.list_phases(pid) { Ok(x) => x, Err(_) => Vec::new() };
    let decisions = match store.list_decisions(pid) { Ok(x) => x, Err(_) => Vec::new() };
    let principles = match store.list_principles(pid) { Ok(x) => x, Err(_) => Vec::new() };
    let constraints = match store.list_constraints(pid) { Ok(x) => x, Err(_) => Vec::new() };
    let literature = match store.list_literature(pid) { Ok(x) => x, Err(_) => Vec::new() };
    proof { assert(views(phases@) == v.phases.filter(phase_of(pid))); }
    let exps = collect_experiments(store, &phases);
    let finds = collect_findings(store, &exps);
    let hyps = collect_hypotheses(store, &phases);
    proof {
        assert(issue_views(issues@) =~= Seq::<IssueView>::empty());
        assert(text_views(branch@) =~= Seq::<Seq<char>>::empty());
        assert(text_views(merge@) =~= Seq::<Seq<char>>::empty());
        assert(text_views(dangling@) =~= Seq::<Seq<char>>::empty());
    }
    check_decisions(store, proj, &decisions, &exps, issues);
    check_hypotheses(store, pid, &hyps, issues);
    check_principles(store, &principles, &finds, &decisions, issues);
    check_constraints(store, &constraints, &exps, issues);
    check_research(store, &phases, issues);
    let ghost first = issue_views(issues@);
    check_orphans(store, &finds, &exps, &literature, issues);
    check_bleed(store, &decisions, &exps, issues);
    scan_branches(store, &exps, branch, dangling, issues);
    scan_merges(store, &decisions, merge);
    proof {
        assert(first =~= collect(decisions@, upstream_issue(v, exps@))
            + collect(decisions@, unowned_issue(*proj)) + collect(hyps@, hypothesis_issue(v, pid))
            + collect(principles@, principle_issue(v, finds@, decisions@))
            + collect(constraints@, constraint_issue(v, exps@))
            + collect(v.research, research_issue(views(phases@))));
        assert(issue_views(issues@) =~= all_issues(v, *proj));
    }
}

#[verifier::rlimit(60)]
fn push_repair_stats(out: &mut String, store: &Store, proj: &Project)
    requires
        store.wf(),
    ensures
        final(out)@ == old(out)@ + repair_stats(store@, *proj),
{
    let ghost v = store@;
    let pid = proj.id;
    let phases = match store.list_phases(pid) { Ok(x) => x, Err(_) => Vec::new() };
    let decisions = match store.list_decisions(pid) { Ok(x) => x.len(), Err(_) => 0 };
    let principles = match store.list_principles(pid) { Ok(x) => x.len(), Err(_) => 0 };
    let constraints = match store.list_constraints(pid) { Ok(x) => x.len(), Err(_) => 0 };
    let literature = match store.list_literature(pid) { Ok(x) => x.len(), Err(_) => 0 };
    proof { assert(views(phases@) == v.phases.filter(phase_of(pid))); }
    let exps = collect_experiments(store, &phases);
    let finds = collect_findings(store, &exps);
    let hyps = collect_hypotheses(store, &phases);
    let research = collect_research(store, &phases);
    let edges = count_project_edges(store, pid);
    push_str(out, "\n--- KG Stats ---\n");
    push_str(out, "Phases: ");
    push_usize(out, phases.len());
    push_str(out, ", Experiments: ");
    push_usize(out, exps.len());
    push_str(out, ", Findings: ");
    push_usize(out, finds.len());
    push_str(out, "\n");
    push_str(out, "Decisions: ");
    push_usize(out, decisions);
    push_str(out, ", Hypotheses: ");
    push_usize(out, hyps.len());
    push_str(out, ", Research: ");
    push_usize(out, research.len());
    push_str(out, "\n");
    push_str(out, "Principles: ");
    push_usize(out, principles);
    push_str(out, ", Constraints: ");
    push_usize(out, constraints);
    push_str(out, ", Literature: ");
    push_usize(out, literature);
    push_str(out, "\n");
    push_str(out, "Edges: ");
    push_usize(out, edges);
    push_str(out, "\n");
    proof {
        assert(views(phases@).len() == phases@.len());
        assert(out@ =~= old(out)@ + repair_stats(v, *proj));
    }
}

/// Deep structural review of a project's knowledge graph, with a repair
/// hint for every issue; see `orphan_repair_text`.  The store is not
/// changed.
pub fn tool_orphan_repair(store: &Store, project: &str) -> (out: String)
    requires
        store.wf(),
    ensures
        out@ == orphan_repair_text(store@, project@),
{
    let ghost v = store@;
    let mut out = String::new();
    let proj = match find_project(store, project) {
        Some(p) => p,
        None => {
            push_str(&mut out, "Project not found: ");
            push_str(&mut out, project);
            proof { assert(out@ =~= orphan_repair_text(v, project@)); }
            return out;
        },
    };
    let mut issues: Vec<RepairIssue> = Vec::new();
    let mut branch: Vec<String> = Vec::new();
    let mut dangling: Vec<String> = Vec::new();
    let mut merge: Vec<String> = Vec::new();
    gather(store, &proj, &mut issues, &mut branch, &mut merge, &mut dangling);
    push_str(&mut out, "=== Orphan Repair Report: ");
    push_str(&mut out, proj.name.as_str());
    push_str(&mut out, " ===\n");
    let ghost head = out@;
    if branch.len() > 0 || merge.len() > 0 {
        push_str(&mut out, "\n--- Causal Backbone Topology ---\n");
    }
    push_titled_block(&mut out, "Branch points", &branch);
    push_titled_block(&mut out, "Merge points", &merge);
    push_titled_block(&mut out, "Dangling branches", &dangling);
    proof {
        assert(out@ =~= head + topology_text(text_views(branch@), text_views(merge@), text_views(dangling@)));
    }
    push_issues_text(&mut out, &issues);
    push_repair_stats(&mut out, store, &proj);
    proof {
        assert(out@ =~= orphan_repair_text(v, project@));
    }
    out
}

} // verus!
