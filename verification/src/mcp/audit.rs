//! The facts of a knowledge-graph audit of a project: how complete its
//! causal chains are, how far its hypotheses and literature have been
//! taken up, how many edges it has, and which edges leave the project.
use vstd::prelude::*;
use crate::text::{push_str, push_i64, take_chars, dec_int, prefix, str_eq};
use crate::store::{Store, StoreView, Decision, Finding, Hypothesis, Literature, Edge, NodeType, EdgeType,
    HypothesisStatus, Project, phase_of, decision_of, principle_of, constraint_of, literature_of};
use crate::dag::views;
use crate::mcp::common::{project_named, find_project};
use crate::mcp::common::views as text_views;
use crate::mcp::review::{node_in_project, node_in_project_exec, edge_of_project, count_project_edges};
use crate::mcp::repair::{collect, lemma_collect_step, lemma_take_all, push_line, phase_exps, exp_findings,
    phase_hyps, phase_research, collect_experiments, collect_findings, collect_hypotheses, collect_research};

verus! {

broadcast use vstd::seq_lib::group_seq_properties;

/// The facts that an audit of a project reports.
pub struct AuditFacts {
    pub project_name: String,
    pub phases: usize,
    pub experiments: usize,
    pub findings: usize,
    pub decisions: usize,
    pub hypotheses: usize,
    pub research: usize,
    pub principles: usize,
    pub constraints: usize,
    pub literature: usize,
    /// One line per decision with no causal upstream.
    pub broken_chains: Vec<String>,
    pub decisions_with_upstream: usize,
    /// Findings with neither an experiment nor an edge into them.
    pub orphan_findings: usize,
    /// Hypotheses under test or resolved.
    pub hypotheses_tested: usize,
    /// One line per hypothesis still proposed.
    pub untested: Vec<String>,
    /// Literature entries cited, tested, promising or integrated.
    pub literature_utilized: usize,
    /// One line per literature entry unread or of no status.
    pub unread: Vec<String>,
    /// Edges with an end in the project.
    pub edges: usize,
    /// One line per edge with exactly one end in the project.
    pub cross_refs: Vec<String>,
}

/// An edge that carries evidence into a decision.
pub open spec fn upstream_edge(e: Edge) -> bool {
    e.relation == EdgeType::Informed || e.relation == EdgeType::ProducedBy || e.relation == EdgeType::Supports
}

/// Some edge into decision `id` carries evidence to it.
pub open spec fn has_upstream(v: StoreView, id: i64) -> bool {
    v.edges_to(NodeType::Decision, id).filter(|e: Edge| upstream_edge(e)).len() > 0
}

/// Picks out the decisions with evidence flowing into them.
pub open spec fn with_upstream(v: StoreView) -> spec_fn(Decision) -> bool {
    |d: Decision| has_upstream(v, d.id)
}

/// The line of a decision with no causal upstream.
pub open spec fn broken_line(v: StoreView) -> spec_fn(Decision) -> Option<Seq<char>> {
    |d: Decision| if !has_upstream(v, d.id) {
        Some("  D#"@ + dec_int(d.id as int) + " (no causal upstream): "@ + prefix(d.what@, 50))
    } else {
        None
    }
}

/// A finding with no experiment and no edge into it.
pub open spec fn stray_finding(v: StoreView) -> spec_fn(Finding) -> bool {
    |f: Finding| f.experiment_id is None && v.edges_to(NodeType::Finding, f.id).len() == 0
}

/// A hypothesis under test or resolved.
pub open spec fn tested(h: Hypothesis) -> bool {
    h.status == HypothesisStatus::Testing || h.status == HypothesisStatus::Confirmed
        || h.status == HypothesisStatus::Refuted
}

/// The line of a hypothesis still proposed.
pub open spec fn untested_line(h: Hypothesis) -> Option<Seq<char>> {
    if h.status == HypothesisStatus::Proposed {
        Some("    H#"@ + dec_int(h.id as int) + ": "@ + prefix(h.text@, 60))
    } else {
        None
    }
}

/// A literature status that counts as taken up.
pub open spec fn utilized_status(s: Option<String>) -> bool {
    match s {
        Some(x) => x@ == "cited"@ || x@ == "tested"@ || x@ == "promising"@ || x@ == "integrated"@,
        None => false,
    }
}

/// The line of a literature entry unread or of no status.
pub open spec fn unread_line(l: Literature) -> Option<Seq<char>> {
    if (l.status matches Some(s) && s@ == "unread"@) || l.status is None {
        Some("    L#"@ + dec_int(l.id as int) + ": "@ + prefix(l.title@, 60))
    } else {
        None
    }
}

/// The line of an edge with exactly one end in project `p`.
pub open spec fn cross_line(v: StoreView, p: Project) -> spec_fn(Edge) -> Option<Seq<char>> {
    |e: Edge| {
        let s_in = node_in_project(v, p.id, e.source_type, e.source_id);
        let t_in = node_in_project(v, p.id, e.target_type, e.target_id);
        if s_in != t_in {
            let (it, ii, ot, oi) = if s_in {
                (e.source_type, e.source_id, e.target_type, e.target_id)
            } else {
                (e.target_type, e.target_id, e.source_type, e.source_id)
            };
            Some("  Edge #"@ + dec_int(e.id as int) + ": "@ + it.spec_name() + "#"@ + dec_int(ii as int) + " ("@
                + p.name@ + ") <-> "@ + ot.spec_name() + "#"@ + dec_int(oi as int) + " (external) ["@
                + e.relation.spec_name() + "]"@)
        } else {
            None
        }
    }
}

/// `f` holds the audit facts of project `p` in store `v`.
pub open spec fn audit_of(v: StoreView, p: Project, f: AuditFacts) -> bool {
    let ps = v.phases.filter(phase_of(p.id));
    let es = phase_exps(v, ps);
    let fs = exp_findings(v, es);
    let hs = phase_hyps(v, ps);
    let ds = v.decisions.filter(decision_of(p.id));
    let ls = v.literature.filter(literature_of(p.id));
    &&& f.project_name@ == p.name@
    &&& f.phases == ps.len()
    &&& f.experiments == es.len()
    &&& f.findings == fs.len()
    &&& f.decisions == ds.len()
    &&& f.hypotheses == hs.len()
    &&& f.research == phase_research(v, ps).len()
    &&& f.principles == v.principles.filter(principle_of(p.id)).len()
    &&& f.constraints == v.constraints.filter(constraint_of(p.id)).len()
    &&& f.literature == ls.len()
    &&& text_views(f.broken_chains@) == collect(ds, broken_line(v))
    &&& f.decisions_with_upstream == ds.filter(with_upstream(v)).len()
    &&& f.orphan_findings == fs.filter(stray_finding(v)).len()
    &&& f.hypotheses_tested == hs.filter(|h: Hypothesis| tested(h)).len()
    &&& text_views(f.untested@) == collect(hs, |h: Hypothesis| untested_line(h))
    &&& f.literature_utilized == ls.filter(|l: Literature| utilized_status(l.status)).len()
    &&& text_views(f.unread@) == collect(ls, |l: Literature| unread_line(l))
    &&& f.edges == v.edges.filter(edge_of_project(v, p.id)).len()
    &&& text_views(f.cross_refs@) == collect(v.edges, cross_line(v, p))
}

fn has_upstream_exec(store: &Store, id: i64) -> (b: bool)
    ensures
        b == has_upstream(store@, id),
{
    let es = match store.get_edges_to(NodeType::Decision, id) { Ok(x) => x, Err(_) => Vec::new() };
    let ghost pred = |e: Edge| upstream_edge(e);
    let mut found = false;
    let mut i: usize = 0;
    while i < es.len()
        invariant
            i <= es@.len(),
            pred == (|e: Edge| upstream_edge(e)),
            found == (es@.take(i as int).filter(pred).len() > 0),
        decreases es@.len() - i,
    {
        proof {
            assert(es@.take(i + 1) =~= es@.take(i as int).push(es@[i as int]));
            es@.take(i as int).lemma_filter_push(es@[i as int], pred);
        }
        let r = es[i].relation;
        if r == EdgeType::Informed || r == EdgeType::ProducedBy || r == EdgeType::Supports {
            found = true;
        }
        i = i + 1;
    }
    proof { lemma_take_all(es@); }
    found
}

fn audit_decisions(store: &Store, ds: &Vec<Decision>) -> (r: (Vec<String>, usize))
    ensures
        text_views(r.0@) == collect(ds@, broken_line(store@)),
        r.1 == ds@.filter(with_upstream(store@)).len(),
{
    let ghost f = broken_line(store@);
    let ghost pred = with_upstream(store@);
    let mut lines: Vec<String> = Vec::new();
    let mut n: usize = 0;
    proof { assert(text_views(lines@) =~= Seq::<Seq<char>>::empty()); }
    let mut i: usize = 0;
    while i < ds.len()
        invariant
            f == broken_line(store@),
            pred == with_upstream(store@),
            i <= ds@.len(),
            text_views(lines@) == collect(ds@.take(i as int), f),
            n == ds@.take(i as int).filter(pred).len(),
            n <= i,
        decreases ds@.len() - i,
    {
        proof {
            lemma_collect_step(ds@, f, i as int);
            assert(ds@.take(i + 1) =~= ds@.take(i as int).push(ds@[i as int]));
            ds@.take(i as int).lemma_filter_push(ds@[i as int], pred);
        }
        let d = &ds[i];
        let ghost before = text_views(lines@);
        if has_upstream_exec(store, d.id) {
            n = n + 1;
        } else {
            let mut l = String::new();
            push_str(&mut l, "  D#");
            push_i64(&mut l, d.id);
            push_str(&mut l, " (no causal upstream): ");
            let w = take_chars(d.what.as_str(), 50);
            push_str(&mut l, w.as_str());
            proof { assert(l@ =~= f(*d).unwrap()); }
            push_line(&mut lines, l);
        }
        proof { assert(text_views(lines@) =~= collect(ds@.take(i + 1), f)); }
        i = i + 1;
    }
    proof { lemma_take_all(ds@); }
    (lines, n)
}

fn count_stray_findings(store: &Store, fs: &Vec<Finding>) -> (n: usize)
    ensures
        n == fs@.filter(stray_finding(store@)).len(),
{
    let ghost pred = stray_finding(store@);
    let mut n: usize = 0;
    let mut i: usize = 0;
    while i < fs.len()
        invariant
            pred == stray_finding(store@),
            i <= fs@.len(),
            n == fs@.take(i as int).filter(pred).len(),
            n <= i,
        decreases fs@.len() - i,
    {
        proof {
            assert(fs@.take(i + 1) =~= fs@.take(i as int).push(fs@[i as int]));
            fs@.take(i as int).lemma_filter_push(fs@[i as int], pred);
        }
        if fs[i].experiment_id.is_none() {
            let into = match store.get_edges_to(NodeType::Finding, fs[i].id) { Ok(x) => x.len(), Err(_) => 0 };
            if into == 0 {
                n = n + 1;
            }
        }
        i = i + 1;
    }
    proof { lemma_take_all(fs@); }
    n
}

fn audit_hypotheses(hs: &Vec<Hypothesis>) -> (r: (usize, Vec<String>))
    ensures
        r.0 == hs@.filter(|h: Hypothesis| tested(h)).len(),
        text_views(r.1@) == collect(hs@, |h: Hypothesis| untested_line(h)),
{
    let ghost pred = |h: Hypothesis| tested(h);
    let ghost f = |h: Hypothesis| untested_line(h);
    let mut n: usize = 0;
    let mut lines: Vec<String> = Vec::new();
    proof { assert(text_views(lines@) =~= Seq::<Seq<char>>::empty()); }
    let mut i: usize = 0;
    while i < hs.len()
        invariant
            pred == (|h: Hypothesis| tested(h)),
            f == (|h: Hypothesis| untested_line(h)),
            i <= hs@.len(),
            n == hs@.take(i as int).filter(pred).len(),
            n <= i,
            text_views(lines@) == collect(hs@.take(i as int), f),
        decreases hs@.len() - i,
    {
        proof {
            lemma_collect_step(hs@, f, i as int);
            assert(hs@.take(i + 1) =~= hs@.take(i as int).push(hs@[i as int]));
            hs@.take(i as int).lemma_filter_push(hs@[i as int], pred);
        }
        let h = &hs[i];
        if h.status == HypothesisStatus::Testing || h.status == HypothesisStatus::Confirmed
            || h.status == HypothesisStatus::Refuted {
            n = n + 1;
        }
        if h.status == HypothesisStatus::Proposed {
            let mut l = String::new();
            push_str(&mut l, "    H#");
            push_i64(&mut l, h.id);
            push_str(&mut l, ": ");
            let t = take_chars(h.text.as_str(), 60);
            push_str(&mut l, t.as_str());
            proof { assert(l@ =~= f(*h).unwrap()); }
            push_line(&mut lines, l);
        }
        proof { assert(text_views(lines@) =~= collect(hs@.take(i + 1), f)); }
        i = i + 1;
    }
    proof { lemma_take_all(hs@); }
    (n, lines)
}

fn status_is(s: &Option<String>, t: &str) -> (b: bool)
    ensures
        b == (s matches Some(x) && x@ == t@),
{
    match s {
        Some(x) => str_eq(x.as_str(), t),
        None => false,
    }
}

fn audit_literature(ls: &Vec<Literature>) -> (r: (usize, Vec<String>))
    ensures
        r.0 == ls@.filter(|l: Literature| utilized_status(l.status)).len(),
        text_views(r.1@) == collect(ls@, |l: Literature| unread_line(l)),
{
    let ghost pred = |l: Literature| utilized_status(l.status);
    let ghost f = |l: Literature| unread_line(l);
    let mut n: usize = 0;
    let mut lines: Vec<String> = Vec::new();
    proof { assert(text_views(lines@) =~= Seq::<Seq<char>>::empty()); }
    let mut i: usize = 0;
    while i < ls.len()
        invariant
            pred == (|l: Literature| utilized_status(l.status)),
            f == (|l: Literature| unread_line(l)),
            i <= ls@.len(),
            n == ls@.take(i as int).filter(pred).len(),
            n <= i,
            text_views(lines@) == collect(ls@.take(i as int), f),
        decreases ls@.len() - i,
    {
        proof {
            lemma_collect_step(ls@, f, i as int);
            assert(ls@.take(i + 1) =~= ls@.take(i as int).push(ls@[i as int]));
            ls@.take(i as int).lemma_filter_push(ls@[i as int], pred);
        }
        let l = &ls[i];
        if status_is(&l.status, "cited") || status_is(&l.status, "tested") || status_is(&l.status, "promising")
            || status_is(&l.status, "integrated") {
            n = n + 1;
        }
        if status_is(&l.status, "unread") || l.status.is_none() {
            let mut line = String::new();
            push_str(&mut line, "    L#");
            push_i64(&mut line, l.id);
            push_str(&mut line, ": ");
            let t = take_chars(l.title.as_str(), 60);
            push_str(&mut line, t.as_str());
            proof { assert(line@ =~= f(*l).unwrap()); }
            push_line(&mut lines, line);
        }
        proof { assert(text_views(lines@) =~= collect(ls@.take(i + 1), f)); }
        i = i + 1;
    }
    proof { lemma_take_all(ls@); }
    (n, lines)
}

fn audit_cross_refs(store: &Store, p: &Project) -> (lines: Vec<String>)
    requires
        store.wf(),
    ensures
        text_views(lines@) == collect(store@.edges, cross_line(store@, *p)),
{
    let es = match store.list_all_edges() { Ok(x) => x, Err(_) => Vec::new() };
    let ghost f = cross_line(store@, *p);
    let mut lines: Vec<String> = Vec::new();
    proof { assert(text_views(lines@) =~= Seq::<Seq<char>>::empty()); }
    let mut i: usize = 0;
    while i < es.len()
        invariant
            store.wf(),
            es@ == store@.edges,
            f == cross_line(store@, *p),
            i <= es@.len(),
            text_views(lines@) == collect(es@.take(i as int), f),
        decreases es@.len() - i,
    {
        proof { lemma_collect_step(es@, f, i as int); }
        let e = es[i];
        let s_in = node_in_project_exec(store, p.id, e.source_type, e.source_id);
        let t_in = node_in_project_exec(store, p.id, e.target_type, e.target_id);
        if s_in != t_in {
            let (it, ii, ot, oi) = if s_in {
                (e.source_type, e.source_id, e.target_type, e.target_id)
            } else {
                (e.target_type, e.target_id, e.source_type, e.source_id)
            };
            let mut l = String::new();
            push_str(&mut l, "  Edge #");
            push_i64(&mut l, e.id);
            push_str(&mut l, ": ");
            push_str(&mut l, it.name());
            push_str(&mut l, "#");
            push_i64(&mut l, ii);
            push_str(&mut l, " (");
            push_str(&mut l, p.name.as_str());
            push_str(&mut l, ") <-> ");
            push_str(&mut l, ot.name());
            push_str(&mut l, "#");
            push_i64(&mut l, oi);
            push_str(&mut l, " (external) [");
            push_str(&mut l, e.relation.name());
            push_str(&mut l, "]");
            proof { assert(l@ =~= f(e).unwrap()); }
            push_line(&mut lines, l);
        }
        proof { assert(text_views(lines@) =~= collect(es@.take(i + 1), f)); }
        i = i + 1;
    }
    proof { lemma_take_all(es@); }
    lines
}

/// The audit facts of the project named `project` (by name or alias), or
/// `None` when no project answers to it.  The store is not changed.
pub fn kg_audit_facts(store: &Store, project: &str) -> (res: Option<AuditFacts>)
    requires
        store.wf(),
    ensures
        res is None <==> project_named(store@, project@) is None,
        res matches Some(f) ==> (project_named(store@, project@) matches Some(p) && audit_of(store@, p, f)),
{
    let ghost v = store@;
    let proj = match find_project(store, project) {
        Some(p) => p,
        None => return None,
    };
    let pid = proj.id;
    let phases = match store.list_phases(pid) { Ok(x) => x, Err(_) => Vec::new() };
    proof { assert(views(phases@) == v.phases.filter(phase_of(pid))); }
    let exps = collect_experiments(store, &phases);
    let finds = collect_findings(store, &exps);
    let hyps = collect_hypotheses(store, &phases);
    let research = collect_research(store, &phases);
    let decisions = match store.list_decisions(pid) { Ok(x) => x, Err(_) => Vec::new() };
    let principles = match store.list_principles(pid) { Ok(x) => x.len(), Err(_) => 0 };
    let constraints = match store.list_constraints(pid) { Ok(x) => x.len(), Err(_) => 0 };
    let literature = match store.list_literature(pid) { Ok(x) => x, Err(_) => Vec::new() };
    let (broken, with_up) = audit_decisions(store, &decisions);
    let stray = count_stray_findings(store, &finds);
    let (tested_n, untested) = audit_hypotheses(&hyps);
    let (utilized, unread) = audit_literature(&literature);
    let edges = count_project_edges(store, pid);
    let cross = audit_cross_refs(store, &proj);
    let name = proj.name.clone();
    proof { assert(views(phases@).len() == phases@.len()); }
    let f = AuditFacts {
        project_name: name,
        phases: phases.len(),
        experiments: exps.len(),
        findings: finds.len(),
        decisions: decisions.len(),
        hypotheses: hyps.len(),
        research: research.len(),
        principles,
        constraints,
        literature: literature.len(),
        broken_chains: broken,
        decisions_with_upstream: with_up,
        orphan_findings: stray,
        hypotheses_tested: tested_n,
        untested,
        literature_utilized: utilized,
        unread,
        edges,
        cross_refs: cross,
    };
    Some(f)
}

} // verus!
