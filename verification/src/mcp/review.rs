//! Review tools: the counts of what a project holds, and the nodes of a
//! project that no edge touches.
use vstd::prelude::*;
use crate::text::{push_str, push_usize, push_u128, dec_nat, str_eq};
use crate::store::{Store, StoreView, StoreError, Experiment, Finding, Hypothesis, Edge, NodeType, phase_of,
    experiment_of_project, decision_of, literature_of, principle_of, constraint_of, edge_from, edge_to};
use crate::mcp::common::{project_named, find_project};
use crate::text::{push_i64, dec_int, prefix, take_chars};
use crate::store::{PhaseView, Phase, Decision, Constraint, Project, ExperimentStatus, HypothesisStatus, phase_of as phase_of_project};
use crate::dag::{DagEngine, next_phases_of, fail_streak, views};
use crate::kg::{KgEngine, contradictions_among};
use crate::mcp::finding::first_n;
use crate::mcp::context::{with_status, pair_line, proposed};
use crate::mcp::repair::{collect, lemma_take_all, line_block, phase_exps, exp_findings, phase_hyps, untouched,
    node_ref, downstream, pending_exp, merge_sources, exp_refs, collect_experiments, collect_findings,
    collect_hypotheses, untouched_exec, downstream_exec, count_pending, merge_sources_exec, push_exp_refs, make_ref,
    push_line};
use crate::mcp::common::views as text_views;
use vstd::string::StrSliceExecFns;

verus! {

broadcast use vstd::seq_lib::group_seq_properties;

/// Phase `ph` exists and belongs to project `pid`.
pub open spec fn phase_in(v: StoreView, ph: Option<i64>, pid: i64) -> bool {
    ph matches Some(x) && v.phase(x) matches Some(p) && p.project_id == pid
}

/// Picks out the findings of experiments of project `pid`.
pub open spec fn finding_of_project(v: StoreView, pid: i64) -> spec_fn(Finding) -> bool {
    |f: Finding| f.experiment_id matches Some(e) && v.experiment(e) matches Some(x) && phase_in(v, x.phase_id, pid)
}

/// Picks out the hypotheses of phases of project `pid`.
pub open spec fn hypothesis_of_project(v: StoreView, pid: i64) -> spec_fn(Hypothesis) -> bool {
    |h: Hypothesis| phase_in(v, h.phase_id, pid)
}

/// Node (`nt`, `id`) exists and belongs to project `pid`: directly, through
/// its phase, or through its experiment; decisions of no project count for
/// every project.
pub open spec fn node_in_project(v: StoreView, pid: i64, nt: NodeType, id: i64) -> bool {
    match nt {
        NodeType::Phase => phase_in(v, Some(id), pid),
        NodeType::Experiment => v.experiment(id) matches Some(x) && phase_in(v, x.phase_id, pid),
        NodeType::Finding => v.finding(id) matches Some(f) && finding_of_project(v, pid)(f),
        NodeType::Research => v.research_task(id) matches Some(r) && phase_in(v, r.phase_id, pid),
        NodeType::Hypothesis => v.hypothesis(id) matches Some(h) && phase_in(v, h.phase_id, pid),
        NodeType::Decision => v.decision(id) matches Some(d) && decision_of(pid)(d),
        NodeType::Principle => v.principle(id) matches Some(p) && p.project_id == pid,
        NodeType::Constraint => v.constraint(id) matches Some(c) && c.project_id == pid,
        NodeType::Literature => v.literature_entry(id) matches Some(l) && l.project_id == pid,
        NodeType::Feedback => false,
    }
}

/// Picks out the edges with an end in project `pid`.
pub open spec fn edge_of_project(v: StoreView, pid: i64) -> spec_fn(Edge) -> bool {
    |e: Edge| node_in_project(v, pid, e.source_type, e.source_id) || node_in_project(v, pid, e.target_type, e.target_id)
}

/// The one-line counts of project `pid`.
pub open spec fn stats_text(v: StoreView, pid: i64) -> Seq<char> {
    "Phases:"@ + dec_nat(v.phases_of(pid).len())
        + " Exp:"@ + dec_nat(v.experiments.filter(experiment_of_project(v, pid)).len())
        + " Find:"@ + dec_nat(v.findings.filter(finding_of_project(v, pid)).len())
        + " Dec:"@ + dec_nat(v.decisions.filter(decision_of(pid)).len())
        + " Princ:"@ + dec_nat(v.principles.filter(principle_of(pid)).len())
        + " Hyp:"@ + dec_nat(v.hypotheses.filter(hypothesis_of_project(v, pid)).len())
        + " Con:"@ + dec_nat(v.constraints.filter(constraint_of(pid)).len())
        + " Lit:"@ + dec_nat(v.literature.filter(literature_of(pid)).len())
        + " Edges:"@ + dec_nat(v.edges.filter(edge_of_project(v, pid)).len())
}

pub(crate) fn phase_in_exec(store: &Store, ph: Option<i64>, pid: i64) -> (b: bool)
    requires
        store.wf(),
    ensures
        b == phase_in(store@, ph, pid),
{
    match ph {
        Some(x) => match store.get_phase(x) {
            Ok(p) => p.project_id == pid,
            Err(_) => false,
        },
        None => false,
    }
}

pub(crate) fn node_in_project_exec(store: &Store, pid: i64, nt: NodeType, id: i64) -> (b: bool)
    requires
        store.wf(),
    ensures
        b == node_in_project(store@, pid, nt, id),
{
    match nt {
        NodeType::Phase => phase_in_exec(store, Some(id), pid),
        NodeType::Experiment => match store.get_experiment(id) {
            Ok(x) => phase_in_exec(store, x.phase_id, pid),
            Err(_) => false,
        },
        NodeType::Finding => match store.get_finding(id) {
            Ok(f) => match f.experiment_id {
                Some(e) => match store.get_experiment(e) {
                    Ok(x) => phase_in_exec(store, x.phase_id, pid),
                    Err(_) => false,
                },
                None => false,
            },
            Err(_) => false,
        },
        NodeType::Research => match store.get_research(id) {
            Ok(r) => phase_in_exec(store, r.phase_id, pid),
            Err(_) => false,
        },
        NodeType::Hypothesis => match store.get_hypothesis(id) {
            Ok(h) => phase_in_exec(store, h.phase_id, pid),
            Err(_) => false,
        },
        NodeType::Decision => match store.get_decision(id) {
            Ok(d) => d.project_id.is_none() || d.project_id == Some(pid),
            Err(_) => false,
        },
        NodeType::Principle => match store.get_principle(id) {
            Ok(p) => p.project_id == pid,
            Err(_) => false,
        },
        NodeType::Constraint => match store.get_constraint(id) {
            Ok(c) => c.project_id == pid,
            Err(_) => false,
        },
        NodeType::Literature => match store.get_literature(id) {
            Ok(l) => l.project_id == pid,
            Err(_) => false,
        },
        NodeType::Feedback => false,
    }
}

fn count_project_findings(store: &Store, pid: i64) -> (n: usize)
    requires
        store.wf(),
    ensures
        n == store@.findings.filter(finding_of_project(store@, pid)).len(),
{
    let fs = match store.list_findings(None) {
        Ok(x) => x,
        Err(_) => Vec::new(),
    };
    let ghost all = store@.findings;
    proof {
        crate::mcp::finding::lemma_filter_true(all, crate::store::finding_in(None));
    }
    let mut n: usize = 0;
    let mut i: usize = 0;
    while i < fs.len()
        invariant
            store.wf(),
            fs@ == all,
            all == store@.findings,
            i <= fs@.len(),
            n == all.take(i as int).filter(finding_of_project(store@, pid)).len(),
            n <= i,
        decreases fs@.len() - i,
    {
        proof {
            assert(all.take(i + 1) =~= all.take(i as int).push(all[i as int]));
            all.take(i as int).lemma_filter_push(all[i as int], finding_of_project(store@, pid));
        }
        let hit = match fs[i].experiment_id {
            Some(e) => match store.get_experiment(e) {
                Ok(x) => phase_in_exec(store, x.phase_id, pid),
                Err(_) => false,
            },
            None => false,
        };
        if hit {
            n = n + 1;
        }
        i = i + 1;
    }
    proof {
        assert(all.take(i as int) =~= all);
    }
    n
}

fn count_project_hypotheses(store: &Store, pid: i64) -> (n: usize)
    requires
        store.wf(),
    ensures
        n == store@.hypotheses.filter(hypothesis_of_project(store@, pid)).len(),
{
    let hs = match store.list_hypotheses(None) {
        Ok(x) => x,
        Err(_) => Vec::new(),
    };
    let ghost all = store@.hypotheses;
    proof {
        assert(all.filter(crate::store::hypothesis_in(None)) =~= all) by {
            lemma_filter_all(all, crate::store::hypothesis_in(None));
        }
    }
    let mut n: usize = 0;
    let mut i: usize = 0;
    while i < hs.len()
        invariant
            store.wf(),
            hs@ == all,
            all == store@.hypotheses,
            i <= hs@.len(),
            n == all.take(i as int).filter(hypothesis_of_project(store@, pid)).len(),
            n <= i,
        decreases hs@.len() - i,
    {
        proof {
            assert(all.take(i + 1) =~= all.take(i as int).push(all[i as int]));
            all.take(i as int).lemma_filter_push(all[i as int], hypothesis_of_project(store@, pid));
        }
        if phase_in_exec(store, hs[i].phase_id, pid) {
            n = n + 1;
        }
        i = i + 1;
    }
    proof {
        assert(all.take(i as int) =~= all);
    }
    n
}

pub(crate) proof fn lemma_filter_all<A>(s: Seq<A>, p: spec_fn(A) -> bool)
    requires
        forall|x: A| #[trigger] p(x),
    ensures
        s.filter(p) == s,
    decreases s.len(),
{
    if s.len() > 0 {
        lemma_filter_all(s.drop_last(), p);
        assert(s.drop_last().push(s.last()) =~= s);
        s.drop_last().lemma_filter_push(s.last(), p);
    } else {
        assert(s.filter(p) =~= s);
    }
}

pub(crate) fn count_project_edges(store: &Store, pid: i64) -> (n: usize)
    requires
        store.wf(),
    ensures
        n == store@.edges.filter(edge_of_project(store@, pid)).len(),
{
    let es = match store.list_all_edges() {
        Ok(x) => x,
        Err(_) => Vec::new(),
    };
    let ghost all = store@.edges;
    let mut n: usize = 0;
    let mut i: usize = 0;
    while i < es.len()
        invariant
            store.wf(),
            es@ == all,
            all == store@.edges,
            i <= es@.len(),
            n == all.take(i as int).filter(edge_of_project(store@, pid)).len(),
            n <= i,
        decreases es@.len() - i,
    {
        proof {
            assert(all.take(i + 1) =~= all.take(i as int).push(all[i as int]));
            all.take(i as int).lemma_filter_push(all[i as int], edge_of_project(store@, pid));
        }
        let e = es[i];
        if node_in_project_exec(store, pid, e.source_type, e.source_id) || node_in_project_exec(store, pid, e.target_type, e.target_id) {
            n = n + 1;
        }
        i = i + 1;
    }
    proof {
        assert(all.take(i as int) =~= all);
    }
    n
}

/// The counts of a project named by name or alias, on one line; see
/// `stats_text`.
pub fn tool_stats(store: &Store, project: &str) -> (out: String)
    requires
        store.wf(),
    ensures
        project_named(store@, project@) is None ==> out@ == "Not found"@,
        project_named(store@, project@) matches Some(p) ==> out@ == stats_text(store@, p.id),
{
    let mut out = String::new();
    let proj = match find_project(store, project) {
        Some(p) => p,
        None => {
            push_str(&mut out, "Not found");
            return out;
        },
    };
    let pid = proj.id;
    let phases = match store.list_phases(pid) { Ok(x) => x.len(), Err(_) => 0 };
    let exps = match store.list_project_experiments(pid) { Ok(x) => x.len(), Err(_) => 0 };
    let finds = count_project_findings(store, pid);
    let decs = match store.list_decisions(pid) { Ok(x) => x.len(), Err(_) => 0 };
    let prins = match store.list_principles(pid) { Ok(x) => x.len(), Err(_) => 0 };
    let hyps = count_project_hypotheses(store, pid);
    let cons = match store.list_constraints(pid) { Ok(x) => x.len(), Err(_) => 0 };
    let lits = match store.list_literature(pid) { Ok(x) => x.len(), Err(_) => 0 };
    let edges = count_project_edges(store, pid);
    push_str(&mut out, "Phases:");
    push_usize(&mut out, phases);
    push_str(&mut out, " Exp:");
    push_usize(&mut out, exps);
    push_str(&mut out, " Find:");
    push_usize(&mut out, finds);
    push_str(&mut out, " Dec:");
    push_usize(&mut out, decs);
    push_str(&mut out, " Princ:");
    push_usize(&mut out, prins);
    push_str(&mut out, " Hyp:");
    push_usize(&mut out, hyps);
    push_str(&mut out, " Con:");
    push_usize(&mut out, cons);
    push_str(&mut out, " Lit:");
    push_usize(&mut out, lits);
    push_str(&mut out, " Edges:");
    push_usize(&mut out, edges);
    proof {
        assert(out@ =~= stats_text(store@, pid));
    }
    out
}

/// The number of rows of the table of node type `nt`.
pub open spec fn table_len(v: StoreView, nt: NodeType) -> nat {
    match nt {
        NodeType::Finding => v.findings.len(),
        NodeType::Experiment => v.experiments.len(),
        NodeType::Decision => v.decisions.len(),
        NodeType::Phase => v.phases.len(),
        NodeType::Research => v.research.len(),
        NodeType::Principle => v.principles.len(),
        NodeType::Hypothesis => v.hypotheses.len(),
        NodeType::Constraint => v.constraints.len(),
        NodeType::Literature => v.literature.len(),
        NodeType::Feedback => 0,
    }
}

/// The node type that an orphan review names: finding, decision,
/// hypothesis, literature, principle or constraint.
pub open spec fn orphan_kind(s: Seq<char>) -> Option<NodeType> {
    if s == "finding"@ { Some(NodeType::Finding) }
    else if s == "decision"@ { Some(NodeType::Decision) }
    else if s == "hypothesis"@ { Some(NodeType::Hypothesis) }
    else if s == "literature"@ { Some(NodeType::Literature) }
    else if s == "principle"@ { Some(NodeType::Principle) }
    else if s == "constraint"@ { Some(NodeType::Constraint) }
    else { None }
}

/// Node (`nt`, `id`) is of project `pid` and no edge touches it.
pub open spec fn is_orphan(v: StoreView, pid: i64, nt: NodeType, id: i64) -> bool {
    node_in_project(v, pid, nt, id) && v.edges_from(nt, id).len() == 0 && v.edges_to(nt, id).len() == 0
}

/// The ids `1..=n` that name orphans of type `nt` in project `pid`, in order.
pub open spec fn orphans_upto(v: StoreView, pid: i64, nt: NodeType, n: nat) -> Seq<i64>
    decreases n,
{
    if n == 0 {
        Seq::empty()
    } else {
        let r = orphans_upto(v, pid, nt, (n - 1) as nat);
        if is_orphan(v, pid, nt, n as i64) { r.push(n as i64) } else { r }
    }
}

proof fn lemma_table_bound(v: StoreView, nt: NodeType)
    requires
        v.wf(),
    ensures
        table_len(v, nt) <= 0x7fff_ffff_ffff_ffff,
{
    if v.findings.len() > 0 { assert(v.findings[v.findings.len() - 1].id == v.findings.len()); }
    if v.experiments.len() > 0 { assert(v.experiments[v.experiments.len() - 1].id == v.experiments.len()); }
    if v.decisions.len() > 0 { assert(v.decisions[v.decisions.len() - 1].id == v.decisions.len()); }
    if v.phases.len() > 0 { assert(v.phases[v.phases.len() - 1].id == v.phases.len()); }
    if v.research.len() > 0 { assert(v.research[v.research.len() - 1].id == v.research.len()); }
    if v.principles.len() > 0 { assert(v.principles[v.principles.len() - 1].id == v.principles.len()); }
    if v.hypotheses.len() > 0 { assert(v.hypotheses[v.hypotheses.len() - 1].id == v.hypotheses.len()); }
    if v.constraints.len() > 0 { assert(v.constraints[v.constraints.len() - 1].id == v.constraints.len()); }
    if v.literature.len() > 0 { assert(v.literature[v.literature.len() - 1].id == v.literature.len()); }
}

fn node_exists(store: &Store, nt: NodeType, id: i64) -> (b: bool)
    requires
        store.wf(),
    ensures
        b == (1 <= id <= table_len(store@, nt)),
{
    match nt {
        NodeType::Finding => store.get_finding(id).is_ok(),
        NodeType::Experiment => store.get_experiment(id).is_ok(),
        NodeType::Decision => store.get_decision(id).is_ok(),
        NodeType::Phase => store.get_phase(id).is_ok(),
        NodeType::Research => store.get_research(id).is_ok(),
        NodeType::Principle => store.get_principle(id).is_ok(),
        NodeType::Hypothesis => store.get_hypothesis(id).is_ok(),
        NodeType::Constraint => store.get_constraint(id).is_ok(),
        NodeType::Literature => store.get_literature(id).is_ok(),
        NodeType::Feedback => false,
    }
}

impl Store {
    /// The ids of the nodes of a kind (finding, decision, hypothesis,
    /// literature, principle or constraint) that belong to project
    /// `project_id` and that no edge touches, in creation order; another
    /// kind is refused.
    pub fn get_orphaned_nodes(&self, kind: &str, project_id: i64) -> (res: crate::store::Result<Vec<i64>>)
        requires
            self.wf(),
        ensures
            orphan_kind(kind@) is None ==> res == Err::<Vec<i64>, StoreError>(StoreError::Invalid),
            orphan_kind(kind@) matches Some(nt) ==> (res matches Ok(ids)
                && ids@ == orphans_upto(self@, project_id, nt, table_len(self@, nt))),
    {
        let nt = if str_eq(kind, "finding") { NodeType::Finding }
            else if str_eq(kind, "decision") { NodeType::Decision }
            else if str_eq(kind, "hypothesis") { NodeType::Hypothesis }
            else if str_eq(kind, "literature") { NodeType::Literature }
            else if str_eq(kind, "principle") { NodeType::Principle }
            else if str_eq(kind, "constraint") { NodeType::Constraint }
            else { return Err(StoreError::Invalid); };
        let ghost len = table_len(self@, nt);
        let mut out: Vec<i64> = Vec::new();
        let mut k: u64 = 1;
        proof {
            lemma_table_bound(self@, nt);
        }
        while k <= 0x7fff_ffff_ffff_ffff && node_exists(self, nt, k as i64)
            invariant
                self.wf(),
                len == table_len(self@, nt),
                len <= 0x7fff_ffff_ffff_ffff,
                1 <= k <= len + 1,
                out@ == orphans_upto(self@, project_id, nt, (k - 1) as nat),
            decreases len + 1 - k,
        {
            let id = k as i64;
            let from = match self.get_edges_from(nt, id) { Ok(x) => x.len(), Err(_) => 0 };
            let to = match self.get_edges_to(nt, id) { Ok(x) => x.len(), Err(_) => 0 };
            if from == 0 && to == 0 && node_in_project_exec(self, project_id, nt, id) {
                out.push(id);
            }
            k = k + 1;
        }
        Ok(out)
    }
}

// ---------------------------------------------------------------- review

/// `a` comes no later than `b` in lexicographic order of characters (the
/// order of their UTF-8 bytes).
pub open spec fn seq_le(a: Seq<char>, b: Seq<char>) -> bool
    decreases a.len(),
{
    if a.len() == 0 {
        true
    } else if b.len() == 0 {
        false
    } else if a[0] != b[0] {
        (a[0] as u32) < (b[0] as u32)
    } else {
        seq_le(a.drop_first(), b.drop_first())
    }
}

pub(crate) fn str_le(a: &str, b: &str) -> (r: bool)
    ensures
        r == seq_le(a@, b@),
{
    let x = crate::text::chars_of(a);
    let y = crate::text::chars_of(b);
    let mut i: usize = 0;
    while i < x.len() && i < y.len() && x[i] == y[i]
        invariant
            i <= x@.len(),
            i <= y@.len(),
            x@ == a@,
            y@ == b@,
            seq_le(a@, b@) == seq_le(a@.skip(i as int), b@.skip(i as int)),
        decreases x@.len() - i,
    {
        proof {
            assert(a@.skip(i as int).drop_first() =~= a@.skip(i + 1));
            assert(b@.skip(i as int).drop_first() =~= b@.skip(i + 1));
        }
        i = i + 1;
    }
    if i == x.len() {
        proof { assert(a@.skip(i as int).len() == 0); }
        true
    } else if i == y.len() {
        proof { assert(b@.skip(i as int).len() == 0); }
        false
    } else {
        proof {
            assert(a@.skip(i as int)[0] == x@[i as int]);
            assert(b@.skip(i as int)[0] == y@[i as int]);
        }
        (x[i] as u32) < (y[i] as u32)
    }
}

/// The experiment counts of the review.
pub open spec fn review_counts(es: Seq<Experiment>) -> Seq<char> {
    "## Experiments: "@ + dec_nat(es.len()) + " total, "@ + dec_nat(es.filter(with_status(ExperimentStatus::Pass)).len())
        + " pass, "@ + dec_nat(es.filter(with_status(ExperimentStatus::Fail)).len()) + " fail, "@
        + dec_nat(es.filter(with_status(ExperimentStatus::Pending)).len()) + " pending\n"@
}

/// The stagnation warning: three or more consecutive failed experiments.
pub open spec fn stagnation_text(v: StoreView, pid: i64) -> Seq<char> {
    streak_note(v, pid, "\n## STAGNATION: "@, " consecutive fails\n"@)
}

/// `head`, the length of project `pid`'s run of failed experiments and
/// `tail`, when the run is three or longer; nothing otherwise.
pub open spec fn streak_note(v: StoreView, pid: i64, head: Seq<char>, tail: Seq<char>) -> Seq<char> {
    let s = fail_streak(v.experiments.filter(experiment_of_project(v, pid)));
    if s >= 3 { head + dec_nat(s) + tail } else { Seq::empty() }
}

/// The line of a top phase in the review.
pub open spec fn top_phase_line(p: PhaseView) -> Seq<char> {
    "  #"@ + dec_int(p.id as int) + " [impact:"@ + dec_int(p.impact as int) + "] "@ + p.status.spec_name() + " "@ + p.name
}

/// The three highest-ranked next phases.
pub open spec fn top_phases_text(order: Seq<PhaseView>) -> Seq<char> {
    "\n## Top phases by impact:\n"@ + line_block(first_n(order, 3).map_values(|p: PhaseView| top_phase_line(p)))
}

/// The contradictions among the project's findings, the first five shown.
pub open spec fn contradictions_text(cs: Seq<(Finding, Finding)>) -> Seq<char> {
    if cs.len() == 0 {
        Seq::empty()
    } else {
        "\n## Contradictions: "@ + dec_nat(cs.len()) + "\n"@
            + line_block(first_n(cs, 5).map_values(|q: (Finding, Finding)| pair_line(q)))
            + (if cs.len() > 5 { "  ... and "@ + dec_nat((cs.len() - 5) as nat) + " more\n"@ } else { Seq::empty() })
    }
}

/// The line of an untested hypothesis in the review.
pub open spec fn proposed_line(h: Hypothesis) -> Seq<char> {
    "  H#"@ + dec_int(h.id as int) + ": "@ + prefix(h.text@, 60)
}

/// The untested hypotheses, the first three shown.
pub open spec fn untested_text(hs: Seq<Hypothesis>) -> Seq<char> {
    let ps = hs.filter(proposed());
    if ps.len() == 0 {
        Seq::empty()
    } else {
        "\nHypotheses: "@ + dec_nat(ps.len()) + " untested\n"@
            + line_block(first_n(ps, 3).map_values(|h: Hypothesis| proposed_line(h)))
    }
}

/// The warning about hypotheses that no edge touches.
pub open spec fn orphan_hyp_text(v: StoreView, hs: Seq<Hypothesis>) -> Seq<char> {
    let n = hs.filter(|h: Hypothesis| untouched(v, NodeType::Hypothesis, h.id)).len();
    if n > 0 {
        "\n## WARNING: "@ + dec_nat(n) + " orphaned hypothesis/hypotheses (no edges). Link them with pm_add_edge.\n"@
    } else {
        Seq::empty()
    }
}

/// `tag#id` references to `ids`, separated by commas.
pub open spec fn tag_refs(tag: Seq<char>, ids: Seq<i64>) -> Seq<char>
    decreases ids.len(),
{
    if ids.len() == 0 {
        Seq::empty()
    } else if ids.len() == 1 {
        tag + "#"@ + dec_int(ids[0] as int)
    } else {
        tag_refs(tag, ids.drop_last()) + ", "@ + tag + "#"@ + dec_int(ids.last() as int)
    }
}

/// The orphans of type `nt` in project `pid`.
pub open spec fn orphans_of(v: StoreView, pid: i64, nt: NodeType) -> Seq<i64> {
    orphans_upto(v, pid, nt, table_len(v, nt))
}

/// The line of the orphans of one type; nothing when there are none.
pub open spec fn orphan_line(title: Seq<char>, tag: Seq<char>, ids: Seq<i64>) -> Seq<Seq<char>> {
    if ids.len() > 0 {
        seq!["  "@ + title + ": "@ + dec_nat(ids.len()) + " orphaned ("@ + tag_refs(tag, ids) + ")"@]
    } else {
        Seq::empty()
    }
}

/// The orphans of project `pid`, type by type.
pub open spec fn orphan_nodes_text(v: StoreView, pid: i64) -> Seq<char> {
    if orphan_total(v, pid) > 0 {
        "\n## Orphaned nodes: "@ + dec_nat(orphan_total(v, pid)) + "\n"@ + line_block(orphan_lines(v, pid))
    } else {
        Seq::empty()
    }
}

/// The branch-point line of the review.
pub open spec fn fan_line(v: StoreView) -> spec_fn(Experiment) -> Option<Seq<char>> {
    |e: Experiment| {
        let ds = downstream(v, e.id);
        if ds.len() > 1 {
            Some("  "@ + node_ref("E"@, e.id) + " \""@ + prefix(e.name@, 50) + "\" -> "@ + dec_nat(ds.len())
                + " downstream: "@ + exp_refs(ds))
        } else {
            None
        }
    }
}

/// The merge-point line of the review.
pub open spec fn converge_line(v: StoreView) -> spec_fn(Decision) -> Option<Seq<char>> {
    |d: Decision| {
        let m = merge_sources(v, d);
        if m.len() > 1 {
            Some("  "@ + node_ref("D"@, d.id) + " \""@ + prefix(d.what@, 50) + "\" <- converges: "@ + exp_refs(m))
        } else {
            None
        }
    }
}

/// The dangling-branch line of the review.
pub open spec fn pending_branch_line(v: StoreView) -> spec_fn(Experiment) -> Option<Seq<char>> {
    |e: Experiment| {
        let ds = downstream(v, e.id);
        let p = ds.filter(pending_exp(v)).len();
        if ds.len() > 1 && p > 0 {
            Some("  "@ + node_ref("E"@, e.id) + " \""@ + prefix(e.name@, 50) + "\": "@ + dec_nat(p) + "/"@
                + dec_nat(ds.len()) + " downstream experiments still pending"@)
        } else {
            None
        }
    }
}

/// A counted heading and its lines; nothing when there are none.
pub open spec fn counted_block(head: Seq<char>, tail: Seq<char>, ls: Seq<Seq<char>>) -> Seq<char> {
    if ls.len() > 0 { head + dec_nat(ls.len()) + tail + line_block(ls) } else { Seq::empty() }
}

/// The branch and merge analysis of the review.
pub open spec fn topology_review(v: StoreView, es: Seq<Experiment>, ds: Seq<Decision>) -> Seq<char> {
    counted_block("\n## Branch Points: "@, " experiments with fan-out\n"@, collect(es, fan_line(v)))
        + counted_block("\n## Merge Points: "@, " decisions converging multiple experiments\n"@, collect(ds, converge_line(v)))
        + counted_block("\n## Dangling Branches: "@, " branch points with pending experiments\n"@,
            collect(es, pending_branch_line(v)))
}

/// The line of a constraint whose expiry date is not after `today`.
pub open spec fn expired_line(today: Seq<char>) -> spec_fn(Constraint) -> Option<Seq<char>> {
    |c: Constraint| match c.expires_at {
        Some(x) => if x@.len() > 0 && seq_le(x@, today) {
            Some("  C#"@ + dec_int(c.id as int) + ": "@ + prefix(c.text@, 60) + " (expired "@ + x@ + ")"@)
        } else {
            None
        },
        None => None,
    }
}

/// The first part of the review: experiments, stagnation, top phases,
/// contradictions and literature.
pub open spec fn review_head(v: StoreView, p: Project, order: Seq<PhaseView>) -> Seq<char> {
    let es = phase_exps(v, v.phases.filter(phase_of_project(p.id)));
    "=== Research Review: "@ + p.name@ + " ===\n\n"@ + review_counts(es) + stagnation_text(v, p.id)
        + top_phases_text(order) + contradictions_text(contradictions_among(v, exp_findings(v, es)))
        + "\nLiterature: "@ + dec_nat(v.literature.filter(literature_of(p.id)).len()) + " entries. Check for new papers.\n"@
}

/// The second part of the review: untested and orphaned nodes, branch and
/// merge points, and expired constraints.
pub open spec fn review_tail(v: StoreView, p: Project, today: Seq<char>) -> Seq<char> {
    let ps = v.phases.filter(phase_of_project(p.id));
    let hs = phase_hyps(v, ps);
    untested_text(hs) + orphan_hyp_text(v, hs) + orphan_nodes_text(v, p.id)
        + topology_review(v, phase_exps(v, ps), v.decisions.filter(decision_of(p.id)))
        + counted_block("\n## Expired constraints: "@, "\n"@,
            collect(v.constraints.filter(constraint_of(p.id)), expired_line(today)))
}

/// The review of project `p`, with `order` its ranked next phases and
/// `today` the date that expiry dates are held against.
pub open spec fn review_text(v: StoreView, p: Project, order: Seq<PhaseView>, today: Seq<char>) -> Seq<char> {
    review_head(v, p, order) + review_tail(v, p, today)
}

/// `out` is the review of the project asked for as `name`.
pub open spec fn review_of(v: StoreView, name: Seq<char>, today: Seq<char>, out: Seq<char>) -> bool {
    match project_named(v, name) {
        None => out == "Project not found: "@ + name,
        Some(p) => exists|order: Seq<PhaseView>| #[trigger] next_phases_of(v.phases_of(p.id), order)
            && out == review_text(v, p, order, today),
    }
}

fn push_review_counts(out: &mut String, es: &Vec<Experiment>)
    ensures
        final(out)@ == old(out)@ + review_counts(es@),
{
    let ghost pp = with_status(ExperimentStatus::Pass);
    let ghost pf = with_status(ExperimentStatus::Fail);
    let ghost pn = with_status(ExperimentStatus::Pending);
    let mut pass: usize = 0;
    let mut fail: usize = 0;
    let mut pending: usize = 0;
    let mut i: usize = 0;
    while i < es.len()
        invariant
            pp == with_status(ExperimentStatus::Pass),
            pf == with_status(ExperimentStatus::Fail),
            pn == with_status(ExperimentStatus::Pending),
            i <= es@.len(),
            pass == es@.take(i as int).filter(pp).len(),
            fail == es@.take(i as int).filter(pf).len(),
            pending == es@.take(i as int).filter(pn).len(),
            pass <= i,
            fail <= i,
            pending <= i,
        decreases es@.len() - i,
    {
        proof {
            assert(es@.take(i + 1) =~= es@.take(i as int).push(es@[i as int]));
            es@.take(i as int).lemma_filter_push(es@[i as int], pp);
            es@.take(i as int).lemma_filter_push(es@[i as int], pf);
            es@.take(i as int).lemma_filter_push(es@[i as int], pn);
        }
        match es[i].status {
            ExperimentStatus::Pass => { pass = pass + 1; },
            ExperimentStatus::Fail => { fail = fail + 1; },
            ExperimentStatus::Pending => { pending = pending + 1; },
            _ => {},
        }
        i = i + 1;
    }
    proof { lemma_take_all(es@); }
    push_str(out, "## Experiments: ");
    push_usize(out, es.len());
    push_str(out, " total, ");
    push_usize(out, pass);
    push_str(out, " pass, ");
    push_usize(out, fail);
    push_str(out, " fail, ");
    push_usize(out, pending);
    push_str(out, " pending\n");
    proof { assert(final(out)@ =~= old(out)@ + review_counts(es@)); }
}

fn push_top_phases(out: &mut String, next: &Vec<Phase>)
    ensures
        final(out)@ == old(out)@ + top_phases_text(views(next@)),
{
    let ghost order = views(next@);
    let ghost top = first_n(order, 3);
    let ghost fmt = |p: PhaseView| top_phase_line(p);
    let n: usize = if next.len() <= 3 { next.len() } else { 3 };
    push_str(out, "\n## Top phases by impact:\n");
    let ghost head = out@;
    let mut i: usize = 0;
    while i < n
        invariant
            order == views(next@),
            top == first_n(order, 3),
            fmt == (|p: PhaseView| top_phase_line(p)),
            n == top.len(),
            n <= next@.len(),
            i <= n,
            out@ == head + line_block(top.take(i as int).map_values(fmt)),
        decreases n - i,
    {
        let p = &next[i];
        push_str(out, "  #");
        push_i64(out, p.id);
        push_str(out, " [impact:");
        push_i64(out, p.impact as i64);
        push_str(out, "] ");
        push_str(out, p.status.name());
        push_str(out, " ");
        push_str(out, p.name.as_str());
        push_str(out, "\n");
        proof {
            assert(top[i as int] == next@[i as int]@);
            let s = top.take(i + 1).map_values(fmt);
            assert(s.drop_last() =~= top.take(i as int).map_values(fmt));
            assert(out@ =~= head + line_block(s));
        }
        i = i + 1;
    }
    proof {
        lemma_take_all(top);
        assert(out@ =~= old(out)@ + top_phases_text(order));
    }
}

fn push_contradictions(out: &mut String, cs: &Vec<(Finding, Finding)>)
    ensures
        final(out)@ == old(out)@ + contradictions_text(cs@),
{
    if cs.len() == 0 {
        proof { assert(old(out)@ + contradictions_text(cs@) =~= old(out)@); }
        return;
    }
    let ghost top = first_n(cs@, 5);
    let ghost fmt = |q: (Finding, Finding)| pair_line(q);
    let n: usize = if cs.len() <= 5 { cs.len() } else { 5 };
    push_str(out, "\n## Contradictions: ");
    push_usize(out, cs.len());
    push_str(out, "\n");
    let ghost head = out@;
    let mut i: usize = 0;
    while i < n
        invariant
            top == first_n(cs@, 5),
            fmt == (|q: (Finding, Finding)| pair_line(q)),
            n == top.len(),
            n <= cs@.len(),
            i <= n,
            out@ == head + line_block(top.take(i as int).map_values(fmt)),
        decreases n - i,
    {
        let mut l = String::new();
        push_str(&mut l, "  F#");
        push_i64(&mut l, cs[i].0.id);
        push_str(&mut l, " vs F#");
        push_i64(&mut l, cs[i].1.id);
        push_str(&mut l, ": \"");
        let t1 = take_chars(cs[i].0.text.as_str(), 60);
        push_str(&mut l, t1.as_str());
        push_str(&mut l, "\" <-> \"");
        let t2 = take_chars(cs[i].1.text.as_str(), 60);
        push_str(&mut l, t2.as_str());
        push_str(&mut l, "\"");
        proof { assert(l@ =~= pair_line(cs@[i as int])); }
        push_str(out, l.as_str());
        push_str(out, "\n");
        proof {
            assert(top[i as int] == cs@[i as int]);
            let s = top.take(i + 1).map_values(fmt);
            assert(s.drop_last() =~= top.take(i as int).map_values(fmt));
            assert(out@ =~= head + line_block(s));
        }
        i = i + 1;
    }
    proof { lemma_take_all(top); }
    if cs.len() > 5 {
        push_str(out, "  ... and ");
        push_usize(out, cs.len() - 5);
        push_str(out, " more\n");
    }
    proof { assert(final(out)@ =~= old(out)@ + contradictions_text(cs@)); }
}

fn push_untested(out: &mut String, hs: &Vec<Hypothesis>)
    ensures
        final(out)@ == old(out)@ + untested_text(hs@),
{
    let ghost pred = proposed();
    let mut ps: Vec<Hypothesis> = Vec::new();
    let mut i: usize = 0;
    while i < hs.len()
        invariant
            pred == proposed(),
            i <= hs@.len(),
            ps@ == hs@.take(i as int).filter(pred),
        decreases hs@.len() - i,
    {
        proof {
            assert(hs@.take(i + 1) =~= hs@.take(i as int).push(hs@[i as int]));
            hs@.take(i as int).lemma_filter_push(hs@[i as int], pred);
        }
        if hs[i].status == HypothesisStatus::Proposed {
            ps.push(hs[i].dup());
        }
        i = i + 1;
    }
    proof { lemma_take_all(hs@); }
    if ps.len() == 0 {
        proof { assert(old(out)@ + untested_text(hs@) =~= old(out)@); }
        return;
    }
    let ghost top = first_n(ps@, 3);
    let ghost fmt = |h: Hypothesis| proposed_line(h);
    let n: usize = if ps.len() <= 3 { ps.len() } else { 3 };
    push_str(out, "\nHypotheses: ");
    push_usize(out, ps.len());
    push_str(out, " untested\n");
    let ghost head = out@;
    let mut j: usize = 0;
    while j < n
        invariant
            top == first_n(ps@, 3),
            fmt == (|h: Hypothesis| proposed_line(h)),
            n == top.len(),
            n <= ps@.len(),
            j <= n,
            out@ == head + line_block(top.take(j as int).map_values(fmt)),
        decreases n - j,
    {
        let mut l = String::new();
        push_str(&mut l, "  H#");
        push_i64(&mut l, ps[j].id);
        push_str(&mut l, ": ");
        let t = take_chars(ps[j].text.as_str(), 60);
        push_str(&mut l, t.as_str());
        proof { assert(l@ =~= proposed_line(ps@[j as int])); }
        push_str(out, l.as_str());
        push_str(out, "\n");
        proof {
            assert(top[j as int] == ps@[j as int]);
            let s = top.take(j + 1).map_values(fmt);
            assert(s.drop_last() =~= top.take(j as int).map_values(fmt));
            assert(out@ =~= head + line_block(s));
        }
        j = j + 1;
    }
    proof {
        lemma_take_all(top);
        assert(final(out)@ =~= old(out)@ + untested_text(hs@));
    }
}

fn push_orphan_hyp(out: &mut String, store: &Store, hs: &Vec<Hypothesis>)
    ensures
        final(out)@ == old(out)@ + orphan_hyp_text(store@, hs@),
{
    let ghost pred = |h: Hypothesis| untouched(store@, NodeType::Hypothesis, h.id);
    let mut n: usize = 0;
    let mut i: usize = 0;
    while i < hs.len()
        invariant
            pred == (|h: Hypothesis| untouched(store@, NodeType::Hypothesis, h.id)),
            i <= hs@.len(),
            n == hs@.take(i as int).filter(pred).len(),
            n <= i,
        decreases hs@.len() - i,
    {
        proof {
            assert(hs@.take(i + 1) =~= hs@.take(i as int).push(hs@[i as int]));
            hs@.take(i as int).lemma_filter_push(hs@[i as int], pred);
        }
        if untouched_exec(store, NodeType::Hypothesis, hs[i].id) {
            n = n + 1;
        }
        i = i + 1;
    }
    proof { lemma_take_all(hs@); }
    if n > 0 {
        push_str(out, "\n## WARNING: ");
        push_usize(out, n);
        push_str(out, " orphaned hypothesis/hypotheses (no edges). Link them with pm_add_edge.\n");
    }
    proof { assert(final(out)@ =~= old(out)@ + orphan_hyp_text(store@, hs@)); }
}

fn push_tag_refs(out: &mut String, tag: &str, ids: &Vec<i64>)
    ensures
        final(out)@ == old(out)@ + tag_refs(tag@, ids@),
{
    let mut i: usize = 0;
    while i < ids.len()
        invariant
            i <= ids@.len(),
            out@ == old(out)@ + tag_refs(tag@, ids@.take(i as int)),
        decreases ids@.len() - i,
    {
        if i > 0 {
            push_str(out, ", ");
        }
        push_str(out, tag);
        push_str(out, "#");
        push_i64(out, ids[i]);
        proof {
            let t = ids@.take(i + 1);
            if i == 0 {
                assert(t.len() == 1);
                assert(tag_refs(tag@, ids@.take(0)) =~= Seq::<char>::empty());
            } else {
                assert(t.drop_last() =~= ids@.take(i as int));
            }
            assert(out@ =~= old(out)@ + tag_refs(tag@, t));
        }
        i = i + 1;
    }
    proof { lemma_take_all(ids@); }
}

fn orphan_line_exec(store: &Store, pid: i64, kind: &str, title: &str, tag: &str, nt: NodeType, lines: &mut Vec<String>) -> (n: usize)
    requires
        store.wf(),
        orphan_kind(kind@) == Some(nt),
    ensures
        n == orphans_of(store@, pid, nt).len(),
        text_views(final(lines)@) == text_views(old(lines)@) + orphan_line(title@, tag@, orphans_of(store@, pid, nt)),
{
    let ids = match store.get_orphaned_nodes(kind, pid) { Ok(x) => x, Err(_) => Vec::new() };
    if ids.len() > 0 {
        let mut l = String::new();
        push_str(&mut l, "  ");
        push_str(&mut l, title);
        push_str(&mut l, ": ");
        push_usize(&mut l, ids.len());
        push_str(&mut l, " orphaned (");
        push_tag_refs(&mut l, tag, &ids);
        push_str(&mut l, ")");
        proof { assert(seq![l@] =~= orphan_line(title@, tag@, ids@)); }
        push_line(lines, l);
    } else {
        proof { assert(text_views(lines@) =~= text_views(lines@) + orphan_line(title@, tag@, ids@)); }
    }
    ids.len()
}

/// The orphan lines of project `pid`, type by type.
pub open spec fn orphan_lines(v: StoreView, pid: i64) -> Seq<Seq<char>> {
    orphan_line("Finding"@, "F"@, orphans_of(v, pid, NodeType::Finding))
        + orphan_line("Decision"@, "D"@, orphans_of(v, pid, NodeType::Decision))
        + orphan_line("Hypothesis"@, "H"@, orphans_of(v, pid, NodeType::Hypothesis))
        + orphan_line("Literature"@, "L"@, orphans_of(v, pid, NodeType::Literature))
        + orphan_line("Principle"@, "P"@, orphans_of(v, pid, NodeType::Principle))
        + orphan_line("Constraint"@, "C"@, orphans_of(v, pid, NodeType::Constraint))
}

/// The number of orphans of project `pid`.
pub open spec fn orphan_total(v: StoreView, pid: i64) -> nat {
    orphans_of(v, pid, NodeType::Finding).len() + orphans_of(v, pid, NodeType::Decision).len()
        + orphans_of(v, pid, NodeType::Hypothesis).len() + orphans_of(v, pid, NodeType::Literature).len()
        + orphans_of(v, pid, NodeType::Principle).len() + orphans_of(v, pid, NodeType::Constraint).len()
}

#[verifier::rlimit(40)]
fn gather_orphan_lines(store: &Store, pid: i64) -> (r: (Vec<String>, u128))
    requires
        store.wf(),
    ensures
        text_views(r.0@) == orphan_lines(store@, pid),
        r.1 == orphan_total(store@, pid),
{
    let mut lines: Vec<String> = Vec::new();
    proof {
        assert(text_views(lines@) =~= Seq::<Seq<char>>::empty());
        lemma_orphan_kinds();
    }
    let f = orphan_line_exec(store, pid, "finding", "Finding", "F", NodeType::Finding, &mut lines);
    let d = orphan_line_exec(store, pid, "decision", "Decision", "D", NodeType::Decision, &mut lines);
    let h = orphan_line_exec(store, pid, "hypothesis", "Hypothesis", "H", NodeType::Hypothesis, &mut lines);
    let l = orphan_line_exec(store, pid, "literature", "Literature", "L", NodeType::Literature, &mut lines);
    let p = orphan_line_exec(store, pid, "principle", "Principle", "P", NodeType::Principle, &mut lines);
    let c = orphan_line_exec(store, pid, "constraint", "Constraint", "C", NodeType::Constraint, &mut lines);
    let total: u128 = f as u128 + d as u128 + h as u128 + l as u128 + p as u128 + c as u128;
    proof { assert(text_views(lines@) =~= orphan_lines(store@, pid)); }
    (lines, total)
}

fn push_orphan_nodes(out: &mut String, store: &Store, pid: i64)
    requires
        store.wf(),
    ensures
        final(out)@ == old(out)@ + orphan_nodes_text(store@, pid),
{
    let (lines, total) = gather_orphan_lines(store, pid);
    if total > 0 {
        push_str(out, "\n## Orphaned nodes: ");
        push_u128(out, total);
        push_str(out, "\n");
        let ghost head = out@;
        let ghost ls = text_views(lines@);
        let mut i: usize = 0;
        while i < lines.len()
            invariant
                ls == text_views(lines@),
                i <= lines@.len(),
                out@ == head + line_block(ls.take(i as int)),
            decreases lines@.len() - i,
        {
            proof { assert(ls.take(i + 1).drop_last() =~= ls.take(i as int)); }
            push_str(out, lines[i].as_str());
            push_str(out, "\n");
            proof { assert(out@ =~= head + line_block(ls.take(i + 1))); }
            i = i + 1;
        }
        proof { lemma_take_all(ls); }
    }
    proof { assert(final(out)@ =~= old(out)@ + orphan_nodes_text(store@, pid)); }
}

proof fn lemma_fail_streak_bound(es: Seq<Experiment>)
    ensures
        fail_streak(es) <= es.len(),
    decreases es.len(),
{
    if es.len() > 0 {
        lemma_fail_streak_bound(es.drop_last());
    }
}

pub(crate) proof fn lemma_orphan_kinds()
    ensures
        orphan_kind("finding"@) == Some(NodeType::Finding),
        orphan_kind("decision"@) == Some(NodeType::Decision),
        orphan_kind("hypothesis"@) == Some(NodeType::Hypothesis),
        orphan_kind("literature"@) == Some(NodeType::Literature),
        orphan_kind("principle"@) == Some(NodeType::Principle),
        orphan_kind("constraint"@) == Some(NodeType::Constraint),
{
    reveal_strlit("finding");
    reveal_strlit("decision");
    reveal_strlit("hypothesis");
    reveal_strlit("literature");
    reveal_strlit("principle");
    reveal_strlit("constraint");
    assert("finding"@.len() == 7);
    assert("decision"@.len() == 8);
    assert("hypothesis"@.len() == 10);
    assert("literature"@.len() == 10);
    assert("principle"@.len() == 9);
    assert("constraint"@.len() == 10);
    assert("hypothesis"@[0] != "literature"@[0]);
    assert("hypothesis"@[0] != "constraint"@[0]);
    assert("literature"@[0] != "constraint"@[0]);
}

fn push_counted_block(out: &mut String, head: &str, tail: &str, lines: &Vec<String>)
    ensures
        final(out)@ == old(out)@ + counted_block(head@, tail@, text_views(lines@)),
{
    let ghost ls = text_views(lines@);
    if lines.len() == 0 {
        proof { assert(old(out)@ + counted_block(head@, tail@, ls) =~= old(out)@); }
        return;
    }
    push_str(out, head);
    push_usize(out, lines.len());
    push_str(out, tail);
    let ghost start = out@;
    let mut i: usize = 0;
    while i < lines.len()
        invariant
            ls == text_views(lines@),
            i <= lines@.len(),
            out@ == start + line_block(ls.take(i as int)),
        decreases lines@.len() - i,
    {
        proof { assert(ls.take(i + 1).drop_last() =~= ls.take(i as int)); }
        push_str(out, lines[i].as_str());
        push_str(out, "\n");
        proof { assert(out@ =~= start + line_block(ls.take(i + 1))); }
        i = i + 1;
    }
    proof {
        lemma_take_all(ls);
        assert(out@ =~= old(out)@ + counted_block(head@, tail@, ls));
    }
}

fn fan_lines(store: &Store, es: &Vec<Experiment>) -> (r: (Vec<String>, Vec<String>))
    requires
        store.wf(),
    ensures
        text_views(r.0@) == collect(es@, fan_line(store@)),
        text_views(r.1@) == collect(es@, pending_branch_line(store@)),
{
    let ghost fb = fan_line(store@);
    let ghost fd = pending_branch_line(store@);
    let mut branch: Vec<String> = Vec::new();
    let mut dangling: Vec<String> = Vec::new();
    proof {
        assert(text_views(branch@) =~= Seq::<Seq<char>>::empty());
        assert(text_views(dangling@) =~= Seq::<Seq<char>>::empty());
    }
    let mut i: usize = 0;
    while i < es.len()
        invariant
            store.wf(),
            fb == fan_line(store@),
            fd == pending_branch_line(store@),
            i <= es@.len(),
            text_views(branch@) == collect(es@.take(i as int), fb),
            text_views(dangling@) == collect(es@.take(i as int), fd),
        decreases es@.len() - i,
    {
        proof {
            crate::mcp::repair::lemma_collect_step(es@, fb, i as int);
            crate::mcp::repair::lemma_collect_step(es@, fd, i as int);
        }
        let e = &es[i];
        let ds = downstream_exec(store, e.id);
        if ds.len() > 1 {
            let r = make_ref("E", e.id);
            let name = take_chars(e.name.as_str(), 50);
            let mut line = String::new();
            push_str(&mut line, "  ");
            push_str(&mut line, r.as_str());
            push_str(&mut line, " \"");
            push_str(&mut line, name.as_str());
            push_str(&mut line, "\" -> ");
            push_usize(&mut line, ds.len());
            push_str(&mut line, " downstream: ");
            push_exp_refs(&mut line, &ds);
            proof { assert(line@ =~= fb(*e).unwrap()); }
            push_line(&mut branch, line);
            let p = count_pending(store, &ds);
            if p > 0 {
                let mut dl = String::new();
                push_str(&mut dl, "  ");
                push_str(&mut dl, r.as_str());
                push_str(&mut dl, " \"");
                push_str(&mut dl, name.as_str());
                push_str(&mut dl, "\": ");
                push_usize(&mut dl, p);
                push_str(&mut dl, "/");
                push_usize(&mut dl, ds.len());
                push_str(&mut dl, " downstream experiments still pending");
                proof { assert(dl@ =~= fd(*e).unwrap()); }
                push_line(&mut dangling, dl);
            }
        }
        proof {
            assert(text_views(branch@) =~= collect(es@.take(i + 1), fb));
            assert(text_views(dangling@) =~= collect(es@.take(i + 1), fd));
        }
        i = i + 1;
    }
    proof { lemma_take_all(es@); }
    (branch, dangling)
}

fn converge_lines(store: &Store, ds: &Vec<Decision>) -> (r: Vec<String>)
    requires
        store.wf(),
    ensures
        text_views(r@) == collect(ds@, converge_line(store@)),
{
    let ghost f = converge_line(store@);
    let mut lines: Vec<String> = Vec::new();
    proof { assert(text_views(lines@) =~= Seq::<Seq<char>>::empty()); }
    let mut i: usize = 0;
    while i < ds.len()
        invariant
            store.wf(),
            f == converge_line(store@),
            i <= ds@.len(),
            text_views(lines@) == collect(ds@.take(i as int), f),
        decreases ds@.len() - i,
    {
        proof { crate::mcp::repair::lemma_collect_step(ds@, f, i as int); }
        let d = &ds[i];
        let m = merge_sources_exec(store, d);
        if m.len() > 1 {
            let mut line = String::new();
            push_str(&mut line, "  ");
            let r = make_ref("D", d.id);
            push_str(&mut line, r.as_str());
            push_str(&mut line, " \"");
            let w = take_chars(d.what.as_str(), 50);
            push_str(&mut line, w.as_str());
            push_str(&mut line, "\" <- converges: ");
            push_exp_refs(&mut line, &m);
            proof { assert(line@ =~= f(*d).unwrap()); }
            push_line(&mut lines, line);
        }
        proof { assert(text_views(lines@) =~= collect(ds@.take(i + 1), f)); }
        i = i + 1;
    }
    proof { lemma_take_all(ds@); }
    lines
}

fn expired_lines(cs: &Vec<Constraint>, today: &str) -> (r: Vec<String>)
    ensures
        text_views(r@) == collect(cs@, expired_line(today@)),
{
    let ghost f = expired_line(today@);
    let mut lines: Vec<String> = Vec::new();
    proof { assert(text_views(lines@) =~= Seq::<Seq<char>>::empty()); }
    let mut i: usize = 0;
    while i < cs.len()
        invariant
            f == expired_line(today@),
            i <= cs@.len(),
            text_views(lines@) == collect(cs@.take(i as int), f),
        decreases cs@.len() - i,
    {
        proof { crate::mcp::repair::lemma_collect_step(cs@, f, i as int); }
        let c = &cs[i];
        match &c.expires_at {
            Some(x) => {
                if x.unicode_len() > 0 && str_le(x.as_str(), today) {
                    let mut line = String::new();
                    push_str(&mut line, "  C#");
                    push_i64(&mut line, c.id);
                    push_str(&mut line, ": ");
                    let t = take_chars(c.text.as_str(), 60);
                    push_str(&mut line, t.as_str());
                    push_str(&mut line, " (expired ");
                    push_str(&mut line, x.as_str());
                    push_str(&mut line, ")");
                    proof { assert(line@ =~= f(*c).unwrap()); }
                    push_line(&mut lines, line);
                }
            },
            None => {},
        }
        proof { assert(text_views(lines@) =~= collect(cs@.take(i + 1), f)); }
        i = i + 1;
    }
    proof { lemma_take_all(cs@); }
    lines
}

fn push_stagnation(out: &mut String, store: &Store, pid: i64)
    ensures
        final(out)@ == old(out)@ + stagnation_text(store@, pid),
{
    push_streak_note(out, store, pid, "\n## STAGNATION: ", " consecutive fails\n");
}

pub(crate) fn push_streak_note(out: &mut String, store: &Store, pid: i64, head: &str, tail: &str)
    ensures
        final(out)@ == old(out)@ + streak_note(store@, pid, head@, tail@),
{
    let ghost v = store@;
    let dag = DagEngine::new(store, pid);
    let stag = match dag.stagnation_check(3) { Ok(x) => x, Err(_) => None };
    let ghost pes = v.experiments.filter(experiment_of_project(v, pid));
    let all = match store.list_project_experiments(pid) { Ok(x) => x, Err(_) => Vec::new() };
    let _n = all.len();
    proof {
        assert(dag.experiments() == pes);
        lemma_fail_streak_bound(pes);
        assert(all@ == pes);
    }
    match stag {
        Some(n) => {
            push_str(out, head);
            push_usize(out, n);
            push_str(out, tail);
        },
        None => {},
    }
    proof { assert(final(out)@ =~= old(out)@ + streak_note(v, pid, head@, tail@)); }
}

#[verifier::rlimit(40)]
fn push_review_head(out: &mut String, store: &Store, p: &Project, next: &Vec<Phase>)
    requires
        store.wf(),
    ensures
        final(out)@ == old(out)@ + review_head(store@, *p, views(next@)),
{
    let ghost v = store@;
    let pid = p.id;
    let phases = match store.list_phases(pid) { Ok(x) => x, Err(_) => Vec::new() };
    proof { assert(views(phases@) == v.phases.filter(phase_of_project(pid))); }
    let exps = collect_experiments(store, &phases);
    let finds = collect_findings(store, &exps);
    let lit = match store.list_literature(pid) { Ok(x) => x.len(), Err(_) => 0 };
    let kg = KgEngine::new(store);
    let pairs = match kg.find_contradictions(finds.as_slice()) { Ok(x) => x, Err(_) => Vec::new() };
    push_str(out, "=== Research Review: ");
    push_str(out, p.name.as_str());
    push_str(out, " ===\n\n");
    push_review_counts(out, &exps);
    push_stagnation(out, store, pid);
    push_top_phases(out, next);
    push_contradictions(out, &pairs);
    push_str(out, "\nLiterature: ");
    push_usize(out, lit);
    push_str(out, " entries. Check for new papers.\n");
    proof {
        assert(out@ =~= old(out)@ + review_head(v, *p, views(next@)));
    }
}

#[verifier::rlimit(40)]
fn push_review_tail(out: &mut String, store: &Store, p: &Project, today: &str)
    requires
        store.wf(),
    ensures
        final(out)@ == old(out)@ + review_tail(store@, *p, today@),
{
    let ghost v = store@;
    let pid = p.id;
    let phases = match store.list_phases(pid) { Ok(x) => x, Err(_) => Vec::new() };
    proof { assert(views(phases@) == v.phases.filter(phase_of_project(pid))); }
    let exps = collect_experiments(store, &phases);
    let hyps = collect_hypotheses(store, &phases);
    let decisions = match store.list_decisions(pid) { Ok(x) => x, Err(_) => Vec::new() };
    let constraints = match store.list_constraints(pid) { Ok(x) => x, Err(_) => Vec::new() };
    push_untested(out, &hyps);
    push_orphan_hyp(out, store, &hyps);
    push_orphan_nodes(out, store, pid);
    let ghost s3 = out@;
    let (branch, dangling) = fan_lines(store, &exps);
    let merge = converge_lines(store, &decisions);
    push_counted_block(out, "\n## Branch Points: ", " experiments with fan-out\n", &branch);
    push_counted_block(out, "\n## Merge Points: ", " decisions converging multiple experiments\n", &merge);
    push_counted_block(out, "\n## Dangling Branches: ", " branch points with pending experiments\n", &dangling);
    proof { assert(out@ =~= s3 + topology_review(v, exps@, decisions@)); }
    let expired = expired_lines(&constraints, today);
    push_counted_block(out, "\n## Expired constraints: ", "\n", &expired);
    proof {
        assert(out@ =~= old(out)@ + review_tail(v, *p, today@));
    }
}

/// The review of a project (named by name or alias), holding expiry dates
/// against `today` (a `%Y-%m-%d` date that the caller reads from its clock);
/// see `review_of`.  The store is not changed.
pub fn tool_review(store: &Store, project: &str, today: &str) -> (out: String)
    requires
        store.wf(),
    ensures
        review_of(store@, project@, today@, out@),
{
    let ghost v = store@;
    let mut out = String::new();
    let proj = match find_project(store, project) {
        Some(p) => p,
        None => {
            push_str(&mut out, "Project not found: ");
            push_str(&mut out, project);
            return out;
        },
    };
    let dag = DagEngine::new(store, proj.id);
    let next = match dag.next_phases() { Ok(n) => n, Err(_) => Vec::new() };
    proof { assert(next_phases_of(v.phases_of(proj.id), views(next@))); }
    push_review_head(&mut out, store, &proj, &next);
    push_review_tail(&mut out, store, &proj, today);
    proof {
        assert(out@ =~= review_text(v, proj, views(next@), today@));
    }
    out
}

proof fn lemma_orphans_are_orphans(v: StoreView, pid: i64, nt: NodeType, n: nat, x: i64)
    requires
        orphans_upto(v, pid, nt, n).contains(x),
    ensures
        is_orphan(v, pid, nt, x),
    decreases n,
{
    if n > 0 {
        let r = orphans_upto(v, pid, nt, (n - 1) as nat);
        if is_orphan(v, pid, nt, n as i64) && x == n as i64 {
        } else if is_orphan(v, pid, nt, n as i64) {
            let rp = r.push(n as i64);
            assert(rp.contains(x));
            let k = choose|k: int| 0 <= k < rp.len() && #[trigger] rp[k] == x;
            assert(k < r.len());
            assert(r[k] == x);
            assert(r.contains(x));
            lemma_orphans_are_orphans(v, pid, nt, (n - 1) as nat, x);
        } else {
            lemma_orphans_are_orphans(v, pid, nt, (n - 1) as nat, x);
        }
    }
}

/// A node that an edge touches is no orphan: once an edge is added, the
/// orphan list of its source's type leaves out its source, and that of its
/// target's type leaves out its target.
pub proof fn law_linked_nodes_are_not_orphans(v: StoreView, e: Edge, pid: i64)
    ensures
        !orphans_of(v.with_edges(v.edges.push(e)), pid, e.source_type).contains(e.source_id),
        !orphans_of(v.with_edges(v.edges.push(e)), pid, e.target_type).contains(e.target_id),
{
    let w = v.with_edges(v.edges.push(e));
    let k = (w.edges.len() - 1) as int;
    assert(w.edges[k] == e);
    if orphans_of(w, pid, e.source_type).contains(e.source_id) {
        lemma_orphans_are_orphans(w, pid, e.source_type, table_len(w, e.source_type), e.source_id);
        w.edges.lemma_filter_contains(edge_from(e.source_type, e.source_id), k);
        assert(w.edges_from(e.source_type, e.source_id).len() > 0);
    }
    if orphans_of(w, pid, e.target_type).contains(e.target_id) {
        lemma_orphans_are_orphans(w, pid, e.target_type, table_len(w, e.target_type), e.target_id);
        w.edges.lemma_filter_contains(edge_to(e.target_type, e.target_id), k);
        assert(w.edges_to(e.target_type, e.target_id).len() > 0);
    }
}

proof fn lemma_orphans_in_range(v: StoreView, pid: i64, nt: NodeType, n: nat, x: i64)
    requires
        n <= 0x7fff_ffff_ffff_ffff,
        orphans_upto(v, pid, nt, n).contains(x),
    ensures
        1 <= x <= n,
    decreases n,
{
    if n > 0 {
        let r = orphans_upto(v, pid, nt, (n - 1) as nat);
        if x != n as i64 {
            if is_orphan(v, pid, nt, n as i64) {
                let rp = r.push(n as i64);
                let k = choose|k: int| 0 <= k < rp.len() && #[trigger] rp[k] == x;
                assert(r[k] == x);
            }
            assert(r.contains(x));
            lemma_orphans_in_range(v, pid, nt, (n - 1) as nat, x);
        }
    }
}

proof fn lemma_orphans_complete(v: StoreView, pid: i64, nt: NodeType, n: nat, x: i64)
    requires
        n <= 0x7fff_ffff_ffff_ffff,
        1 <= x <= n,
        is_orphan(v, pid, nt, x),
    ensures
        orphans_upto(v, pid, nt, n).contains(x),
    decreases n,
{
    let r = orphans_upto(v, pid, nt, (n - 1) as nat);
    if x == n as i64 {
        assert(orphans_upto(v, pid, nt, n) == r.push(x));
        assert(r.push(x)[r.len() as int] == x);
    } else {
        lemma_orphans_complete(v, pid, nt, (n - 1) as nat, x);
        let k = choose|k: int| 0 <= k < r.len() && #[trigger] r[k] == x;
        if is_orphan(v, pid, nt, n as i64) {
            assert(r.push(n as i64)[k] == x);
        }
    }
}

/// The orphans listed for a project are exactly the nodes of that kind
/// that belong to the project and that no edge touches: a node of another
/// project is never listed, however unlinked it is.
pub proof fn law_orphans_are_the_projects_own(v: StoreView, pid: i64, nt: NodeType, id: i64)
    requires
        v.wf(),
    ensures
        orphans_of(v, pid, nt).contains(id) <==> (1 <= id <= table_len(v, nt) && node_in_project(v, pid, nt, id)
            && v.edges_from(nt, id).len() == 0 && v.edges_to(nt, id).len() == 0),
{
    lemma_table_bound(v, nt);
    if orphans_of(v, pid, nt).contains(id) {
        lemma_orphans_in_range(v, pid, nt, table_len(v, nt), id);
        lemma_orphans_are_orphans(v, pid, nt, table_len(v, nt), id);
    }
    if 1 <= id <= table_len(v, nt) && node_in_project(v, pid, nt, id) && v.edges_from(nt, id).len() == 0
        && v.edges_to(nt, id).len() == 0 {
        lemma_orphans_complete(v, pid, nt, table_len(v, nt), id);
    }
}

} // verus!
