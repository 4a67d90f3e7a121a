//! The context of a work session: the active phase of a project, what
//! lies within three hops of it in the knowledge graph, what to do next,
//! and a briefing on the phase's findings, the project's constraints and
//! untested hypotheses, and contradictions among the phase's findings.
//!
//! Findings are ranked by recency through their ids: the store hands out
//! ids in creation order, so a larger id is a later finding.
use vstd::prelude::*;
use crate::text::{push_str, push_i64, push_usize, take_chars, dec_int, dec_nat, prefix};
use crate::store::{Store, StoreView, Phase, PhaseView, Experiment, Finding, Decision, Hypothesis, Literature,
    Constraint, NodeType, ExperimentStatus, HypothesisStatus, PhaseStatus, Project, phase_of, experiment_in,
    constraint_of};
use crate::mcp::finding::first_n;
use crate::mcp::repair::{collect, lemma_collect_step, lemma_take_all, line_block, push_line, phase_exps, exp_findings,
    phase_hyps, collect_findings, collect_hypotheses, first_in_progress};
use crate::kg::traversal::{ProximityNode, Subgraph, TraversalConfig, bfs_result, phase_config, phase_subgraph};
use crate::kg::{KgEngine, contradictions_among};
use crate::dag::{DagEngine, next_phases_of, views};
use crate::mcp::common::{project_named, find_project};
use vstd::string::StrSliceExecFns;

verus! {

broadcast use vstd::seq_lib::group_seq_properties;

// ---------------------------------------------------------------- recency

/// The index of the latest finding of `s` (the first of equal ids).
pub open spec fn latest_index(s: Seq<Finding>) -> int
    decreases s.len(),
{
    if s.len() <= 1 {
        0
    } else {
        let k = latest_index(s.drop_last());
        if s.last().id > s[k].id { s.len() - 1 } else { k }
    }
}

pub(crate) proof fn lemma_latest_index(s: Seq<Finding>)
    requires
        s.len() > 0,
    ensures
        0 <= latest_index(s) < s.len(),
        forall|j: int| 0 <= j < s.len() ==> #[trigger] s[j].id <= s[latest_index(s)].id,
    decreases s.len(),
{
    if s.len() > 1 {
        let t = s.drop_last();
        lemma_latest_index(t);
        let k = latest_index(t);
        assert forall|j: int| 0 <= j < s.len() implies #[trigger] s[j].id <= s[latest_index(s)].id by {
            if j < s.len() - 1 {
                assert(t[j] == s[j]);
            }
            assert(t[k] == s[k]);
        }
    }
}

/// `s` from the latest finding to the earliest.
pub open spec fn by_recency(s: Seq<Finding>) -> Seq<Finding>
    decreases s.len(),
{
    let k = latest_index(s);
    if 0 <= k < s.len() {
        seq![s[k]] + by_recency(s.remove(k))
    } else {
        Seq::empty()
    }
}

pub(crate) fn latest_index_exec(s: &Vec<Finding>) -> (k: usize)
    requires
        s@.len() > 0,
    ensures
        k == latest_index(s@),
{
    let mut k: usize = 0;
    let mut i: usize = 1;
    while i < s.len()
        invariant
            1 <= i <= s@.len(),
            k == latest_index(s@.take(i as int)),
            k < i,
        decreases s@.len() - i,
    {
        proof {
            assert(s@.take(i + 1).drop_last() =~= s@.take(i as int));
            lemma_latest_index(s@.take(i as int));
            assert(s@.take(i as int)[k as int] == s@[k as int]);
        }
        if s[i].id > s[k].id {
            k = i;
        }
        i = i + 1;
    }
    proof { lemma_take_all(s@); }
    k
}

/// The findings `fs`, latest first.
fn sort_by_recency(fs: Vec<Finding>) -> (r: Vec<Finding>)
    ensures
        r@ == by_recency(fs@),
{
    let ghost all = fs@;
    let mut rem = fs;
    let mut out: Vec<Finding> = Vec::new();
    while rem.len() > 0
        invariant
            out@ + by_recency(rem@) == by_recency(all),
        decreases rem@.len(),
    {
        let k = latest_index_exec(&rem);
        proof { lemma_latest_index(rem@); }
        let ghost before = rem@;
        let f = rem.remove(k);
        out.push(f);
        proof {
            assert(by_recency(before) == seq![before[k as int]] + by_recency(before.remove(k as int)));
            assert(out@ + by_recency(rem@) =~= (out@.drop_last() + by_recency(before)));
        }
    }
    proof { assert(by_recency(rem@) =~= Seq::<Finding>::empty()); assert(out@ + Seq::<Finding>::empty() =~= out@); }
    out
}

// ---------------------------------------------------------------- subgraph

/// The ids of the nodes of type `nt` among `ns`, in order.
pub open spec fn typed_ids(ns: Seq<ProximityNode>, nt: NodeType) -> Seq<i64> {
    ns.filter(|n: ProximityNode| n.node_type == nt).map_values(|n: ProximityNode| n.node_id)
}

fn typed_ids_exec(ns: &Vec<ProximityNode>, nt: NodeType) -> (r: Vec<i64>)
    ensures
        r@ == typed_ids(ns@, nt),
{
    let ghost pred = |n: ProximityNode| n.node_type == nt;
    let mut r: Vec<i64> = Vec::new();
    let mut i: usize = 0;
    while i < ns.len()
        invariant
            pred == (|n: ProximityNode| n.node_type == nt),
            i <= ns@.len(),
            r@ == ns@.take(i as int).filter(pred).map_values(|n: ProximityNode| n.node_id),
        decreases ns@.len() - i,
    {
        proof {
            assert(ns@.take(i + 1) =~= ns@.take(i as int).push(ns@[i as int]));
            ns@.take(i as int).lemma_filter_push(ns@[i as int], pred);
        }
        if ns[i].node_type == nt {
            let ghost before = r@;
            r.push(ns[i].node_id);
            proof {
                assert(ns@.take(i as int).filter(pred).push(ns@[i as int]).map_values(|n: ProximityNode| n.node_id)
                    =~= before.push(ns@[i as int].node_id));
            }
        }
        i = i + 1;
    }
    proof { lemma_take_all(ns@); }
    r
}

/// The findings that the ids `ids` name, in order, skipping missing ones.
pub open spec fn findings_at(v: StoreView, ids: Seq<i64>) -> Seq<Finding> {
    collect(ids, |id: i64| v.finding(id))
}

/// The hypotheses that the ids `ids` name, in order, skipping missing ones.
pub open spec fn hypotheses_at(v: StoreView, ids: Seq<i64>) -> Seq<Hypothesis> {
    collect(ids, |id: i64| v.hypothesis(id))
}

/// The decisions that the ids `ids` name, in order, skipping missing ones.
pub open spec fn decisions_at(v: StoreView, ids: Seq<i64>) -> Seq<Decision> {
    collect(ids, |id: i64| v.decision(id))
}

/// The literature entries that the ids `ids` name, in order, skipping
/// missing ones.
pub open spec fn literature_at(v: StoreView, ids: Seq<i64>) -> Seq<Literature> {
    collect(ids, |id: i64| v.literature_entry(id))
}

fn findings_at_exec(store: &Store, ids: &Vec<i64>) -> (r: Vec<Finding>)
    requires
        store.wf(),
    ensures
        r@ == findings_at(store@, ids@),
{
    let ghost f = |id: i64| store@.finding(id);
    let mut r: Vec<Finding> = Vec::new();
    let mut i: usize = 0;
    while i < ids.len()
        invariant
            store.wf(),
            f == (|id: i64| store@.finding(id)),
            i <= ids@.len(),
            r@ == collect(ids@.take(i as int), f),
        decreases ids@.len() - i,
    {
        proof { lemma_collect_step(ids@, f, i as int); }
        match store.get_finding(ids[i]) {
            Ok(x) => r.push(x),
            Err(_) => {},
        }
        proof { assert(r@ =~= collect(ids@.take(i + 1), f)); }
        i = i + 1;
    }
    proof { lemma_take_all(ids@); }
    r
}

fn hypotheses_at_exec(store: &Store, ids: &Vec<i64>) -> (r: Vec<Hypothesis>)
    requires
        store.wf(),
    ensures
        r@ == hypotheses_at(store@, ids@),
{
    let ghost f = |id: i64| store@.hypothesis(id);
    let mut r: Vec<Hypothesis> = Vec::new();
    let mut i: usize = 0;
    while i < ids.len()
        invariant
            store.wf(),
            f == (|id: i64| store@.hypothesis(id)),
            i <= ids@.len(),
            r@ == collect(ids@.take(i as int), f),
        decreases ids@.len() - i,
    {
        proof { lemma_collect_step(ids@, f, i as int); }
        match store.get_hypothesis(ids[i]) {
            Ok(x) => r.push(x),
            Err(_) => {},
        }
        proof { assert(r@ =~= collect(ids@.take(i + 1), f)); }
        i = i + 1;
    }
    proof { lemma_take_all(ids@); }
    r
}

fn decisions_at_exec(store: &Store, ids: &Vec<i64>) -> (r: Vec<Decision>)
    requires
        store.wf(),
    ensures
        r@ == decisions_at(store@, ids@),
{
    let ghost f = |id: i64| store@.decision(id);
    let mut r: Vec<Decision> = Vec::new();
    let mut i: usize = 0;
    while i < ids.len()
        invariant
            store.wf(),
            f == (|id: i64| store@.decision(id)),
            i <= ids@.len(),
            r@ == collect(ids@.take(i as int), f),
        decreases ids@.len() - i,
    {
        proof { lemma_collect_step(ids@, f, i as int); }
        match store.get_decision(ids[i]) {
            Ok(x) => r.push(x),
            Err(_) => {},
        }
        proof { assert(r@ =~= collect(ids@.take(i + 1), f)); }
        i = i + 1;
    }
    proof { lemma_take_all(ids@); }
    r
}

fn literature_at_exec(store: &Store, ids: &Vec<i64>) -> (r: Vec<Literature>)
    requires
        store.wf(),
    ensures
        r@ == literature_at(store@, ids@),
{
    let ghost f = |id: i64| store@.literature_entry(id);
    let mut r: Vec<Literature> = Vec::new();
    let mut i: usize = 0;
    while i < ids.len()
        invariant
            store.wf(),
            f == (|id: i64| store@.literature_entry(id)),
            i <= ids@.len(),
            r@ == collect(ids@.take(i as int), f),
        decreases ids@.len() - i,
    {
        proof { lemma_collect_step(ids@, f, i as int); }
        match store.get_literature(ids[i]) {
            Ok(x) => r.push(x),
            Err(_) => {},
        }
        proof { assert(r@ =~= collect(ids@.take(i + 1), f)); }
        i = i + 1;
    }
    proof { lemma_take_all(ids@); }
    r
}

// ---------------------------------------------------------------- text

/// The first `n` characters of `s`, with "..." when `s` is longer.
pub open spec fn excerpt(s: Seq<char>, n: int) -> Seq<char> {
    if s.len() > n { s.take(n) + "..."@ } else { s }
}

fn push_excerpt(out: &mut String, s: &str, n: usize)
    ensures
        final(out)@ == old(out)@ + excerpt(s@, n as int),
{
    let t = take_chars(s, n);
    push_str(out, t.as_str());
    if s.unicode_len() > n {
        push_str(out, "...");
    }
    proof { assert(final(out)@ =~= old(out)@ + excerpt(s@, n as int)); }
}

proof fn lemma_line_block_step<A>(xs: Seq<A>, fmt: spec_fn(A) -> Seq<char>, i: int)
    requires
        0 <= i < xs.len(),
    ensures
        line_block(xs.take(i + 1).map_values(fmt)) == line_block(xs.take(i).map_values(fmt)) + fmt(xs[i]) + "\n"@,
{
    let s = xs.take(i + 1).map_values(fmt);
    assert(s.drop_last() =~= xs.take(i).map_values(fmt));
}

/// The tag of a phase status in the session context.
pub open spec fn phase_tag(s: PhaseStatus) -> Seq<char> {
    match s {
        PhaseStatus::InProgress => "IN-PROGRESS"@,
        PhaseStatus::Pending => "PENDING"@,
        PhaseStatus::Paused => "PAUSED"@,
        _ => "OTHER"@,
    }
}

/// Picks out the experiments of status `s`.
pub open spec fn with_status(s: ExperimentStatus) -> spec_fn(Experiment) -> bool {
    |e: Experiment| e.status == s
}

pub(crate) fn count_status(es: &Vec<Experiment>, st: ExperimentStatus) -> (n: usize)
    ensures
        n == es@.filter(with_status(st)).len(),
{
    let ghost pred = with_status(st);
    let mut n: usize = 0;
    let mut i: usize = 0;
    while i < es.len()
        invariant
            pred == with_status(st),
            i <= es@.len(),
            n == es@.take(i as int).filter(pred).len(),
            n <= i,
        decreases es@.len() - i,
    {
        proof {
            assert(es@.take(i + 1) =~= es@.take(i as int).push(es@[i as int]));
            es@.take(i as int).lemma_filter_push(es@[i as int], pred);
        }
        if es[i].status == st {
            n = n + 1;
        }
        i = i + 1;
    }
    proof { lemma_take_all(es@); }
    n
}

/// The heading of the session context.
pub open spec fn context_header(name: Seq<char>, a: PhaseView) -> Seq<char> {
    "=== Session Context: "@ + name + " \u{2014} Phase #"@ + dec_int(a.project_seq as int) + ": "@ + a.name + " ===\n\n"@
}

/// The active phase and its description.
pub open spec fn active_head(a: PhaseView) -> Seq<char> {
    "## Active Phase\n"@ + a.name + " ["@ + phase_tag(a.status) + "] [impact:"@ + dec_int(a.impact as int) + "]\n"@
        + (match a.description { Some(d) => "  "@ + d + "\n"@, None => Seq::empty() })
}

/// The experiment counts of the active phase.
pub open spec fn experiment_counts(es: Seq<Experiment>) -> Seq<char> {
    "  Experiments: "@ + dec_nat(es.len()) + " total ("@
        + dec_nat(es.filter(with_status(ExperimentStatus::Pending)).len()) + " pending, "@
        + dec_nat(es.filter(with_status(ExperimentStatus::Pass)).len()) + " pass, "@
        + dec_nat(es.filter(with_status(ExperimentStatus::Fail)).len()) + " fail)\n"@ + "\n"@
}

/// The active phase, its description and its experiment counts.
pub open spec fn active_section(a: PhaseView, es: Seq<Experiment>) -> Seq<char> {
    active_head(a) + experiment_counts(es)
}

fn phase_tag_str(st: PhaseStatus) -> (r: &'static str)
    ensures
        r@ == phase_tag(st),
{
    match st {
        PhaseStatus::InProgress => "IN-PROGRESS",
        PhaseStatus::Pending => "PENDING",
        PhaseStatus::Paused => "PAUSED",
        _ => "OTHER",
    }
}

fn push_active_head(out: &mut String, a: &Phase)
    ensures
        final(out)@ == old(out)@ + active_head(a@),
{
    push_str(out, "## Active Phase\n");
    push_str(out, a.name.as_str());
    push_str(out, " [");
    push_str(out, phase_tag_str(a.status));
    push_str(out, "] [impact:");
    push_i64(out, a.impact as i64);
    push_str(out, "]\n");
    match &a.description {
        Some(d) => {
            push_str(out, "  ");
            push_str(out, d.as_str());
            push_str(out, "\n");
        },
        None => {},
    }
    proof { assert(final(out)@ =~= old(out)@ + active_head(a@)); }
}

fn push_experiment_counts(out: &mut String, es: &Vec<Experiment>)
    ensures
        final(out)@ == old(out)@ + experiment_counts(es@),
{
    let pending = count_status(es, ExperimentStatus::Pending);
    let pass = count_status(es, ExperimentStatus::Pass);
    let fail = count_status(es, ExperimentStatus::Fail);
    push_str(out, "  Experiments: ");
    push_usize(out, es.len());
    push_str(out, " total (");
    push_usize(out, pending);
    push_str(out, " pending, ");
    push_usize(out, pass);
    push_str(out, " pass, ");
    push_usize(out, fail);
    push_str(out, " fail)\n");
    push_str(out, "\n");
    proof { assert(final(out)@ =~= old(out)@ + experiment_counts(es@)); }
}

/// The line of a finding in the session context.
pub open spec fn finding_line(f: Finding) -> Seq<char> {
    "  F#"@ + dec_int(f.id as int) + ": "@ + excerpt(f.text@, 120)
}

/// The five latest findings within reach of the phase.
pub open spec fn recent_section(v: StoreView, ns: Seq<ProximityNode>) -> Seq<char> {
    let top = first_n(by_recency(findings_at(v, typed_ids(ns, NodeType::Finding))), 5);
    if top.len() == 0 {
        Seq::empty()
    } else {
        "## Recent Findings (top "@ + dec_nat(top.len()) + ")\n"@ + line_block(top.map_values(|f: Finding| finding_line(f)))
            + "\n"@
    }
}

fn push_recent_section(out: &mut String, store: &Store, ns: &Vec<ProximityNode>)
    requires
        store.wf(),
    ensures
        final(out)@ == old(out)@ + recent_section(store@, ns@),
{
    let ids = typed_ids_exec(ns, NodeType::Finding);
    let fs = findings_at_exec(store, &ids);
    let sorted = sort_by_recency(fs);
    let n: usize = if sorted.len() <= 5 { sorted.len() } else { 5 };
    let ghost top = first_n(sorted@, 5);
    let ghost fmt = |f: Finding| finding_line(f);
    if n == 0 {
        proof { assert(old(out)@ + recent_section(store@, ns@) =~= old(out)@); }
        return;
    }
    push_str(out, "## Recent Findings (top ");
    push_usize(out, n);
    push_str(out, ")\n");
    let ghost head = out@;
    let mut i: usize = 0;
    while i < n
        invariant
            top == first_n(sorted@, 5),
            n == top.len(),
            n <= sorted@.len(),
            fmt == (|f: Finding| finding_line(f)),
            i <= n,
            out@ == head + line_block(top.take(i as int).map_values(fmt)),
        decreases n - i,
    {
        proof {
            lemma_line_block_step(top, fmt, i as int);
            assert(top[i as int] == sorted@[i as int]);
        }
        let f = &sorted[i];
        push_str(out, "  F#");
        push_i64(out, f.id);
        push_str(out, ": ");
        push_excerpt(out, f.text.as_str(), 120);
        push_str(out, "\n");
        proof { assert(out@ =~= head + line_block(top.take(i + 1).map_values(fmt))); }
        i = i + 1;
    }
    push_str(out, "\n");
    proof {
        lemma_take_all(top);
        assert(out@ =~= old(out)@ + recent_section(store@, ns@));
    }
}

/// A hypothesis still open: proposed or under test.
pub open spec fn open_hypothesis(h: Hypothesis) -> bool {
    h.status == HypothesisStatus::Proposed || h.status == HypothesisStatus::Testing
}

/// The line of an open hypothesis in the session context.
pub open spec fn hypothesis_line(h: Hypothesis) -> Seq<char> {
    "  H#"@ + dec_int(h.id as int) + " ["@
        + (if h.status == HypothesisStatus::Proposed { "proposed"@ }
            else if h.status == HypothesisStatus::Testing { "testing"@ } else { "other"@ })
        + "]: "@ + excerpt(h.text@, 120)
}

/// The open hypotheses within reach of the phase.
pub open spec fn hypothesis_section(v: StoreView, ns: Seq<ProximityNode>) -> Seq<char> {
    let hs = hypotheses_at(v, typed_ids(ns, NodeType::Hypothesis)).filter(|h: Hypothesis| open_hypothesis(h));
    if hs.len() == 0 {
        Seq::empty()
    } else {
        "## Active Hypotheses\n"@ + line_block(hs.map_values(|h: Hypothesis| hypothesis_line(h))) + "\n"@
    }
}

#[verifier::rlimit(30)]
fn push_hypothesis_section(out: &mut String, store: &Store, ns: &Vec<ProximityNode>)
    requires
        store.wf(),
    ensures
        final(out)@ == old(out)@ + hypothesis_section(store@, ns@),
{
    let ids = typed_ids_exec(ns, NodeType::Hypothesis);
    let all = hypotheses_at_exec(store, &ids);
    let ghost pred = |h: Hypothesis| open_hypothesis(h);
    let mut hs: Vec<Hypothesis> = Vec::new();
    let mut k: usize = 0;
    while k < all.len()
        invariant
            pred == (|h: Hypothesis| open_hypothesis(h)),
            k <= all@.len(),
            hs@ == all@.take(k as int).filter(pred),
        decreases all@.len() - k,
    {
        proof {
            assert(all@.take(k + 1) =~= all@.take(k as int).push(all@[k as int]));
            all@.take(k as int).lemma_filter_push(all@[k as int], pred);
        }
        if all[k].status == HypothesisStatus::Proposed || all[k].status == HypothesisStatus::Testing {
            hs.push(all[k].dup());
        }
        k = k + 1;
    }
    proof { lemma_take_all(all@); }
    let ghost fmt = |h: Hypothesis| hypothesis_line(h);
    if hs.len() == 0 {
        proof { assert(old(out)@ + hypothesis_section(store@, ns@) =~= old(out)@); }
        return;
    }
    push_str(out, "## Active Hypotheses\n");
    let ghost head = out@;
    let mut i: usize = 0;
    while i < hs.len()
        invariant
            fmt == (|h: Hypothesis| hypothesis_line(h)),
            i <= hs@.len(),
            out@ == head + line_block(hs@.take(i as int).map_values(fmt)),
        decreases hs@.len() - i,
    {
        proof { lemma_line_block_step(hs@, fmt, i as int); }
        let h = &hs[i];
        push_str(out, "  H#");
        push_i64(out, h.id);
        push_str(out, " [");
        if h.status == HypothesisStatus::Proposed {
            push_str(out, "proposed");
        } else if h.status == HypothesisStatus::Testing {
            push_str(out, "testing");
        } else {
            push_str(out, "other");
        }
        push_str(out, "]: ");
        push_excerpt(out, h.text.as_str(), 120);
        push_str(out, "\n");
        proof { assert(out@ =~= head + line_block(hs@.take(i + 1).map_values(fmt))); }
        i = i + 1;
    }
    push_str(out, "\n");
    proof {
        lemma_take_all(hs@);
        assert(out@ =~= old(out)@ + hypothesis_section(store@, ns@));
    }
}

/// The line of a decision in the session context.
pub open spec fn decision_line(d: Decision) -> Seq<char> {
    "  D#"@ + dec_int(d.id as int) + ": "@ + excerpt(d.what@, 120)
}

/// The decisions within reach of the phase.
pub open spec fn decision_section(v: StoreView, ns: Seq<ProximityNode>) -> Seq<char> {
    let ds = decisions_at(v, typed_ids(ns, NodeType::Decision));
    if ds.len() == 0 {
        Seq::empty()
    } else {
        "## Key Decisions\n"@ + line_block(ds.map_values(|d: Decision| decision_line(d))) + "\n"@
    }
}

fn push_decision_section(out: &mut String, store: &Store, ns: &Vec<ProximityNode>)
    requires
        store.wf(),
    ensures
        final(out)@ == old(out)@ + decision_section(store@, ns@),
{
    let ids = typed_ids_exec(ns, NodeType::Decision);
    let ds = decisions_at_exec(store, &ids);
    let ghost fmt = |d: Decision| decision_line(d);
    if ds.len() == 0 {
        proof { assert(old(out)@ + decision_section(store@, ns@) =~= old(out)@); }
        return;
    }
    push_str(out, "## Key Decisions\n");
    let ghost head = out@;
    let mut i: usize = 0;
    while i < ds.len()
        invariant
            fmt == (|d: Decision| decision_line(d)),
            i <= ds@.len(),
            out@ == head + line_block(ds@.take(i as int).map_values(fmt)),
        decreases ds@.len() - i,
    {
        proof { lemma_line_block_step(ds@, fmt, i as int); }
        push_str(out, "  D#");
        push_i64(out, ds[i].id);
        push_str(out, ": ");
        push_excerpt(out, ds[i].what.as_str(), 120);
        push_str(out, "\n");
        proof { assert(out@ =~= head + line_block(ds@.take(i + 1).map_values(fmt))); }
        i = i + 1;
    }
    push_str(out, "\n");
    proof {
        lemma_take_all(ds@);
        assert(out@ =~= old(out)@ + decision_section(store@, ns@));
    }
}

/// The line of a literature entry in the session context.
pub open spec fn literature_line(l: Literature) -> Seq<char> {
    "  L#"@ + dec_int(l.id as int) + ": "@ + l.title@
}

/// The first three literature entries within reach of the phase.
pub open spec fn literature_section(v: StoreView, ns: Seq<ProximityNode>) -> Seq<char> {
    let ls = first_n(literature_at(v, typed_ids(ns, NodeType::Literature)), 3);
    if ls.len() == 0 {
        Seq::empty()
    } else {
        "## Relevant Literature\n"@ + line_block(ls.map_values(|l: Literature| literature_line(l))) + "\n"@
    }
}

fn push_literature_section(out: &mut String, store: &Store, ns: &Vec<ProximityNode>)
    requires
        store.wf(),
    ensures
        final(out)@ == old(out)@ + literature_section(store@, ns@),
{
    let ids = typed_ids_exec(ns, NodeType::Literature);
    let ls = literature_at_exec(store, &ids);
    let n: usize = if ls.len() <= 3 { ls.len() } else { 3 };
    let ghost top = first_n(ls@, 3);
    let ghost fmt = |l: Literature| literature_line(l);
    if n == 0 {
        proof { assert(old(out)@ + literature_section(store@, ns@) =~= old(out)@); }
        return;
    }
    push_str(out, "## Relevant Literature\n");
    let ghost head = out@;
    let mut i: usize = 0;
    while i < n
        invariant
            top == first_n(ls@, 3),
            n == top.len(),
            n <= ls@.len(),
            fmt == (|l: Literature| literature_line(l)),
            i <= n,
            out@ == head + line_block(top.take(i as int).map_values(fmt)),
        decreases n - i,
    {
        proof {
            lemma_line_block_step(top, fmt, i as int);
            assert(top[i as int] == ls@[i as int]);
        }
        push_str(out, "  L#");
        push_i64(out, ls[i].id);
        push_str(out, ": ");
        push_str(out, ls[i].title.as_str());
        push_str(out, "\n");
        proof { assert(out@ =~= head + line_block(top.take(i + 1).map_values(fmt))); }
        i = i + 1;
    }
    push_str(out, "\n");
    proof {
        lemma_take_all(top);
        assert(out@ =~= old(out)@ + literature_section(store@, ns@));
    }
}

/// What to do next in the phase: run its pending experiments, or review
/// it when they are all resolved.
pub open spec fn next_section(a: PhaseView, es: Seq<Experiment>) -> Seq<char> {
    let pend = es.filter(with_status(ExperimentStatus::Pending));
    "## Suggested Next Actions\n"@ + if pend.len() > 0 {
        "  - "@ + dec_nat(pend.len()) + " pending experiments to execute\n"@ + "  - Next: E#"@
            + dec_int(pend[0].id as int) + " \u{2014} "@ + pend[0].name@ + "\n"@
    } else if a.status == PhaseStatus::InProgress {
        "  - All experiments resolved \u{2014} review results and consider completing this phase\n"@
    } else {
        Seq::empty()
    }
}

fn push_next_section(out: &mut String, a: &Phase, es: &Vec<Experiment>)
    ensures
        final(out)@ == old(out)@ + next_section(a@, es@),
{
    let ghost pred = with_status(ExperimentStatus::Pending);
    let mut first: Option<usize> = None;
    let mut n: usize = 0;
    let mut i: usize = 0;
    while i < es.len()
        invariant
            pred == with_status(ExperimentStatus::Pending),
            i <= es@.len(),
            n == es@.take(i as int).filter(pred).len(),
            n <= i,
            first is None <==> n == 0,
            first matches Some(k) ==> k < i && es@[k as int] == es@.take(i as int).filter(pred)[0],
        decreases es@.len() - i,
    {
        proof {
            assert(es@.take(i + 1) =~= es@.take(i as int).push(es@[i as int]));
            es@.take(i as int).lemma_filter_push(es@[i as int], pred);
        }
        if es[i].status == ExperimentStatus::Pending {
            if first.is_none() {
                first = Some(i);
            }
            n = n + 1;
        }
        i = i + 1;
    }
    proof { lemma_take_all(es@); }
    push_str(out, "## Suggested Next Actions\n");
    match first {
        Some(k) => {
            push_str(out, "  - ");
            push_usize(out, n);
            push_str(out, " pending experiments to execute\n");
            push_str(out, "  - Next: E#");
            push_i64(out, es[k].id);
            push_str(out, " \u{2014} ");
            push_str(out, es[k].name.as_str());
            push_str(out, "\n");
        },
        None => {
            if a.status == PhaseStatus::InProgress {
                push_str(out, "  - All experiments resolved \u{2014} review results and consider completing this phase\n");
            }
        },
    }
    proof { assert(final(out)@ =~= old(out)@ + next_section(a@, es@)); }
}

// ---------------------------------------------------------------- briefing

/// The findings of the experiments of phase `a`, latest first.
pub open spec fn phase_findings(v: StoreView, a: PhaseView) -> Seq<Finding> {
    by_recency(exp_findings(v, v.experiments.filter(experiment_in(Some(a.id)))))
}

/// The line of a finding in the briefing.
pub open spec fn brief_finding_line(f: Finding) -> Seq<char> {
    "  F#"@ + dec_int(f.id as int) + ": "@ + prefix(f.text@, 150)
}

/// The severity that a constraint declares, "hard" when it declares none.
pub open spec fn severity_of(c: Constraint) -> Seq<char> {
    match c.severity {
        Some(s) => s@,
        None => "hard"@,
    }
}

/// The line of a constraint in the briefing.
pub open spec fn constraint_line(c: Constraint) -> Seq<char> {
    "  C#"@ + dec_int(c.id as int) + " ["@ + severity_of(c) + "]: "@ + prefix(c.text@, 150)
}

/// The line of an untested hypothesis in the briefing.
pub open spec fn untested_line(h: Hypothesis) -> Seq<char> {
    "  H#"@ + dec_int(h.id as int) + " [proposed]: "@ + prefix(h.text@, 100)
}

/// The line of a contradicting pair of findings in the briefing.
pub open spec fn pair_line(p: (Finding, Finding)) -> Seq<char> {
    "  F#"@ + dec_int(p.0.id as int) + " vs F#"@ + dec_int(p.1.id as int) + ": \""@ + prefix(p.0.text@, 60)
        + "\" <-> \""@ + prefix(p.1.text@, 60) + "\""@
}

/// A titled list of lines followed by a blank line; nothing when empty.
pub open spec fn brief_block(title: Seq<char>, ls: Seq<Seq<char>>) -> Seq<char> {
    if ls.len() == 0 { Seq::empty() } else { title + line_block(ls) + "\n"@ }
}

/// Picks out the hypotheses still proposed.
pub open spec fn proposed() -> spec_fn(Hypothesis) -> bool {
    |h: Hypothesis| h.status == HypothesisStatus::Proposed
}

/// The knowledge briefing on phase `a` of project `p`: the phase's five
/// latest findings, the project's constraints, the project's proposed
/// hypotheses, and the first three contradictions among the phase's
/// findings.
pub open spec fn briefing(v: StoreView, p: Project, a: PhaseView) -> Seq<char> {
    let pf = phase_findings(v, a);
    "\n=== Knowledge Briefing ===\n\n"@ + "## Active Phase: #"@ + dec_int(a.id as int) + " "@ + a.name + "\n\n"@
        + brief_block("### Recent Findings (Phase #"@ + dec_int(a.id as int) + "):\n"@,
            first_n(pf, 5).map_values(|f: Finding| brief_finding_line(f)))
        + brief_block("### Active Constraints:\n"@,
            v.constraints.filter(constraint_of(p.id)).map_values(|c: Constraint| constraint_line(c)))
        + brief_block("### Untested Hypotheses:\n"@,
            phase_hyps(v, v.phases.filter(phase_of(p.id))).filter(proposed()).map_values(|h: Hypothesis| untested_line(h)))
        + brief_block("### Contradictions in Neighborhood:\n"@,
            first_n(contradictions_among(v, pf), 3).map_values(|q: (Finding, Finding)| pair_line(q)))
}

fn push_lines(out: &mut String, title: &str, lines: &Vec<String>)
    ensures
        final(out)@ == old(out)@ + brief_block(title@, crate::mcp::common::views(lines@)),
{
    let ghost ls = crate::mcp::common::views(lines@);
    if lines.len() == 0 {
        proof { assert(old(out)@ + brief_block(title@, ls) =~= old(out)@); }
        return;
    }
    push_str(out, title);
    let ghost head = out@;
    let mut i: usize = 0;
    while i < lines.len()
        invariant
            ls == crate::mcp::common::views(lines@),
            i <= lines@.len(),
            out@ == head + line_block(ls.take(i as int)),
        decreases lines@.len() - i,
    {
        proof { assert(ls.take(i + 1).drop_last() =~= ls.take(i as int)); }
        push_str(out, lines[i].as_str());
        push_str(out, "\n");
        proof { assert(out@ =~= head + line_block(ls.take(i + 1))); }
        i = i + 1;
    }
    push_str(out, "\n");
    proof {
        lemma_take_all(ls);
        assert(out@ =~= old(out)@ + brief_block(title@, ls));
    }
}

fn brief_finding_lines(pf: &Vec<Finding>) -> (r: Vec<String>)
    ensures
        crate::mcp::common::views(r@) == first_n(pf@, 5).map_values(|f: Finding| brief_finding_line(f)),
{
    let n: usize = if pf.len() <= 5 { pf.len() } else { 5 };
    let ghost top = first_n(pf@, 5);
    let ghost fmt = |f: Finding| brief_finding_line(f);
    let mut r: Vec<String> = Vec::new();
    let mut i: usize = 0;
    while i < n
        invariant
            top == first_n(pf@, 5),
            n == top.len(),
            n <= pf@.len(),
            fmt == (|f: Finding| brief_finding_line(f)),
            i <= n,
            crate::mcp::common::views(r@) == top.take(i as int).map_values(fmt),
        decreases n - i,
    {
        proof { assert(top[i as int] == pf@[i as int]); }
        let mut l = String::new();
        push_str(&mut l, "  F#");
        push_i64(&mut l, pf[i].id);
        push_str(&mut l, ": ");
        let t = take_chars(pf[i].text.as_str(), 150);
        push_str(&mut l, t.as_str());
        proof {
            assert(l@ =~= fmt(top[i as int]));
            assert(top.take(i + 1).map_values(fmt) =~= top.take(i as int).map_values(fmt).push(fmt(top[i as int])));
        }
        push_line(&mut r, l);
        i = i + 1;
    }
    proof { lemma_take_all(top); }
    r
}

fn constraint_lines(cs: &Vec<Constraint>) -> (r: Vec<String>)
    ensures
        crate::mcp::common::views(r@) == cs@.map_values(|c: Constraint| constraint_line(c)),
{
    let ghost fmt = |c: Constraint| constraint_line(c);
    let mut r: Vec<String> = Vec::new();
    let mut i: usize = 0;
    while i < cs.len()
        invariant
            fmt == (|c: Constraint| constraint_line(c)),
            i <= cs@.len(),
            crate::mcp::common::views(r@) == cs@.take(i as int).map_values(fmt),
        decreases cs@.len() - i,
    {
        let mut l = String::new();
        push_str(&mut l, "  C#");
        push_i64(&mut l, cs[i].id);
        push_str(&mut l, " [");
        match &cs[i].severity {
            Some(sv) => push_str(&mut l, sv.as_str()),
            None => push_str(&mut l, "hard"),
        }
        push_str(&mut l, "]: ");
        let t = take_chars(cs[i].text.as_str(), 150);
        push_str(&mut l, t.as_str());
        proof {
            assert(l@ =~= fmt(cs@[i as int]));
            assert(cs@.take(i + 1).map_values(fmt) =~= cs@.take(i as int).map_values(fmt).push(fmt(cs@[i as int])));
        }
        push_line(&mut r, l);
        i = i + 1;
    }
    proof { lemma_take_all(cs@); }
    r
}

fn untested_lines(hs: &Vec<Hypothesis>) -> (r: Vec<String>)
    ensures
        crate::mcp::common::views(r@) == hs@.filter(proposed()).map_values(|h: Hypothesis| untested_line(h)),
{
    let ghost fmt = |h: Hypothesis| untested_line(h);
    let ghost pred = proposed();
    let mut r: Vec<String> = Vec::new();
    let mut i: usize = 0;
    while i < hs.len()
        invariant
            fmt == (|h: Hypothesis| untested_line(h)),
            pred == proposed(),
            i <= hs@.len(),
            crate::mcp::common::views(r@) == hs@.take(i as int).filter(pred).map_values(fmt),
        decreases hs@.len() - i,
    {
        proof {
            assert(hs@.take(i + 1) =~= hs@.take(i as int).push(hs@[i as int]));
            hs@.take(i as int).lemma_filter_push(hs@[i as int], pred);
        }
        if hs[i].status == HypothesisStatus::Proposed {
            let mut l = String::new();
            push_str(&mut l, "  H#");
            push_i64(&mut l, hs[i].id);
            push_str(&mut l, " [proposed]: ");
            let t = take_chars(hs[i].text.as_str(), 100);
            push_str(&mut l, t.as_str());
            proof {
                assert(l@ =~= fmt(hs@[i as int]));
                assert(hs@.take(i as int).filter(pred).push(hs@[i as int]).map_values(fmt)
                    =~= hs@.take(i as int).filter(pred).map_values(fmt).push(fmt(hs@[i as int])));
            }
            push_line(&mut r, l);
        }
        i = i + 1;
    }
    proof { lemma_take_all(hs@); }
    r
}

fn pair_lines(ps: &Vec<(Finding, Finding)>) -> (r: Vec<String>)
    ensures
        crate::mcp::common::views(r@) == first_n(ps@, 3).map_values(|q: (Finding, Finding)| pair_line(q)),
{
    let n: usize = if ps.len() <= 3 { ps.len() } else { 3 };
    let ghost top = first_n(ps@, 3);
    let ghost fmt = |q: (Finding, Finding)| pair_line(q);
    let mut r: Vec<String> = Vec::new();
    let mut i: usize = 0;
    while i < n
        invariant
            top == first_n(ps@, 3),
            n == top.len(),
            n <= ps@.len(),
            fmt == (|q: (Finding, Finding)| pair_line(q)),
            i <= n,
            crate::mcp::common::views(r@) == top.take(i as int).map_values(fmt),
        decreases n - i,
    {
        proof { assert(top[i as int] == ps@[i as int]); }
        let mut l = String::new();
        push_str(&mut l, "  F#");
        push_i64(&mut l, ps[i].0.id);
        push_str(&mut l, " vs F#");
        push_i64(&mut l, ps[i].1.id);
        push_str(&mut l, ": \"");
        let t1 = take_chars(ps[i].0.text.as_str(), 60);
        push_str(&mut l, t1.as_str());
        push_str(&mut l, "\" <-> \"");
        let t2 = take_chars(ps[i].1.text.as_str(), 60);
        push_str(&mut l, t2.as_str());
        push_str(&mut l, "\"");
        proof {
            assert(l@ =~= fmt(top[i as int]));
            assert(top.take(i + 1).map_values(fmt) =~= top.take(i as int).map_values(fmt).push(fmt(top[i as int])));
        }
        push_line(&mut r, l);
        i = i + 1;
    }
    proof { lemma_take_all(top); }
    r
}

#[verifier::rlimit(50)]
pub(crate) fn push_briefing(out: &mut String, store: &Store, p: &Project, a: &Phase)
    requires
        store.wf(),
    ensures
        final(out)@ == old(out)@ + briefing(store@, *p, a@),
{
    let ghost v = store@;
    let exps = match store.list_experiments(Some(a.id)) { Ok(x) => x, Err(_) => Vec::new() };
    let fs = collect_findings(store, &exps);
    let pf = sort_by_recency(fs);
    let cs = match store.list_constraints(p.id) { Ok(x) => x, Err(_) => Vec::new() };
    let phases = match store.list_phases(p.id) { Ok(x) => x, Err(_) => Vec::new() };
    proof { assert(views(phases@) == v.phases.filter(phase_of(p.id))); }
    let hs = collect_hypotheses(store, &phases);
    let kg = KgEngine::new(store);
    let pairs = match kg.find_contradictions(pf.as_slice()) { Ok(x) => x, Err(_) => Vec::new() };
    push_str(out, "\n=== Knowledge Briefing ===\n\n");
    push_str(out, "## Active Phase: #");
    push_i64(out, a.id);
    push_str(out, " ");
    push_str(out, a.name.as_str());
    push_str(out, "\n\n");
    let ghost head = out@;
    let mut title = String::new();
    push_str(&mut title, "### Recent Findings (Phase #");
    push_i64(&mut title, a.id);
    push_str(&mut title, "):\n");
    let l1 = brief_finding_lines(&pf);
    push_lines(out, title.as_str(), &l1);
    let l2 = constraint_lines(&cs);
    push_lines(out, "### Active Constraints:\n", &l2);
    let l3 = untested_lines(&hs);
    push_lines(out, "### Untested Hypotheses:\n", &l3);
    let l4 = pair_lines(&pairs);
    push_lines(out, "### Contradictions in Neighborhood:\n", &l4);
    proof {
        assert(title@ =~= "### Recent Findings (Phase #"@ + dec_int(a.id as int) + "):\n"@);
        assert(final(out)@ =~= old(out)@ + briefing(v, *p, a@));
    }
}

// ---------------------------------------------------------------- tool

/// The phase a session works on: the first in progress among the ranked
/// next phases, else the first of them.
pub open spec fn active_of(order: Seq<PhaseView>) -> Option<PhaseView> {
    match first_in_progress(order) {
        Some(p) => Some(p),
        None => if order.len() > 0 { Some(order[0]) } else { None },
    }
}

/// `sg` is what lies within three hops of phase `id` along the phase's
/// relations.
pub open spec fn phase_reach(v: StoreView, id: i64, sg: Subgraph) -> bool {
    exists|c: TraversalConfig| #[trigger] phase_config(c, 3) && bfs_result(v, c, (NodeType::Phase, id), sg)
}

/// What lies around the phase: latest findings, open hypotheses,
/// decisions and literature.
pub open spec fn reach_sections(v: StoreView, ns: Seq<ProximityNode>) -> Seq<char> {
    recent_section(v, ns) + hypothesis_section(v, ns) + decision_section(v, ns) + literature_section(v, ns)
}

/// The size of what lies around the phase.
pub open spec fn graph_line(sg: Subgraph) -> Seq<char> {
    "\n[Graph: "@ + dec_nat(sg.nodes@.len()) + " nodes, "@ + dec_nat(sg.edges@.len()) + " edges within 3 hops of phase]\n"@
}

/// The session context of project `p` (asked for as `name`) on phase `a`,
/// with `sg` what lies around the phase.
pub open spec fn context_text(v: StoreView, name: Seq<char>, p: Project, a: PhaseView, sg: Subgraph) -> Seq<char> {
    let es = v.experiments.filter(experiment_in(Some(a.id)));
    context_header(name, a) + active_section(a, es) + reach_sections(v, sg.nodes@) + next_section(a, es)
        + graph_line(sg) + briefing(v, p, a)
}

fn push_reach_sections(out: &mut String, store: &Store, ns: &Vec<ProximityNode>)
    requires
        store.wf(),
    ensures
        final(out)@ == old(out)@ + reach_sections(store@, ns@),
{
    push_recent_section(out, store, ns);
    push_hypothesis_section(out, store, ns);
    push_decision_section(out, store, ns);
    push_literature_section(out, store, ns);
    proof { assert(final(out)@ =~= old(out)@ + reach_sections(store@, ns@)); }
}

/// `out` is the session context of project `p` for the ranked next phases
/// `order`.
pub open spec fn context_of(v: StoreView, name: Seq<char>, p: Project, order: Seq<PhaseView>, out: Seq<char>) -> bool {
    match active_of(order) {
        None => out == "No actionable phases found for project: "@ + name,
        Some(a) => exists|sg: Subgraph| #[trigger] phase_reach(v, a.id, sg) && out == context_text(v, name, p, a, sg),
    }
}

pub(crate) fn active_index(next: &Vec<Phase>) -> (r: Option<usize>)
    ensures
        r is None <==> active_of(views(next@)) is None,
        r matches Some(k) ==> k < next@.len() && active_of(views(next@)) == Some(next@[k as int]@),
{
    let ghost ps = views(next@);
    let mut found: Option<usize> = None;
    let mut i: usize = 0;
    while i < next.len()
        invariant
            ps == views(next@),
            i <= next@.len(),
            found is None <==> first_in_progress(ps.take(i as int)) is None,
            found matches Some(k) ==> k < i && first_in_progress(ps.take(i as int)) == Some(ps[k as int]),
        decreases next@.len() - i,
    {
        proof { assert(ps.take(i + 1).drop_last() =~= ps.take(i as int)); }
        if found.is_none() && next[i].status == PhaseStatus::InProgress {
            found = Some(i);
        }
        i = i + 1;
    }
    proof { lemma_take_all(ps); }
    match found {
        Some(k) => Some(k),
        None => if next.len() > 0 { Some(0) } else { None },
    }
}

fn push_context_top(out: &mut String, store: &Store, name: &str, a: &Phase, sg: &Subgraph, es: &Vec<Experiment>)
    requires
        store.wf(),
    ensures
        final(out)@ == old(out)@ + context_header(name@, a@) + active_section(a@, es@) + reach_sections(store@, sg.nodes@),
{
    push_str(out, "=== Session Context: ");
    push_str(out, name);
    push_str(out, " \u{2014} Phase #");
    push_i64(out, a.project_seq);
    push_str(out, ": ");
    push_str(out, a.name.as_str());
    push_str(out, " ===\n\n");
    proof { assert(out@ =~= old(out)@ + context_header(name@, a@)); }
    let ghost s1 = out@;
    push_active_head(out, a);
    push_experiment_counts(out, es);
    proof { assert(out@ =~= s1 + active_section(a@, es@)); }
    push_reach_sections(out, store, &sg.nodes);
}

fn push_context_bottom(out: &mut String, store: &Store, p: &Project, a: &Phase, sg: &Subgraph, es: &Vec<Experiment>)
    requires
        store.wf(),
    ensures
        final(out)@ == old(out)@ + next_section(a@, es@) + graph_line(*sg) + briefing(store@, *p, a@),
{
    push_next_section(out, a, es);
    let ghost s4 = out@;
    push_str(out, "\n[Graph: ");
    push_usize(out, sg.nodes.len());
    push_str(out, " nodes, ");
    push_usize(out, sg.edges.len());
    push_str(out, " edges within 3 hops of phase]\n");
    proof { assert(out@ =~= s4 + graph_line(*sg)); }
    push_briefing(out, store, p, a);
}

fn push_context(out: &mut String, store: &Store, name: &str, p: &Project, a: &Phase, sg: &Subgraph)
    requires
        store.wf(),
    ensures
        final(out)@ == old(out)@ + context_text(store@, name@, *p, a@, *sg),
{
    let ghost v = store@;
    let es = match store.list_experiments(Some(a.id)) { Ok(x) => x, Err(_) => Vec::new() };
    push_context_top(out, store, name, a, sg, &es);
    push_context_bottom(out, store, p, a, sg, &es);
    proof {
        assert(out@ =~= old(out)@ + context_text(v, name@, *p, a@, *sg));
    }
}

/// The context for a work session on a project (named by name or alias):
/// its active phase, what lies within three hops of it, what to do next,
/// and a knowledge briefing; see `context_of`.  The store is not changed.
pub fn tool_session_context(store: &Store, project: &str) -> (out: String)
    requires
        store.wf(),
    ensures
        project_named(store@, project@) is None ==> out@ == "Project not found: "@ + project@,
        project_named(store@, project@) matches Some(p) ==> exists|order: Seq<PhaseView>|
            #[trigger] next_phases_of(store@.phases_of(p.id), order) && context_of(store@, project@, p, order, out@),
{
    let ghost v = store@;
    let mut out = String::new();
    let proj = match find_project(store, project) {
        Some(p) => p,
        None => {
            push_str(&mut out, "Project not found: ");
            push_str(&mut out, project);
            return out;
        },
    };
    let dag = DagEngine::new(store, proj.id);
    let next = match dag.next_phases() { Ok(n) => n, Err(_) => Vec::new() };
    let ghost order = views(next@);
    proof { assert(next_phases_of(v.phases_of(proj.id), order)); }
    let k = match active_index(&next) {
        Some(k) => k,
        None => {
            push_str(&mut out, "No actionable phases found for project: ");
            push_str(&mut out, project);
            proof { assert(context_of(v, project@, proj, order, out@)); }
            return out;
        },
    };
    let a = &next[k];
    let sg = phase_subgraph(store, a.id, 3);
    push_context(&mut out, store, project, &proj, a, &sg);
    proof {
        assert(phase_reach(v, a.id, sg));
        assert(context_of(v, project@, proj, order, out@));
    }
    out
}

// ---------------------------------------------------------------- handoff

/// Picks out the phases of status `s`.
pub open spec fn phase_with(s: PhaseStatus) -> spec_fn(PhaseView) -> bool {
    |p: PhaseView| p.status == s
}

/// The line of an active phase in a handoff.
pub open spec fn active_phase_line(p: PhaseView) -> Seq<char> {
    "  Phase #"@ + dec_int(p.id as int) + " [impact:"@ + dec_int(p.impact as int) + "]: "@ + p.name
}

/// The line of a recent finding in a handoff.
pub open spec fn handoff_finding_line(f: Finding) -> Seq<char> {
    "  #"@ + dec_int(f.id as int) + ": "@ + prefix(f.text@, 100)
}

/// The handoff document of project `p` with `order` its ranked next
/// phases: progress, active phases, the next action, a stagnation warning,
/// and the three latest findings of the store.
pub open spec fn handoff_doc(v: StoreView, p: Project, order: Seq<PhaseView>) -> Seq<char> {
    let ps = v.phases.filter(phase_of(p.id));
    let active = ps.filter(phase_with(PhaseStatus::InProgress));
    let recent = first_n(v.findings.reverse(), 3);
    "=== Session Handoff: "@ + p.name@ + " ===\n\n"@
        + "## Progress: "@ + dec_nat(ps.filter(phase_with(PhaseStatus::Complete)).len()) + "/"@ + dec_nat(ps.len())
        + " phases complete\n"@
        + (if active.len() > 0 {
            "\n## Active:\n"@ + line_block(active.map_values(|q: PhaseView| active_phase_line(q)))
        } else {
            Seq::empty()
        })
        + (if order.len() > 0 {
            "\n## Next Action: Phase #"@ + dec_int(order[0].id as int) + " [impact:"@ + dec_int(order[0].impact as int)
                + "] "@ + order[0].name + "\n"@
        } else {
            Seq::empty()
        })
        + crate::mcp::review::streak_note(v, p.id, "\n## WARNING: "@, " consecutive fails \u{2014} redirect needed\n"@)
        + (if recent.len() > 0 {
            "\n## Recent Findings:\n"@ + line_block(recent.map_values(|f: Finding| handoff_finding_line(f)))
        } else {
            Seq::empty()
        })
}

fn push_phase_lines(out: &mut String, phases: &Vec<Phase>)
    ensures
        final(out)@ == old(out)@ + line_block(views(phases@).filter(phase_with(PhaseStatus::InProgress))
            .map_values(|q: PhaseView| active_phase_line(q))),
{
    let ghost ps = views(phases@);
    let ghost pred = phase_with(PhaseStatus::InProgress);
    let ghost fmt = |q: PhaseView| active_phase_line(q);
    let mut i: usize = 0;
    while i < phases.len()
        invariant
            ps == views(phases@),
            pred == phase_with(PhaseStatus::InProgress),
            fmt == (|q: PhaseView| active_phase_line(q)),
            i <= phases@.len(),
            out@ == old(out)@ + line_block(ps.take(i as int).filter(pred).map_values(fmt)),
        decreases phases@.len() - i,
    {
        proof {
            assert(ps.take(i + 1) =~= ps.take(i as int).push(ps[i as int]));
            ps.take(i as int).lemma_filter_push(ps[i as int], pred);
        }
        if phases[i].status == PhaseStatus::InProgress {
            let ghost before = out@;
            push_str(out, "  Phase #");
            push_i64(out, phases[i].id);
            push_str(out, " [impact:");
            push_i64(out, phases[i].impact as i64);
            push_str(out, "]: ");
            push_str(out, phases[i].name.as_str());
            push_str(out, "\n");
            proof {
                let t = ps.take(i as int).filter(pred).push(ps[i as int]).map_values(fmt);
                assert(t.drop_last() =~= ps.take(i as int).filter(pred).map_values(fmt));
                assert(out@ =~= old(out)@ + line_block(t));
            }
        }
        i = i + 1;
    }
    proof { lemma_take_all(ps); }
}

fn count_complete(phases: &Vec<Phase>) -> (n: usize)
    ensures
        n == views(phases@).filter(phase_with(PhaseStatus::Complete)).len(),
{
    let ghost ps = views(phases@);
    let ghost pred = phase_with(PhaseStatus::Complete);
    let mut n: usize = 0;
    let mut i: usize = 0;
    while i < phases.len()
        invariant
            ps == views(phases@),
            pred == phase_with(PhaseStatus::Complete),
            i <= phases@.len(),
            n == ps.take(i as int).filter(pred).len(),
            n <= i,
        decreases phases@.len() - i,
    {
        proof {
            assert(ps.take(i + 1) =~= ps.take(i as int).push(ps[i as int]));
            ps.take(i as int).lemma_filter_push(ps[i as int], pred);
        }
        if phases[i].status == PhaseStatus::Complete {
            n = n + 1;
        }
        i = i + 1;
    }
    proof { lemma_take_all(ps); }
    n
}

fn push_recent_findings(out: &mut String, store: &Store)
    ensures
        final(out)@ == old(out)@ + (if first_n(store@.findings.reverse(), 3).len() > 0 {
            "\n## Recent Findings:\n"@ + line_block(first_n(store@.findings.reverse(), 3)
                .map_values(|f: Finding| handoff_finding_line(f)))
        } else {
            Seq::empty()
        }),
{
    let fs = match store.list_findings(None) { Ok(x) => x, Err(_) => Vec::new() };
    let ghost all = store@.findings;
    proof {
        assert(all.filter(crate::store::finding_in(None)) =~= all) by {
            crate::mcp::review::lemma_filter_all(all, crate::store::finding_in(None));
        }
    }
    let ghost top = first_n(all.reverse(), 3);
    let ghost fmt = |f: Finding| handoff_finding_line(f);
    let n: usize = if fs.len() <= 3 { fs.len() } else { 3 };
    if n == 0 {
        proof { assert(top.len() == 0); }
        return;
    }
    push_str(out, "\n## Recent Findings:\n");
    let ghost head = out@;
    let mut i: usize = 0;
    while i < n
        invariant
            fs@ == all,
            top == first_n(all.reverse(), 3),
            fmt == (|f: Finding| handoff_finding_line(f)),
            n == top.len(),
            n <= fs@.len(),
            i <= n,
            out@ == head + line_block(top.take(i as int).map_values(fmt)),
        decreases n - i,
    {
        let k = fs.len() - 1 - i;
        push_str(out, "  #");
        push_i64(out, fs[k].id);
        push_str(out, ": ");
        let t = take_chars(fs[k].text.as_str(), 100);
        push_str(out, t.as_str());
        push_str(out, "\n");
        proof {
            assert(top[i as int] == all.reverse()[i as int]);
            assert(all.reverse()[i as int] == all[k as int]);
            let s = top.take(i + 1).map_values(fmt);
            assert(s.drop_last() =~= top.take(i as int).map_values(fmt));
            assert(out@ =~= head + line_block(s));
        }
        i = i + 1;
    }
    proof { lemma_take_all(top); }
}

/// The handoff document of a project (named by name or alias) for the
/// next session, or `None` when no project answers to the name; see
/// `handoff_doc`.  The store is not changed.
#[verifier::rlimit(100)]
#[verifier::spinoff_prover]
pub fn handoff_text(store: &Store, project: &str) -> (res: Option<String>)
    requires
        store.wf(),
    ensures
        res is None <==> project_named(store@, project@) is None,
        res matches Some(out) ==> (project_named(store@, project@) matches Some(p) && exists|order: Seq<PhaseView>|
            #[trigger] next_phases_of(store@.phases_of(p.id), order) && out@ == handoff_doc(store@, p, order)),
{
    let ghost v = store@;
    let proj = match find_project(store, project) {
        Some(p) => p,
        None => return None,
    };
    let pid = proj.id;
    let phases = match store.list_phases(pid) { Ok(x) => x, Err(_) => Vec::new() };
    proof { assert(views(phases@) == v.phases.filter(phase_of(pid))); }
    let dag = DagEngine::new(store, pid);
    let next = match dag.next_phases() { Ok(n) => n, Err(_) => Vec::new() };
    let ghost order = views(next@);
    let mut out = String::new();
    push_str(&mut out, "=== Session Handoff: ");
    push_str(&mut out, proj.name.as_str());
    push_str(&mut out, " ===\n\n");
    push_str(&mut out, "## Progress: ");
    let done = count_complete(&phases);
    push_usize(&mut out, done);
    push_str(&mut out, "/");
    push_usize(&mut out, phases.len());
    push_str(&mut out, " phases complete\n");
    let ghost s1 = out@;
    let active = {
        let mut any = false;
        let mut i: usize = 0;
        while i < phases.len()
            invariant
                i <= phases@.len(),
                any == (views(phases@).take(i as int).filter(phase_with(PhaseStatus::InProgress)).len() > 0),
            decreases phases@.len() - i,
        {
            proof {
                let ps = views(phases@);
                assert(ps.take(i + 1) =~= ps.take(i as int).push(ps[i as int]));
                ps.take(i as int).lemma_filter_push(ps[i as int], phase_with(PhaseStatus::InProgress));
            }
            if phases[i].status == PhaseStatus::InProgress {
                any = true;
            }
            i = i + 1;
        }
        proof { lemma_take_all(views(phases@)); }
        any
    };
    if active {
        push_str(&mut out, "\n## Active:\n");
        push_phase_lines(&mut out, &phases);
    } else {
        proof {
            assert(views(phases@).filter(phase_with(PhaseStatus::InProgress)).map_values(|q: PhaseView| active_phase_line(q))
                =~= Seq::<Seq<char>>::empty());
        }
    }
    let ghost s2 = out@;
    if next.len() > 0 {
        push_str(&mut out, "\n## Next Action: Phase #");
        push_i64(&mut out, next[0].id);
        push_str(&mut out, " [impact:");
        push_i64(&mut out, next[0].impact as i64);
        push_str(&mut out, "] ");
        push_str(&mut out, next[0].name.as_str());
        push_str(&mut out, "\n");
    }
    let ghost s3 = out@;
    crate::mcp::review::push_streak_note(&mut out, store, pid, "\n## WARNING: ", " consecutive fails \u{2014} redirect needed\n");
    let ghost s4 = out@;
    push_recent_findings(&mut out, store);
    proof {
        assert(views(phases@).len() == phases@.len());
        assert(out@ =~= handoff_doc(v, proj, order));
    }
    Some(out)
}

} // verus!
