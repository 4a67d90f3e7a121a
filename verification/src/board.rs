//! The dashboard that the command line prints: for each active top-level
//! project its phase under way (else its next pending phase) with a short
//! account of that phase, and its paused phase; a project with active
//! subprojects gets a heading with a line per subproject.
use vstd::prelude::*;
use crate::text::{push_str, push_i64, push_usize, take_chars, dec_int, dec_nat, prefix};
use crate::store::{Store, StoreView, Project, Phase, PhaseView, PhaseStatus, Experiment, ExperimentStatus, Finding,
    Hypothesis, child_of, experiment_in, finding_in, hypothesis_in, experiment_of_project};
use crate::dag::{DagEngine, actionable, ranks_le, next_phases_of, views, fail_streak};
use crate::mcp::finding::first_n;
use crate::mcp::context::{with_status, proposed, latest_index, count_status, latest_index_exec};
use crate::mcp::repair::{collect, lemma_collect_step, lemma_take_all, exp_findings, collect_findings, push_line};
use crate::mcp::projects::joined;
use crate::mcp::dashboard::{is_active, is_top_level, progress_word, filter_projects, project_filter, lemma_filter_filter,
    lemma_same_phase, lemma_fail_streak_len};
use crate::mcp::common::views as text_views;

verus! {

broadcast use vstd::seq_lib::group_seq_properties;

// ---------------------------------------------------------------- phase account

/// How a pending experiment is named in a phase account: its id, and how
/// many findings it has when it has any.
pub open spec fn pending_name(v: StoreView) -> spec_fn(Experiment) -> Option<Seq<char>> {
    |e: Experiment| if e.status == ExperimentStatus::Pending {
        let fc = v.findings.filter(finding_in(Some(e.id))).len();
        Some("E#"@ + dec_int(e.id as int) + if fc > 0 { " ("@ + dec_nat(fc) + " findings)"@ } else { Seq::empty() })
    } else {
        None
    }
}

/// The experiment tally of a phase; nothing when it has no experiment that
/// is pending, passed or failed.
pub open spec fn tally_part(es: Seq<Experiment>) -> Seq<char> {
    let np = es.filter(with_status(ExperimentStatus::Pending)).len();
    let npa = es.filter(with_status(ExperimentStatus::Pass)).len();
    let nf = es.filter(with_status(ExperimentStatus::Fail)).len();
    if np + npa + nf > 0 {
        "\n      Experiments: "@ + dec_nat(np) + " pending, "@ + dec_nat(npa) + " pass, "@ + dec_nat(nf) + " fail"@
            + if np == 0 { " -- REVIEW NEEDED (all resolved)"@ } else { Seq::empty() }
    } else {
        Seq::empty()
    }
}

/// The pending experiments of a phase, the first four by name.
pub open spec fn pending_part(names: Seq<Seq<char>>) -> Seq<char> {
    if names.len() == 0 {
        Seq::empty()
    } else if names.len() == 1 {
        "\n      Pending: "@ + names[0]
    } else {
        "\n      Pending ("@ + dec_nat(names.len()) + "): "@ + joined(first_n(names, 4), ", "@)
            + if names.len() > 4 { ", +"@ + dec_nat((names.len() - 4) as nat) + " more"@ } else { Seq::empty() }
    }
}

/// The number of hypotheses of a phase still untested; nothing when none.
pub open spec fn untested_part(n: nat) -> Seq<char> {
    if n > 0 { "\n      "@ + dec_nat(n) + " untested hypothesis(es)"@ } else { Seq::empty() }
}

/// The latest of the findings `fs`; nothing when there are none.
pub open spec fn latest_part(fs: Seq<Finding>) -> Seq<char> {
    if fs.len() > 0 {
        let f = fs[latest_index(fs)];
        "\n      Latest: F#"@ + dec_int(f.id as int) + " "@ + prefix(f.text@, 80)
    } else {
        Seq::empty()
    }
}

/// The account of phase `pid`: its experiment tally, its pending
/// experiments, its untested hypotheses and its latest finding.
pub open spec fn phase_context(v: StoreView, pid: i64) -> Seq<char> {
    let es = v.experiments.filter(experiment_in(Some(pid)));
    tally_part(es) + pending_part(collect(es, pending_name(v)))
        + untested_part(v.hypotheses.filter(hypothesis_in(Some(pid))).filter(proposed()).len())
        + latest_part(exp_findings(v, es))
}

fn push_tally_part(out: &mut String, es: &Vec<Experiment>)
    ensures
        final(out)@ == old(out)@ + tally_part(es@),
{
    let np = count_status(es, ExperimentStatus::Pending);
    let npa = count_status(es, ExperimentStatus::Pass);
    let nf = count_status(es, ExperimentStatus::Fail);
    if np > 0 || npa > 0 || nf > 0 {
        push_str(out, "\n      Experiments: ");
        push_usize(out, np);
        push_str(out, " pending, ");
        push_usize(out, npa);
        push_str(out, " pass, ");
        push_usize(out, nf);
        push_str(out, " fail");
        if np == 0 {
            push_str(out, " -- REVIEW NEEDED (all resolved)");
        }
    }
    proof { assert(out@ =~= old(out)@ + tally_part(es@)); }
}

fn pending_names(store: &Store, es: &Vec<Experiment>) -> (r: Vec<String>)
    requires
        store.wf(),
    ensures
        text_views(r@) == collect(es@, pending_name(store@)),
{
    let ghost v = store@;
    let mut r: Vec<String> = Vec::new();
    let mut i: usize = 0;
    proof { assert(text_views(r@) =~= collect(es@.take(0), pending_name(v))); }
    while i < es.len()
        invariant
            store.wf(),
            v == store@,
            i <= es@.len(),
            text_views(r@) == collect(es@.take(i as int), pending_name(v)),
        decreases es@.len() - i,
    {
        proof { lemma_collect_step(es@, pending_name(v), i as int); }
        let e = &es[i];
        if e.status == ExperimentStatus::Pending {
            let fc = match store.list_findings(Some(e.id)) { Ok(x) => x.len(), Err(_) => 0 };
            let mut l = String::new();
            push_str(&mut l, "E#");
            push_i64(&mut l, e.id);
            if fc > 0 {
                push_str(&mut l, " (");
                push_usize(&mut l, fc);
                push_str(&mut l, " findings)");
            }
            proof {
                let want = "E#"@ + dec_int(e.id as int)
                    + if fc > 0 { " ("@ + dec_nat(fc as nat) + " findings)"@ } else { Seq::<char>::empty() };
                assert(l@ =~= want);
            }
            push_line(&mut r, l);
        }
        i = i + 1;
    }
    proof { lemma_take_all(es@); }
    r
}

fn push_joined(out: &mut String, parts: &Vec<String>, n: usize, sep: &str)
    requires
        n <= parts@.len(),
    ensures
        final(out)@ == old(out)@ + joined(text_views(parts@).take(n as int), sep@),
{
    let ghost ps = text_views(parts@);
    let mut i: usize = 0;
    while i < n
        invariant
            ps == text_views(parts@),
            n <= parts@.len(),
            i <= n,
            out@ == old(out)@ + joined(ps.take(i as int), sep@),
        decreases n - i,
    {
        if i > 0 {
            push_str(out, sep);
        }
        push_str(out, parts[i].as_str());
        proof {
            let t = ps.take(i + 1);
            if i == 0 {
                assert(t.len() == 1);
                assert(joined(ps.take(0), sep@) =~= Seq::<char>::empty());
            } else {
                assert(t.drop_last() =~= ps.take(i as int));
            }
            assert(out@ =~= old(out)@ + joined(t, sep@));
        }
        i = i + 1;
    }
}

fn push_pending_part(out: &mut String, names: &Vec<String>)
    ensures
        final(out)@ == old(out)@ + pending_part(text_views(names@)),
{
    let ghost ns = text_views(names@);
    if names.len() == 0 {
        proof { assert(out@ =~= old(out)@ + pending_part(ns)); }
    } else if names.len() == 1 {
        push_str(out, "\n      Pending: ");
        push_str(out, names[0].as_str());
        proof { assert(out@ =~= old(out)@ + pending_part(ns)); }
    } else {
        push_str(out, "\n      Pending (");
        push_usize(out, names.len());
        push_str(out, "): ");
        let n: usize = if names.len() < 4 { names.len() } else { 4 };
        push_joined(out, names, n, ", ");
        proof { assert(ns.take(n as int) =~= first_n(ns, 4)); }
        if names.len() > 4 {
            push_str(out, ", +");
            push_usize(out, names.len() - 4);
            push_str(out, " more");
        }
        proof { assert(out@ =~= old(out)@ + pending_part(ns)); }
    }
}

fn count_proposed(hs: &Vec<Hypothesis>) -> (n: usize)
    ensures
        n == hs@.filter(proposed()).len(),
{
    let mut n: usize = 0;
    let mut i: usize = 0;
    while i < hs.len()
        invariant
            i <= hs@.len(),
            n == hs@.take(i as int).filter(proposed()).len(),
            n <= i,
        decreases hs@.len() - i,
    {
        proof {
            assert(hs@.take(i + 1) =~= hs@.take(i as int).push(hs@[i as int]));
            hs@.take(i as int).lemma_filter_push(hs@[i as int], proposed());
        }
        if hs[i].status == crate::store::HypothesisStatus::Proposed {
            n = n + 1;
        }
        i = i + 1;
    }
    proof { lemma_take_all(hs@); }
    n
}

/// The account of a phase as the dashboard shows it under the phase's
/// line: its experiment tally, its pending experiments (the first four by
/// name), its untested hypotheses, and its latest finding; see
/// `phase_context`.
pub fn dashboard_phase_context(store: &Store, phase_id: i64) -> (ctx: String)
    requires
        store.wf(),
    ensures
        ctx@ == phase_context(store@, phase_id),
{
    let ghost v = store@;
    let es = match store.list_experiments(Some(phase_id)) { Ok(x) => x, Err(_) => Vec::new() };
    let mut ctx = String::new();
    push_tally_part(&mut ctx, &es);
    let names = pending_names(store, &es);
    push_pending_part(&mut ctx, &names);
    let hs = match store.list_hypotheses(Some(phase_id)) { Ok(x) => x, Err(_) => Vec::new() };
    let untested = count_proposed(&hs);
    if untested > 0 {
        push_str(&mut ctx, "\n      ");
        push_usize(&mut ctx, untested);
        push_str(&mut ctx, " untested hypothesis(es)");
    }
    let ghost s3 = ctx@;
    let fs = collect_findings(store, &es);
    if fs.len() > 0 {
        let k = latest_index_exec(&fs);
        proof { crate::mcp::context::lemma_latest_index(fs@); }
        push_str(&mut ctx, "\n      Latest: F#");
        push_i64(&mut ctx, fs[k].id);
        push_str(&mut ctx, " ");
        let t = take_chars(fs[k].text.as_str(), 80);
        push_str(&mut ctx, t.as_str());
    }
    proof {
        assert(ctx@ =~= s3 + latest_part(fs@));
        assert(ctx@ =~= phase_context(v, phase_id));
    }
    ctx
}

// ---------------------------------------------------------------- picks

/// `p` is an actionable phase of `ps` of status `st` that ranks no lower
/// than any other actionable phase of that status.
pub open spec fn is_top_with(ps: Seq<PhaseView>, st: PhaseStatus, p: PhaseView) -> bool {
    &&& ps.filter(actionable(ps)).contains(p)
    &&& p.status == st
    &&& forall|q: PhaseView| ps.filter(actionable(ps)).contains(q) && q.status == st ==> ranks_le(p, q)
}

/// The highest-ranked actionable phase of `ps` of status `st`, if any.
pub open spec fn top_with(ps: Seq<PhaseView>, st: PhaseStatus) -> Option<PhaseView> {
    if exists|p: PhaseView| is_top_with(ps, st, p) {
        Some(choose|p: PhaseView| is_top_with(ps, st, p))
    } else {
        None
    }
}

/// The phase the dashboard shows for a project: its highest-ranked phase
/// under way, else its highest-ranked pending phase.
pub open spec fn board_top(ps: Seq<PhaseView>) -> Option<PhaseView> {
    match top_with(ps, PhaseStatus::InProgress) {
        Some(p) => Some(p),
        None => top_with(ps, PhaseStatus::Pending),
    }
}

proof fn lemma_first_with(v: StoreView, pid: i64, out: Seq<PhaseView>, st: PhaseStatus, k: int)
    requires
        v.wf(),
        next_phases_of(v.phases_of(pid), out),
        0 <= k <= out.len(),
        forall|j: int| 0 <= j < k ==> #[trigger] out[j].status != st,
        k < out.len() ==> out[k].status == st,
    ensures
        k < out.len() ==> top_with(v.phases_of(pid), st) == Some(out[k]),
        k == out.len() ==> top_with(v.phases_of(pid), st) is None,
{
    let ps = v.phases_of(pid);
    let f = ps.filter(actionable(ps));
    assert forall|x: PhaseView| #[trigger] f.contains(x) == out.contains(x) by {
        assert(out.to_multiset().count(x) == f.to_multiset().count(x));
        out.to_multiset_ensures();
        f.to_multiset_ensures();
    }
    if k < out.len() {
        let p = out[k];
        assert(out.contains(p));
        assert forall|q: PhaseView| f.contains(q) && q.status == st implies ranks_le(p, q) by {
            assert(out.contains(q));
            let j = choose|j: int| 0 <= j < out.len() && out[j] == q;
            if j > k {
                assert(ranks_le(out[k], out[j]));
            }
        }
        assert(is_top_with(ps, st, p));
        let t = choose|t: PhaseView| is_top_with(ps, st, t);
        assert(ranks_le(t, p) && ranks_le(p, t));
        assert(f.contains(t));
        lemma_same_phase(v, pid, t, p);
    } else {
        assert forall|p: PhaseView| !is_top_with(ps, st, p) by {
            if f.contains(p) && p.status == st {
                assert(out.contains(p));
                let j = choose|j: int| 0 <= j < out.len() && out[j] == p;
                assert(out[j].status != st);
            }
        }
    }
}

fn first_with(next: &Vec<Phase>, st: PhaseStatus) -> (r: usize)
    ensures
        r <= next@.len(),
        forall|j: int| 0 <= j < r ==> #[trigger] views(next@)[j].status != st,
        r < next@.len() ==> views(next@)[r as int].status == st,
{
    let mut i: usize = 0;
    while i < next.len()
        invariant
            i <= next@.len(),
            forall|j: int| 0 <= j < i ==> #[trigger] views(next@)[j].status != st,
        decreases next@.len() - i,
    {
        if next[i].status == st {
            return i;
        }
        i = i + 1;
    }
    i
}

/// The phase that the dashboard shows for project `pid`, and its paused
/// phase.
fn board_picks(store: &Store, pid: i64) -> (r: (Option<Phase>, Option<Phase>))
    requires
        store.wf(),
    ensures
        match r.0 {
            Some(t) => board_top(store@.phases_of(pid)) == Some(t@),
            None => board_top(store@.phases_of(pid)) is None,
        },
        match r.1 {
            Some(t) => top_with(store@.phases_of(pid), PhaseStatus::Paused) == Some(t@),
            None => top_with(store@.phases_of(pid), PhaseStatus::Paused) is None,
        },
{
    let ghost v = store@;
    let dag = DagEngine::new(store, pid);
    let next = match dag.next_phases() { Ok(n) => n, Err(_) => Vec::new() };
    let ghost out = views(next@);
    proof { assert(next_phases_of(v.phases_of(pid), out)); }
    let a = first_with(&next, PhaseStatus::InProgress);
    proof { lemma_first_with(v, pid, out, PhaseStatus::InProgress, a as int); }
    let top = if a < next.len() {
        Some(next[a].dup())
    } else {
        let b = first_with(&next, PhaseStatus::Pending);
        proof { lemma_first_with(v, pid, out, PhaseStatus::Pending, b as int); }
        if b < next.len() { Some(next[b].dup()) } else { None }
    };
    let c = first_with(&next, PhaseStatus::Paused);
    proof { lemma_first_with(v, pid, out, PhaseStatus::Paused, c as int); }
    let paused = if c < next.len() { Some(next[c].dup()) } else { None };
    (top, paused)
}

// ---------------------------------------------------------------- board

/// The line of phase `t` of the project labelled `label`, followed by
/// `ctx`.
pub open spec fn head_line(label: Seq<char>, t: PhaseView, ctx: Seq<char>) -> Seq<char> {
    "  ["@ + label + "] "@ + progress_word(t) + " #"@ + dec_int(t.id as int) + " [impact:"@ + dec_int(t.impact as int)
        + "] "@ + t.name + ctx + "\n"@
}

/// The line of the paused phase `p` of the project labelled `label`.
pub open spec fn paused_line(label: Seq<char>, p: PhaseView) -> Seq<char> {
    "  ["@ + label + "] PAUSED #"@ + dec_int(p.id as int) + " [impact:"@ + dec_int(p.impact as int) + "] "@ + p.name
        + "\n"@
}

/// The line of the phase shown for project `pid` labelled `label`, with the
/// phase's account when `with_ctx`; nothing when it has none.
pub open spec fn top_part(v: StoreView, label: Seq<char>, pid: i64, with_ctx: bool) -> Seq<char> {
    match board_top(v.phases_of(pid)) {
        Some(t) => head_line(label, t, if with_ctx { phase_context(v, t.id) } else { Seq::empty() }),
        None => Seq::empty(),
    }
}

/// The line of the paused phase of project `pid`; nothing when it has none.
pub open spec fn paused_part(v: StoreView, label: Seq<char>, pid: i64) -> Seq<char> {
    match top_with(v.phases_of(pid), PhaseStatus::Paused) {
        Some(p) => paused_line(label, p),
        None => Seq::empty(),
    }
}

/// The lines of the subprojects `subs` of the project named `parent`.
pub open spec fn sub_part(v: StoreView, parent: Seq<char>, subs: Seq<Project>) -> Seq<char>
    decreases subs.len(),
{
    if subs.len() == 0 {
        Seq::empty()
    } else {
        let label = parent + "/"@ + subs.last().name@;
        sub_part(v, parent, subs.drop_last()) + top_part(v, label, subs.last().id, false)
            + paused_part(v, label, subs.last().id)
    }
}

/// The block of top-level project `p`: its lines when it has no active
/// subprojects, otherwise a heading, its own line, the lines of each
/// active subproject and a blank line.
pub open spec fn board_block(v: StoreView, p: Project) -> Seq<char> {
    let subs = v.projects.filter(is_active()).filter(child_of(p.id));
    if subs.len() == 0 {
        top_part(v, p.name@, p.id, true) + paused_part(v, p.name@, p.id)
    } else {
        "## "@ + p.name@ + "\n"@ + top_part(v, p.name@, p.id, false) + sub_part(v, p.name@, subs) + "\n"@
    }
}

/// The blocks of the projects `ps`.
pub open spec fn board_blocks(v: StoreView, ps: Seq<Project>) -> Seq<char>
    decreases ps.len(),
{
    if ps.len() == 0 {
        Seq::empty()
    } else {
        board_blocks(v, ps.drop_last()) + board_block(v, ps.last())
    }
}

/// The dashboard of store `v`: a block per active top-level project, in
/// creation order.
pub open spec fn board_text(v: StoreView) -> Seq<char> {
    "=== Cross-Project Dashboard ===\n\n"@ + board_blocks(v, v.projects.filter(is_active()).filter(is_top_level()))
        + "\n## ACTION: Execute the highest-impact item above.\n"@
}

#[verifier::rlimit(50)]
fn push_top_part(out: &mut String, store: &Store, label: &str, pid: i64, with_ctx: bool, top: &Option<Phase>)
    requires
        store.wf(),
        match *top {
            Some(t) => board_top(store@.phases_of(pid)) == Some(t@),
            None => board_top(store@.phases_of(pid)) is None,
        },
    ensures
        final(out)@ == old(out)@ + top_part(store@, label@, pid, with_ctx),
{
    match top {
        Some(t) => {
            push_str(out, "  [");
            push_str(out, label);
            push_str(out, "] ");
            push_str(out, if t.status == PhaseStatus::InProgress { "IN-PROGRESS" } else { "NEXT" });
            push_str(out, " #");
            push_i64(out, t.id);
            push_str(out, " [impact:");
            push_i64(out, t.impact as i64);
            push_str(out, "] ");
            push_str(out, t.name.as_str());
            let ghost mid = out@;
            if with_ctx {
                let c = dashboard_phase_context(store, t.id);
                push_str(out, c.as_str());
            }
            proof {
                assert(out@ =~= mid + if with_ctx { phase_context(store@, t@.id) } else { Seq::<char>::empty() });
            }
            push_str(out, "\n");
            proof { assert(out@ =~= old(out)@ + top_part(store@, label@, pid, with_ctx)); }
        },
        None => {
            proof { assert(out@ =~= old(out)@ + top_part(store@, label@, pid, with_ctx)); }
        },
    }
}

fn push_paused_part(out: &mut String, store: &Store, label: &str, pid: i64, paused: &Option<Phase>)
    requires
        store.wf(),
        match *paused {
            Some(t) => top_with(store@.phases_of(pid), PhaseStatus::Paused) == Some(t@),
            None => top_with(store@.phases_of(pid), PhaseStatus::Paused) is None,
        },
    ensures
        final(out)@ == old(out)@ + paused_part(store@, label@, pid),
{
    match paused {
        Some(t) => {
            push_str(out, "  [");
            push_str(out, label);
            push_str(out, "] PAUSED #");
            push_i64(out, t.id);
            push_str(out, " [impact:");
            push_i64(out, t.impact as i64);
            push_str(out, "] ");
            push_str(out, t.name.as_str());
            push_str(out, "\n");
            proof { assert(out@ =~= old(out)@ + paused_part(store@, label@, pid)); }
        },
        None => {
            proof { assert(out@ =~= old(out)@ + paused_part(store@, label@, pid)); }
        },
    }
}

fn push_sub_part(out: &mut String, store: &Store, parent: &str, subs: &Vec<Project>)
    requires
        store.wf(),
    ensures
        final(out)@ == old(out)@ + sub_part(store@, parent@, subs@),
{
    let ghost v = store@;
    let mut k: usize = 0;
    while k < subs.len()
        invariant
            store.wf(),
            v == store@,
            k <= subs@.len(),
            out@ == old(out)@ + sub_part(v, parent@, subs@.take(k as int)),
        decreases subs@.len() - k,
    {
        let mut label = String::new();
        push_str(&mut label, parent);
        push_str(&mut label, "/");
        push_str(&mut label, subs[k].name.as_str());
        let (top, paused) = board_picks(store, subs[k].id);
        push_top_part(out, store, label.as_str(), subs[k].id, false, &top);
        push_paused_part(out, store, label.as_str(), subs[k].id, &paused);
        proof {
            assert(subs@.take(k + 1).drop_last() =~= subs@.take(k as int));
            assert(label@ =~= parent@ + "/"@ + subs@[k as int].name@);
            assert(out@ =~= old(out)@ + sub_part(v, parent@, subs@.take(k + 1)));
        }
        k = k + 1;
    }
    proof { lemma_take_all(subs@); }
}

/// The dashboard that the command line prints; see `board_text`.  The
/// store is not changed.
#[verifier::rlimit(60)]
#[verifier::spinoff_prover]
pub fn board_report(store: &Store) -> (out: String)
    requires
        store.wf(),
    ensures
        out@ == board_text(store@),
{
    let ghost v = store@;
    let projects = match store.list_projects() { Ok(p) => p, Err(_) => Vec::new() };
    let parents = filter_projects(&projects, true, true, None);
    let ghost tops = v.projects.filter(is_active()).filter(is_top_level());
    proof {
        lemma_filter_filter(v.projects, is_active(), is_top_level(), project_filter(true, true, None));
    }
    let mut out = String::new();
    push_str(&mut out, "=== Cross-Project Dashboard ===\n\n");
    let ghost base = out@;
    let mut i: usize = 0;
    while i < parents.len()
        invariant
            store.wf(),
            v == store@,
            projects@ == v.projects,
            parents@ == tops,
            tops == v.projects.filter(is_active()).filter(is_top_level()),
            i <= parents@.len(),
            out@ == base + board_blocks(v, tops.take(i as int)),
        decreases parents@.len() - i,
    {
        let p = &parents[i];
        let subs = filter_projects(&projects, true, false, Some(p.id));
        proof {
            lemma_filter_filter(v.projects, is_active(), child_of(p.id), project_filter(true, false, Some(p.id)));
            assert(tops.take(i + 1).drop_last() =~= tops.take(i as int));
        }
        let ghost before = out@;
        let (top, paused) = board_picks(store, p.id);
        if subs.len() == 0 {
            push_top_part(&mut out, store, p.name.as_str(), p.id, true, &top);
            push_paused_part(&mut out, store, p.name.as_str(), p.id, &paused);
        } else {
            push_str(&mut out, "## ");
            push_str(&mut out, p.name.as_str());
            push_str(&mut out, "\n");
            push_top_part(&mut out, store, p.name.as_str(), p.id, false, &top);
            push_sub_part(&mut out, store, p.name.as_str(), &subs);
            push_str(&mut out, "\n");
        }
        proof {
            assert(out@ =~= before + board_block(v, tops[i as int]));
            assert(out@ =~= base + board_blocks(v, tops.take(i + 1)));
        }
        i = i + 1;
    }
    push_str(&mut out, "\n## ACTION: Execute the highest-impact item above.\n");
    proof {
        lemma_take_all(tops);
        assert(out@ =~= board_text(v));
    }
    out
}

// ---------------------------------------------------------------- next

/// The line of a next phase.
pub open spec fn next_line(p: PhaseView) -> Seq<char> {
    "  "@ + progress_word(p) + " #"@ + dec_int(p.id as int) + " [impact:"@ + dec_int(p.impact as int) + "] "@ + p.name
        + "\n"@
}

/// The lines of the phases `ps`.
pub open spec fn next_lines(ps: Seq<PhaseView>) -> Seq<char>
    decreases ps.len(),
{
    if ps.len() == 0 { Seq::empty() } else { next_lines(ps.drop_last()) + next_line(ps.last()) }
}

/// The warning that the last `n` experiments of a project all failed;
/// nothing under three.
pub open spec fn streak_warning(n: nat) -> Seq<char> {
    if n >= 3 {
        "\n  WARNING: STAGNATION \u{2014} "@ + dec_nat(n) + " consecutive failed experiments\n"@
    } else {
        Seq::empty()
    }
}

/// The next phases of project `pid` that the command line prints, `order`
/// being its ranked next phases: the first three, the stagnation warning,
/// and the call to action.
pub open spec fn next_report_text(v: StoreView, pid: i64, order: Seq<PhaseView>) -> Seq<char> {
    "=== Next Phases (by impact) ===\n\n"@ + next_lines(first_n(order, 3))
        + streak_warning(fail_streak(v.experiments.filter(experiment_of_project(v, pid))))
        + "\n## ACTION: Execute the top phase.\n"@
}

/// The next phases of project `pid` as the command line prints them; see
/// `next_report_text`.  The store is not changed.
pub fn next_report(store: &Store, pid: i64) -> (out: String)
    requires
        store.wf(),
    ensures
        exists|order: Seq<PhaseView>| #[trigger] next_phases_of(store@.phases_of(pid), order)
            && out@ == next_report_text(store@, pid, order),
{
    let ghost v = store@;
    let dag = DagEngine::new(store, pid);
    let next = match dag.next_phases() { Ok(n) => n, Err(_) => Vec::new() };
    let ghost order = views(next@);
    proof { assert(next_phases_of(v.phases_of(pid), order)); }
    let mut out = String::new();
    push_str(&mut out, "=== Next Phases (by impact) ===\n\n");
    let ghost head = out@;
    let n: usize = if next.len() < 3 { next.len() } else { 3 };
    let ghost top = first_n(order, 3);
    let mut i: usize = 0;
    while i < n
        invariant
            order == views(next@),
            top == first_n(order, 3),
            n == top.len(),
            n <= next@.len(),
            i <= n,
            out@ == head + next_lines(top.take(i as int)),
        decreases n - i,
    {
        proof {
            assert(top.take(i + 1).drop_last() =~= top.take(i as int));
            assert(top[i as int] == next@[i as int]@);
        }
        let p = &next[i];
        push_str(&mut out, "  ");
        push_str(&mut out, if p.status == PhaseStatus::InProgress { "IN-PROGRESS" } else { "NEXT" });
        push_str(&mut out, " #");
        push_i64(&mut out, p.id);
        push_str(&mut out, " [impact:");
        push_i64(&mut out, p.impact as i64);
        push_str(&mut out, "] ");
        push_str(&mut out, p.name.as_str());
        push_str(&mut out, "\n");
        proof { assert(out@ =~= head + next_lines(top.take(i + 1))); }
        i = i + 1;
    }
    proof { lemma_take_all(top); }
    let ghost s2 = out@;
    let ghost es = v.experiments.filter(experiment_of_project(v, pid));
    let all = match store.list_project_experiments(pid) { Ok(x) => x, Err(_) => Vec::new() };
    let count = all.len();
    proof {
        lemma_fail_streak_len(es);
        assert(all@.len() == es.len());
        assert(fail_streak(es) <= count);
        assert(dag.experiments() == es);
    }
    match dag.stagnation_check(3) {
        Ok(Some(k)) => {
            push_str(&mut out, "\n  WARNING: STAGNATION \u{2014} ");
            push_usize(&mut out, k);
            push_str(&mut out, " consecutive failed experiments\n");
        },
        _ => {},
    }
    proof { assert(out@ =~= s2 + streak_warning(fail_streak(es))); }
    push_str(&mut out, "\n## ACTION: Execute the top phase.\n");
    proof {
        assert(out@ =~= next_report_text(v, pid, order));
    }
    out
}

} // verus!
