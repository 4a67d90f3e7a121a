//! The start of a work session across all active projects: for each, its
//! first three workable phases with their pending experiments written as
//! numbered tasks, then the findings that no edge touches, then a
//! knowledge briefing per project.
use vstd::prelude::*;
use crate::text::{push_str, push_i64, push_usize, push_u128, take_chars, dec_int, dec_nat, prefix};
use crate::store::{Store, StoreView, Phase, PhaseView, Experiment, Finding, NodeType, ExperimentStatus, PhaseStatus,
    Project, ProjectStatus, experiment_in};
use crate::dag::{DagEngine, next_phases_of, views};
use crate::mcp::finding::first_n;
use crate::mcp::nodes::{is_pending, pending_experiments};
use crate::mcp::context::{with_status, briefing, active_of, count_status, active_index, push_briefing};
use vstd::string::StrSliceExecFns;
use crate::mcp::repair::{collect, lemma_collect_step, lemma_take_all, line_block, push_line};
use crate::mcp::review::{orphans_of, lemma_orphan_kinds};
use crate::mcp::common::views as text_views;

verus! {

broadcast use vstd::seq_lib::group_seq_properties;

/// How a project is named in a session start: under its parent, when it
/// has one that exists.
pub open spec fn project_label(v: StoreView, p: Project) -> Seq<char> {
    match p.parent_id {
        Some(x) => match v.project(x) {
            Some(pp) => pp.name@ + "/"@ + p.name@,
            None => p.name@,
        },
        None => p.name@,
    }
}

/// A phase a session may work on: in progress or pending.
pub open spec fn workable() -> spec_fn(PhaseView) -> bool {
    |p: PhaseView| p.status == PhaseStatus::InProgress || p.status == PhaseStatus::Pending
}

/// The status of a workable phase in a session start.
pub open spec fn start_status(p: PhaseView) -> Seq<char> {
    if p.status == PhaseStatus::InProgress {
        "IN-PROGRESS"@
    } else if p.status == PhaseStatus::Paused {
        "PAUSED"@
    } else {
        "NEXT"@
    }
}

/// What a task is about, as its description says.
pub open spec fn task_description(ph: PhaseView, e: Experiment) -> Seq<char> {
    "Phase #"@ + dec_int(ph.id as int) + " ("@ + ph.name + "). "@
        + (match e.notes { Some(t) => t@, None => "Execute experiment and record findings."@ })
}

/// The first lines of task number `n`: experiment `e` of phase `ph`.
pub open spec fn task_head(ph: PhaseView, e: Experiment, n: nat) -> Seq<char> {
    "  TASK "@ + dec_nat(n) + ": Exp #"@ + dec_int(e.id as int) + " \u{2014} "@ + e.name@ + "\n"@
        + "    Status: pending | Phase: #"@ + dec_int(ph.id as int) + " ("@ + ph.name + ")\n"@
        + (match e.notes { Some(t) => "    "@ + prefix(t@, 150) + "\n"@, None => Seq::empty() })
}

/// The line that hands the task of experiment `e` of project `name` to a
/// task tracker.
pub open spec fn task_create_line(name: Seq<char>, ph: PhaseView, e: Experiment) -> Seq<char> {
    "    -> TaskCreate: subject=\""@ + name + " Exp #"@ + dec_int(e.id as int) + ": "@ + e.name@
        + "\" description=\""@ + prefix(task_description(ph, e), 200) + "\"\n\n"@
}

/// Task number `n`: pending experiment `e` of phase `ph` of project `name`.
pub open spec fn task_block(name: Seq<char>, ph: PhaseView, e: Experiment, n: nat) -> Seq<char> {
    task_head(ph, e, n) + task_create_line(name, ph, e)
}

/// The tasks of the experiments `es`, numbered from `t0 + 1`.
pub open spec fn task_blocks(name: Seq<char>, ph: PhaseView, es: Seq<Experiment>, t0: nat) -> Seq<char>
    decreases es.len(),
{
    if es.len() == 0 {
        Seq::empty()
    } else {
        task_blocks(name, ph, es.drop_last(), t0) + task_block(name, ph, es.last(), t0 + es.len())
    }
}

/// The block of a workable phase: its heading, its experiment counts, and
/// its first five pending experiments as tasks numbered from `t0 + 1`.
pub open spec fn phase_block(v: StoreView, label: Seq<char>, name: Seq<char>, ph: PhaseView, t0: nat) -> Seq<char> {
    let es = v.experiments.filter(experiment_in(Some(ph.id)));
    let pend = pending_experiments(v, ph.id);
    "## ["@ + label + "] Phase #"@ + dec_int(ph.id as int) + " [impact:"@ + dec_int(ph.impact as int) + "] "@
        + ph.name + "\n"@
        + "  Status: "@ + start_status(ph) + " | Experiments: "@ + dec_nat(pend.len()) + " pending, "@
        + dec_nat(es.filter(with_status(ExperimentStatus::Pass)).len()) + " pass, "@
        + dec_nat(es.filter(with_status(ExperimentStatus::Fail)).len()) + " fail\n\n"@
        + if pend.len() == 0 {
            "  -> This phase has no pending experiments. Use pm_scaffold to create tasks.\n\n"@
        } else {
            task_blocks(name, ph, first_n(pend, 5), t0)
        }
}

/// The blocks of the phases `phs`, tasks numbered on from `t0 + 1`, and
/// the number of the last task.
pub open spec fn phase_blocks(v: StoreView, label: Seq<char>, name: Seq<char>, phs: Seq<PhaseView>, t0: nat) -> (Seq<char>, nat)
    decreases phs.len(),
{
    if phs.len() == 0 {
        (Seq::empty(), t0)
    } else {
        let (txt, t) = phase_blocks(v, label, name, phs.drop_last(), t0);
        (txt + phase_block(v, label, name, phs.last(), t), t + first_n(pending_experiments(v, phs.last().id), 5).len())
    }
}

/// The line of a finding that no edge touches.
pub open spec fn stray_line(v: StoreView) -> spec_fn(i64) -> Option<Seq<char>> {
    |id: i64| match v.finding(id) {
        Some(f) => Some("  F#"@ + dec_int(f.id as int) + ": "@ + prefix(f.text@, 80)),
        None => None,
    }
}

/// The lines of the first five findings of project `pid` that no edge
/// touches.
pub open spec fn stray_lines(v: StoreView, pid: i64) -> Seq<Seq<char>> {
    collect(first_n(orphans_of(v, pid, NodeType::Finding), 5), stray_line(v))
}

/// The task text, the last task number and the stray-finding lines of the
/// projects `ps`, `orders[k]` being the ranked next phases of the `k`-th.
pub open spec fn start_state(v: StoreView, ps: Seq<Project>, orders: Seq<Seq<PhaseView>>) -> (Seq<char>, nat, Seq<Seq<char>>)
    decreases ps.len(),
{
    if ps.len() == 0 {
        (Seq::empty(), 0, Seq::empty())
    } else {
        let (txt, t, strays) = start_state(v, ps.drop_last(), orders.drop_last());
        let p = ps.last();
        if p.status != ProjectStatus::Active {
            (txt, t, strays)
        } else {
            let acts = first_n(orders.last().filter(workable()), 3);
            let (b, t2) = phase_blocks(v, project_label(v, p), p.name@, acts, t);
            (txt + b, t2, strays + stray_lines(v, p.id))
        }
    }
}

/// The knowledge briefings of the active projects among `ps` that have a
/// phase to work on.
pub open spec fn briefings(v: StoreView, ps: Seq<Project>, orders: Seq<Seq<PhaseView>>) -> Seq<char>
    decreases ps.len(),
{
    if ps.len() == 0 {
        Seq::empty()
    } else {
        let p = ps.last();
        briefings(v, ps.drop_last(), orders.drop_last()) + if p.status == ProjectStatus::Active {
            match active_of(orders.last()) {
                Some(a) => briefing(v, p, a),
                None => Seq::empty(),
            }
        } else {
            Seq::empty()
        }
    }
}

/// The session start of store `v`, `orders[k]` being the ranked next
/// phases of its `k`-th project.
pub open spec fn session_start_text(v: StoreView, orders: Seq<Seq<PhaseView>>) -> Seq<char> {
    let (txt, _t, strays) = start_state(v, v.projects, orders);
    let body = txt + if strays.len() > 0 {
        "--- Orphaned Findings (no KG edges) ---\n\n"@ + line_block(strays)
            + "\n  -> Link these to experiments/hypotheses with pm_add_edge.\n\n"@
    } else {
        Seq::empty()
    };
    let br = briefings(v, v.projects, orders);
    if body.len() == 0 && br.len() == 0 {
        "No pending tasks in actionable phases."@
    } else {
        "=== Session Init: Actionable Tasks ===\n\n"@ + body + "Create these as task tracker items and work through them."@
            + br
    }
}

/// `orders[k]` ranks the next phases of every active project `k` of `v`.
pub open spec fn ranks_active(v: StoreView, orders: Seq<Seq<PhaseView>>) -> bool {
    &&& orders.len() == v.projects.len()
    &&& forall|k: int| 0 <= k < v.projects.len() && v.projects[k].status == ProjectStatus::Active
        ==> next_phases_of(v.phases_of(v.projects[k].id), #[trigger] orders[k])
}

// ---------------------------------------------------------------- tasks

fn push_task_head(out: &mut String, ph: &Phase, e: &Experiment, n: u128)
    ensures
        final(out)@ == old(out)@ + task_head(ph@, *e, n as nat),
{
    push_str(out, "  TASK ");
    push_u128(out, n);
    push_str(out, ": Exp #");
    push_i64(out, e.id);
    push_str(out, " \u{2014} ");
    push_str(out, e.name.as_str());
    push_str(out, "\n");
    push_str(out, "    Status: pending | Phase: #");
    push_i64(out, ph.id);
    push_str(out, " (");
    push_str(out, ph.name.as_str());
    push_str(out, ")\n");
    let ghost s1 = out@;
    match &e.notes {
        Some(t) => {
            push_str(out, "    ");
            let c = take_chars(t.as_str(), 150);
            push_str(out, c.as_str());
            push_str(out, "\n");
        },
        None => {},
    }
    proof {
        assert(out@ =~= s1 + (match e.notes { Some(t) => "    "@ + prefix(t@, 150) + "\n"@, None => Seq::<char>::empty() }));
        assert(out@ =~= old(out)@ + task_head(ph@, *e, n as nat));
    }
}

fn push_task_create_line(out: &mut String, name: &str, ph: &Phase, e: &Experiment)
    ensures
        final(out)@ == old(out)@ + task_create_line(name@, ph@, *e),
{
    let mut desc = String::new();
    push_str(&mut desc, "Phase #");
    push_i64(&mut desc, ph.id);
    push_str(&mut desc, " (");
    push_str(&mut desc, ph.name.as_str());
    push_str(&mut desc, "). ");
    match &e.notes {
        Some(t) => push_str(&mut desc, t.as_str()),
        None => push_str(&mut desc, "Execute experiment and record findings."),
    }
    proof { assert(desc@ =~= task_description(ph@, *e)); }
    push_str(out, "    -> TaskCreate: subject=\"");
    push_str(out, name);
    push_str(out, " Exp #");
    push_i64(out, e.id);
    push_str(out, ": ");
    push_str(out, e.name.as_str());
    push_str(out, "\" description=\"");
    let d = take_chars(desc.as_str(), 200);
    push_str(out, d.as_str());
    push_str(out, "\"\n\n");
    proof { assert(out@ =~= old(out)@ + task_create_line(name@, ph@, *e)); }
}

fn push_task_block(out: &mut String, name: &str, ph: &Phase, e: &Experiment, n: u128)
    ensures
        final(out)@ == old(out)@ + task_block(name@, ph@, *e, n as nat),
{
    push_task_head(out, ph, e, n);
    push_task_create_line(out, name, ph, e);
    proof { assert(out@ =~= old(out)@ + task_block(name@, ph@, *e, n as nat)); }
}

pub(crate) fn pending_exec(es: &Vec<Experiment>) -> (r: Vec<Experiment>)
    ensures
        r@ == es@.filter(is_pending()),
{
    let mut r: Vec<Experiment> = Vec::new();
    let mut i: usize = 0;
    while i < es.len()
        invariant
            i <= es@.len(),
            r@ == es@.take(i as int).filter(is_pending()),
        decreases es@.len() - i,
    {
        proof {
            assert(es@.take(i + 1) =~= es@.take(i as int).push(es@[i as int]));
            es@.take(i as int).lemma_filter_push(es@[i as int], is_pending());
        }
        if es[i].status == ExperimentStatus::Pending {
            r.push(es[i].dup());
        }
        i = i + 1;
    }
    proof { lemma_take_all(es@); }
    r
}

fn start_status_str(ph: &Phase) -> (r: &'static str)
    ensures
        r@ == start_status(ph@),
{
    if ph.status == PhaseStatus::InProgress {
        proof { reveal_strlit("IN-PROGRESS"); }
        "IN-PROGRESS"
    } else if ph.status == PhaseStatus::Paused {
        proof { reveal_strlit("PAUSED"); }
        "PAUSED"
    } else {
        proof { reveal_strlit("NEXT"); }
        "NEXT"
    }
}

#[verifier::rlimit(40)]
fn push_phase_block(out: &mut String, store: &Store, label: &str, name: &str, ph: &Phase, t: &mut u128)
    requires
        store.wf(),
        *old(t) + 5 <= u128::MAX,
    ensures
        final(out)@ == old(out)@ + phase_block(store@, label@, name@, ph@, *old(t) as nat),
        *final(t) == *old(t) + first_n(pending_experiments(store@, ph@.id), 5).len(),
{
    let ghost v = store@;
    let ghost t0 = *t;
    let es = match store.list_experiments(Some(ph.id)) { Ok(x) => x, Err(_) => Vec::new() };
    let pend = pending_exec(&es);
    let pass = count_status(&es, ExperimentStatus::Pass);
    let fail = count_status(&es, ExperimentStatus::Fail);
    push_str(out, "## [");
    push_str(out, label);
    push_str(out, "] Phase #");
    push_i64(out, ph.id);
    push_str(out, " [impact:");
    push_i64(out, ph.impact as i64);
    push_str(out, "] ");
    push_str(out, ph.name.as_str());
    push_str(out, "\n");
    push_str(out, "  Status: ");
    push_str(out, start_status_str(ph));
    push_str(out, " | Experiments: ");
    push_usize(out, pend.len());
    push_str(out, " pending, ");
    push_usize(out, pass);
    push_str(out, " pass, ");
    push_usize(out, fail);
    push_str(out, " fail\n\n");
    let ghost head = out@;
    let ghost top = first_n(pend@, 5);
    if pend.len() == 0 {
        push_str(out, "  -> This phase has no pending experiments. Use pm_scaffold to create tasks.\n\n");
        proof { assert(final(out)@ =~= old(out)@ + phase_block(v, label@, name@, ph@, t0 as nat)); }
        return;
    }
    let n: usize = if pend.len() < 5 { pend.len() } else { 5 };
    let mut i: usize = 0;
    while i < n
        invariant
            n == top.len(),
            top == first_n(pend@, 5),
            i <= n,
            *t == t0 + i,
            t0 + 5 <= u128::MAX,
            out@ == head + task_blocks(name@, ph@, top.take(i as int), t0 as nat),
        decreases n - i,
    {
        proof { assert(top.take(i + 1).drop_last() =~= top.take(i as int)); }
        *t = *t + 1;
        push_task_block(out, name, ph, &pend[i], *t);
        i = i + 1;
    }
    proof {
        lemma_take_all(top);
        assert(final(out)@ =~= old(out)@ + phase_block(v, label@, name@, ph@, t0 as nat));
    }
}

// ---------------------------------------------------------------- projects

fn push_phase_blocks(out: &mut String, store: &Store, label: &str, name: &str, acts: &Vec<Phase>, t: &mut u128)
    requires
        store.wf(),
        *old(t) + 5 * acts@.len() <= u128::MAX,
    ensures
        final(out)@ == old(out)@ + phase_blocks(store@, label@, name@, views(acts@), *old(t) as nat).0,
        *final(t) as nat == phase_blocks(store@, label@, name@, views(acts@), *old(t) as nat).1,
        *final(t) <= *old(t) + 5 * acts@.len(),
{
    let ghost v = store@;
    let ghost t0 = *t;
    let ghost head = out@;
    let ghost phs = views(acts@);
    let mut i: usize = 0;
    while i < acts.len()
        invariant
            store.wf(),
            v == store@,
            phs == views(acts@),
            i <= acts@.len(),
            t0 + 5 * acts@.len() <= u128::MAX,
            *t <= t0 + 5 * i,
            out@ == head + phase_blocks(v, label@, name@, phs.take(i as int), t0 as nat).0,
            *t as nat == phase_blocks(v, label@, name@, phs.take(i as int), t0 as nat).1,
        decreases acts@.len() - i,
    {
        proof {
            assert(phs.take(i + 1).drop_last() =~= phs.take(i as int));
            assert(phs.take(i + 1).last() == acts@[i as int]@);
        }
        push_phase_block(out, store, label, name, &acts[i], t);
        i = i + 1;
    }
    proof { lemma_take_all(phs); }
}

fn stray_lines_exec(store: &Store, pid: i64) -> (r: Vec<String>)
    requires
        store.wf(),
    ensures
        text_views(r@) == stray_lines(store@, pid),
        r@.len() <= 5,
{
    let ghost v = store@;
    proof { lemma_orphan_kinds(); }
    let ids = match store.get_orphaned_nodes("finding", pid) { Ok(x) => x, Err(_) => Vec::new() };
    let ghost top = first_n(ids@, 5);
    let n: usize = if ids.len() < 5 { ids.len() } else { 5 };
    let mut r: Vec<String> = Vec::new();
    let mut i: usize = 0;
    while i < n
        invariant
            store.wf(),
            v == store@,
            n == top.len(),
            n <= ids@.len(),
            top == first_n(ids@, 5),
            i <= n,
            text_views(r@) == collect(top.take(i as int), stray_line(v)),
            r@.len() <= i,
        decreases n - i,
    {
        proof {
            lemma_collect_step(top, stray_line(v), i as int);
            assert(top[i as int] == ids@[i as int]);
        }
        match store.get_finding(ids[i]) {
            Ok(f) => {
                let mut l = String::new();
                push_str(&mut l, "  F#");
                push_i64(&mut l, f.id);
                push_str(&mut l, ": ");
                let c = take_chars(f.text.as_str(), 80);
                push_str(&mut l, c.as_str());
                proof { assert(l@ =~= "  F#"@ + dec_int(f.id as int) + ": "@ + prefix(f.text@, 80)); }
                push_line(&mut r, l);
            },
            Err(_) => {},
        }
        i = i + 1;
    }
    proof { lemma_take_all(top); }
    r
}

fn project_label_exec(store: &Store, p: &Project) -> (r: String)
    requires
        store.wf(),
    ensures
        r@ == project_label(store@, *p),
{
    let mut r = String::new();
    match p.parent_id {
        Some(x) => match store.get_project(x) {
            Ok(pp) => {
                push_str(&mut r, pp.name.as_str());
                push_str(&mut r, "/");
                push_str(&mut r, p.name.as_str());
            },
            Err(_) => push_str(&mut r, p.name.as_str()),
        },
        None => push_str(&mut r, p.name.as_str()),
    }
    proof { assert(r@ =~= project_label(store@, *p)); }
    r
}

proof fn lemma_first_n_push<A>(s: Seq<A>, x: A, n: int)
    requires
        0 <= n,
    ensures
        first_n(s.push(x), n) == if s.len() < n { first_n(s, n).push(x) } else { first_n(s, n) },
{
    if s.len() < n {
        assert(first_n(s.push(x), n) =~= s.push(x));
    } else {
        assert(first_n(s.push(x), n) =~= s.take(n));
        assert(first_n(s, n) =~= s.take(n));
    }
}

/// The first three workable phases of `next`.
fn workable_exec(next: &Vec<Phase>) -> (r: Vec<Phase>)
    ensures
        views(r@) == first_n(views(next@).filter(workable()), 3),
        r@.len() <= 3,
{
    let ghost ps = views(next@);
    let mut r: Vec<Phase> = Vec::new();
    let mut i: usize = 0;
    while i < next.len()
        invariant
            ps == views(next@),
            i <= next@.len(),
            views(r@) == first_n(ps.take(i as int).filter(workable()), 3),
            r@.len() <= 3,
        decreases next@.len() - i,
    {
        proof {
            assert(ps.take(i + 1) =~= ps.take(i as int).push(ps[i as int]));
            ps.take(i as int).lemma_filter_push(ps[i as int], workable());
            lemma_first_n_push(ps.take(i as int).filter(workable()), ps[i as int], 3);
        }
        let st = next[i].status;
        if (st == PhaseStatus::InProgress || st == PhaseStatus::Pending) && r.len() < 3 {
            let ghost before = r@;
            r.push(next[i].dup());
            proof { assert(views(r@) =~= views(before).push(ps[i as int])); }
        }
        i = i + 1;
    }
    proof { lemma_take_all(ps); }
    r
}

fn push_lines_to(dst: &mut Vec<String>, src: Vec<String>)
    ensures
        text_views(final(dst)@) == text_views(old(dst)@) + text_views(src@),
{
    let ghost d0 = text_views(dst@);
    let ghost sv = text_views(src@);
    let mut i: usize = 0;
    while i < src.len()
        invariant
            sv == text_views(src@),
            i <= src@.len(),
            text_views(dst@) == d0 + sv.take(i as int),
        decreases src@.len() - i,
    {
        let l = src[i].clone();
        proof { assert(sv.take(i + 1) =~= sv.take(i as int).push(l@)); }
        push_line(dst, l);
        i = i + 1;
    }
    proof { lemma_take_all(sv); }
}

fn push_line_block(out: &mut String, lines: &Vec<String>)
    ensures
        final(out)@ == old(out)@ + line_block(text_views(lines@)),
{
    let ghost ls = text_views(lines@);
    let mut i: usize = 0;
    while i < lines.len()
        invariant
            ls == text_views(lines@),
            i <= lines@.len(),
            out@ == old(out)@ + line_block(ls.take(i as int)),
        decreases lines@.len() - i,
    {
        proof { assert(ls.take(i + 1).drop_last() =~= ls.take(i as int)); }
        push_str(out, lines[i].as_str());
        push_str(out, "\n");
        proof { assert(out@ =~= old(out)@ + line_block(ls.take(i + 1))); }
        i = i + 1;
    }
    proof { lemma_take_all(ls); }
}

// ---------------------------------------------------------------- tool

/// The tasks and stray findings of all projects, with the ranked next
/// phases of each (none for one that is not active).
#[verifier::rlimit(60)]
fn gather_tasks(store: &Store, projects: &Vec<Project>, body: &mut String, strays: &mut Vec<String>)
    -> (r: (Vec<Vec<Phase>>, Ghost<Seq<Seq<PhaseView>>>))
    requires
        store.wf(),
        projects@ == store@.projects,
        old(body)@.len() == 0,
        old(strays)@.len() == 0,
    ensures
        r.1@.len() == store@.projects.len(),
        r.0@.len() == store@.projects.len(),
        forall|j: int| 0 <= j < r.1@.len() ==> #[trigger] r.1@[j] == views(r.0@[j]@),
        ranks_active(store@, r.1@),
        (final(body)@, text_views(final(strays)@)) == (start_state(store@, store@.projects, r.1@).0,
            start_state(store@, store@.projects, r.1@).2),
{
    let ghost v = store@;
    let mut t: u128 = 0;
    let mut nexts: Vec<Vec<Phase>> = Vec::new();
    let ghost mut orders: Seq<Seq<PhaseView>> = Seq::empty();
    let mut k: usize = 0;
    proof { assert(text_views(strays@) =~= Seq::<Seq<char>>::empty()); }
    while k < projects.len()
        invariant
            store.wf(),
            v == store@,
            projects@ == v.projects,
            k <= projects@.len(),
            nexts@.len() == k,
            orders.len() == k,
            forall|j: int| 0 <= j < k ==> #[trigger] orders[j] == views(nexts@[j]@),
            forall|j: int| 0 <= j < k && v.projects[j].status == ProjectStatus::Active
                ==> next_phases_of(v.phases_of(v.projects[j].id), #[trigger] orders[j]),
            body@ == start_state(v, v.projects.take(k as int), orders).0,
            t as nat == start_state(v, v.projects.take(k as int), orders).1,
            text_views(strays@) == start_state(v, v.projects.take(k as int), orders).2,
            t <= 15 * k,
        decreases projects@.len() - k,
    {
        let p = &projects[k];
        let ghost o: Seq<PhaseView>;
        if p.status != ProjectStatus::Active {
            let none: Vec<Phase> = Vec::new();
            proof { o = views(none@); assert(o =~= Seq::<PhaseView>::empty()); }
            nexts.push(none);
        } else {
            let dag = DagEngine::new(store, p.id);
            let next = match dag.next_phases() { Ok(n) => n, Err(_) => Vec::new() };
            proof { o = views(next@); assert(next_phases_of(v.phases_of(p.id), o)); }
            let acts = workable_exec(&next);
            let label = project_label_exec(store, p);
            push_phase_blocks(body, store, label.as_str(), p.name.as_str(), &acts, &mut t);
            let sl = stray_lines_exec(store, p.id);
            push_lines_to(strays, sl);
            nexts.push(next);
        }
        proof {
            let ps = v.projects.take(k + 1);
            assert(ps.drop_last() =~= v.projects.take(k as int));
            assert(orders.push(o).drop_last() =~= orders);
            assert(ps.last() == v.projects[k as int]);
            orders = orders.push(o);
            assert forall|j: int| 0 <= j < k + 1 implies #[trigger] orders[j] == views(nexts@[j]@) by {
                if j == k {
                } else {
                }
            }
        }
        k = k + 1;
    }
    proof {
        lemma_take_all(v.projects);
        assert(ranks_active(v, orders));
    }
    (nexts, Ghost(orders))
}

fn gather_briefings(store: &Store, projects: &Vec<Project>, nexts: &Vec<Vec<Phase>>, Ghost(orders): Ghost<Seq<Seq<PhaseView>>>)
    -> (br: String)
    requires
        store.wf(),
        projects@ == store@.projects,
        orders.len() == projects@.len(),
        nexts@.len() == projects@.len(),
        forall|j: int| 0 <= j < orders.len() ==> #[trigger] orders[j] == views(nexts@[j]@),
    ensures
        br@ == briefings(store@, store@.projects, orders),
{
    let ghost v = store@;
    let mut br = String::new();
    let mut k: usize = 0;
    while k < projects.len()
        invariant
            store.wf(),
            v == store@,
            projects@ == v.projects,
            orders.len() == projects@.len(),
            nexts@.len() == projects@.len(),
            forall|j: int| 0 <= j < orders.len() ==> #[trigger] orders[j] == views(nexts@[j]@),
            k <= projects@.len(),
            br@ == briefings(v, v.projects.take(k as int), orders.take(k as int)),
        decreases projects@.len() - k,
    {
        proof {
            assert(v.projects.take(k + 1).drop_last() =~= v.projects.take(k as int));
            assert(orders.take(k + 1).drop_last() =~= orders.take(k as int));
            assert(orders.take(k + 1).last() == views(nexts@[k as int]@));
        }
        let p = &projects[k];
        if p.status == ProjectStatus::Active {
            match active_index(&nexts[k]) {
                Some(i) => push_briefing(&mut br, store, p, &nexts[k][i]),
                None => {},
            }
        }
        proof {
            assert(br@ =~= briefings(v, v.projects.take(k + 1), orders.take(k + 1)));
        }
        k = k + 1;
    }
    proof {
        lemma_take_all(v.projects);
        lemma_take_all(orders);
    }
    br
}

/// The start of a work session over all projects: for each active project
/// its first three workable next phases with their first five pending
/// experiments as numbered tasks, the findings that no edge touches, and a
/// knowledge briefing per active project; see `session_start_text`.  The
/// store is not changed.
pub fn tool_session_init(store: &Store) -> (out: String)
    requires
        store.wf(),
    ensures
        exists|orders: Seq<Seq<PhaseView>>| #[trigger] ranks_active(store@, orders)
            && out@ == session_start_text(store@, orders),
{
    let ghost v = store@;
    let projects = match store.list_projects() { Ok(x) => x, Err(_) => Vec::new() };
    let mut body = String::new();
    let mut strays: Vec<String> = Vec::new();
    let (nexts, Ghost(orders)) = gather_tasks(store, &projects, &mut body, &mut strays);
    if strays.len() > 0 {
        push_str(&mut body, "--- Orphaned Findings (no KG edges) ---\n\n");
        push_line_block(&mut body, &strays);
        push_str(&mut body, "\n  -> Link these to experiments/hypotheses with pm_add_edge.\n\n");
    }
    let br = gather_briefings(store, &projects, &nexts, Ghost(orders));
    let mut out = String::new();
    if body.as_str().unicode_len() == 0 && br.as_str().unicode_len() == 0 {
        push_str(&mut out, "No pending tasks in actionable phases.");
    } else {
        push_str(&mut out, "=== Session Init: Actionable Tasks ===\n\n");
        push_str(&mut out, body.as_str());
        push_str(&mut out, "Create these as task tracker items and work through them.");
        push_str(&mut out, br.as_str());
    }
    proof {
        assert(text_views(strays@).len() == strays@.len());
        assert(ranks_active(v, orders));
        assert(out@ =~= session_start_text(v, orders));
    }
    out
}

} // verus!
