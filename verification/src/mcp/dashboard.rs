//! Overview tools: the cross-project dashboard, the next phases of a
//! project, and the task scaffold of a phase.
use vstd::prelude::*;
use crate::text::{push_str, push_i64, push_usize, dec_int, dec_nat, prefix, take_chars};
use crate::store::{Store, StoreView, StoreError, Project, ProjectStatus, Phase, PhaseView, PhaseStatus, Experiment, ExperimentStatus,
    Finding, Hypothesis, HypothesisStatus, Constraint, Principle, PrincipleScope, PrincipleStatus, opt_str,
    phase_of, child_of, experiment_in, experiment_of_project, hypothesis_in, constraint_of, principle_of};
use crate::mcp::common::{error_text, error_str};
use crate::dag::{DagEngine, actionable, ranks_le, impact_ranked, next_phases_of, views, fail_streak};
use crate::mcp::common::{project_named, find_project};
use crate::mcp::nodes::{pending_experiments, is_pending};
use crate::mcp::finding::first_n;

verus! {

broadcast use vstd::seq_lib::group_seq_properties;

/// `p` is an actionable phase of `ps` that ranks no lower than any other.
pub open spec fn is_top(ps: Seq<PhaseView>, p: PhaseView) -> bool {
    &&& ps.filter(actionable(ps)).contains(p)
    &&& forall|q: PhaseView| ps.filter(actionable(ps)).contains(q) ==> ranks_le(p, q)
}

/// The highest-ranked actionable phase of `ps`, if there is one.
pub open spec fn top_phase(ps: Seq<PhaseView>) -> Option<PhaseView> {
    if exists|p: PhaseView| is_top(ps, p) {
        Some(choose|p: PhaseView| is_top(ps, p))
    } else {
        None
    }
}

/// The phases of project `pid` in store `v`.
pub open spec fn project_phases(v: StoreView, pid: i64) -> Seq<PhaseView> {
    v.phases_of(pid)
}

proof fn lemma_top(v: StoreView, pid: i64, out: Seq<PhaseView>)
    requires
        v.wf(),
        next_phases_of(v.phases_of(pid), out),
    ensures
        out.len() > 0 ==> top_phase(v.phases_of(pid)) == Some(out[0]),
        out.len() == 0 ==> top_phase(v.phases_of(pid)) is None,
{
    let ps = v.phases_of(pid);
    let f = ps.filter(actionable(ps));
    assert forall|x: PhaseView| #[trigger] f.contains(x) == out.contains(x) by {
        assert(out.to_multiset().count(x) == f.to_multiset().count(x));
        out.to_multiset_ensures();
        f.to_multiset_ensures();
    }
    if out.len() > 0 {
        let p = out[0];
        assert(out.contains(p));
        assert forall|q: PhaseView| f.contains(q) implies ranks_le(p, q) by {
            assert(out.contains(q));
            let j = choose|j: int| 0 <= j < out.len() && out[j] == q;
            if j > 0 {
                assert(ranks_le(out[0], out[j]));
            }
        }
        assert(is_top(ps, p));
        let t = choose|t: PhaseView| is_top(ps, t);
        assert(ranks_le(t, p) && ranks_le(p, t));
        assert(f.contains(t));
        lemma_same_phase(v, pid, t, p);
    } else {
        assert forall|p: PhaseView| !is_top(ps, p) by {
            if f.contains(p) {
                assert(out.contains(p));
            }
        }
    }
}

pub(crate) proof fn lemma_same_phase(v: StoreView, pid: i64, a: PhaseView, b: PhaseView)
    requires
        v.wf(),
        v.phases_of(pid).filter(actionable(v.phases_of(pid))).contains(a),
        v.phases_of(pid).filter(actionable(v.phases_of(pid))).contains(b),
        a.id == b.id,
    ensures
        a == b,
{
    let ps = v.phases_of(pid);
    ps.lemma_filter_contains_rev(actionable(ps), a);
    ps.lemma_filter_contains_rev(actionable(ps), b);
    v.phases.lemma_filter_contains_rev(phase_of(pid), a);
    v.phases.lemma_filter_contains_rev(phase_of(pid), b);
    let i = choose|i: int| 0 <= i < v.phases.len() && v.phases[i] == a;
    let j = choose|j: int| 0 <= j < v.phases.len() && v.phases[j] == b;
    assert(v.phases[i].id == i + 1 && v.phases[j].id == j + 1);
}

/// The highest-ranked actionable phase of project `pid`, with its copy.
fn top_of(store: &Store, pid: i64) -> (r: Option<Phase>)
    requires
        store.wf(),
    ensures
        match r {
            Some(p) => top_phase(store@.phases_of(pid)) == Some(p@),
            None => top_phase(store@.phases_of(pid)) is None,
        },
{
    let dag = DagEngine::new(store, pid);
    match dag.next_phases() {
        Ok(next) => {
            proof {
                lemma_top(store@, pid, views(next@));
            }
            if next.len() > 0 {
                proof { assert(views(next@)[0] == next@[0]@); }
                Some(next[0].dup())
            } else {
                None
            }
        },
        Err(_) => None,
    }
}

/// "IN-PROGRESS" for a phase under way, "NEXT" otherwise.
pub open spec fn progress_word(p: PhaseView) -> Seq<char> {
    if p.status == PhaseStatus::InProgress { "IN-PROGRESS"@ } else { "NEXT"@ }
}

/// The dashboard line of a project labelled `label`: its top phase, if any.
pub open spec fn top_line(v: StoreView, label: Seq<char>, pid: i64) -> Seq<char> {
    match top_phase(v.phases_of(pid)) {
        Some(t) => "  ["@ + label + "] "@ + progress_word(t) + " #"@ + dec_int(t.id as int) + " [impact:"@
            + dec_int(t.impact as int) + "] "@ + t.name + "\n"@,
        None => Seq::empty(),
    }
}

fn push_top_line(out: &mut String, store: &Store, label: &String, pid: i64)
    requires
        store.wf(),
    ensures
        final(out)@ == old(out)@ + top_line(store@, label@, pid),
{
    match top_of(store, pid) {
        Some(t) => {
            push_str(out, "  [");
            push_str(out, label.as_str());
            push_str(out, "] ");
            push_str(out, if t.status == PhaseStatus::InProgress { "IN-PROGRESS" } else { "NEXT" });
            push_str(out, " #");
            push_i64(out, t.id);
            push_str(out, " [impact:");
            push_i64(out, t.impact as i64);
            push_str(out, "] ");
            push_str(out, t.name.as_str());
            push_str(out, "\n");
            proof {
                assert(final(out)@ =~= old(out)@ + top_line(store@, label@, pid));
            }
        },
        None => {
            proof {
                assert(old(out)@ + top_line(store@, label@, pid) =~= old(out)@);
            }
        },
    }
}

/// Picks out the active projects.
pub open spec fn is_active() -> spec_fn(Project) -> bool {
    |p: Project| p.status == ProjectStatus::Active
}

/// Picks out the projects without a parent.
pub open spec fn is_top_level() -> spec_fn(Project) -> bool {
    |p: Project| p.parent_id is None
}

/// The dashboard lines of the subprojects `subs` of the project named `parent`.
pub open spec fn sub_lines(v: StoreView, parent: Seq<char>, subs: Seq<Project>) -> Seq<char>
    decreases subs.len(),
{
    if subs.len() == 0 {
        Seq::empty()
    } else {
        sub_lines(v, parent, subs.drop_last()) + top_line(v, parent + "/"@ + subs.last().name@, subs.last().id)
    }
}

/// The dashboard block of top-level project `p`: a single line when it
/// has no active subprojects, otherwise a heading, its own line, and a
/// line per active subproject.
pub open spec fn project_block(v: StoreView, p: Project) -> Seq<char> {
    let subs = v.projects.filter(is_active()).filter(child_of(p.id));
    if subs.len() == 0 {
        top_line(v, p.name@, p.id)
    } else {
        "## "@ + p.name@ + "\n"@ + top_line(v, p.name@, p.id) + sub_lines(v, p.name@, subs) + "\n"@
    }
}

/// The dashboard blocks of projects `ps`.
pub open spec fn project_blocks(v: StoreView, ps: Seq<Project>) -> Seq<char>
    decreases ps.len(),
{
    if ps.len() == 0 {
        Seq::empty()
    } else {
        project_blocks(v, ps.drop_last()) + project_block(v, ps.last())
    }
}

/// The dashboard: for each active top-level project, in creation order,
/// its highest-ranked actionable phase, and those of its active
/// subprojects grouped under it.
pub open spec fn dashboard_text(v: StoreView) -> Seq<char> {
    "=== Cross-Project Dashboard ===\n\n"@
        + project_blocks(v, v.projects.filter(is_active()).filter(is_top_level()))
        + "## ACTION: Execute the highest-impact item above."@
}

proof fn lemma_filter_member<A>(s: Seq<A>, p: spec_fn(A) -> bool, x: A)
    requires
        s.filter(p).contains(x),
    ensures
        s.contains(x),
        p(x),
    decreases s.len(),
{
    reveal(Seq::filter);
    if s.len() > 0 {
        let t = s.drop_last();
        let f = s.filter(p);
        let k = choose|k: int| 0 <= k < f.len() && f[k] == x;
        if p(s.last()) && k == f.len() - 1 {
            assert(f[k] == s.last());
            assert(s[s.len() - 1] == x);
        } else {
            assert(t.filter(p).contains(x)) by {
                assert(t.filter(p)[k] == x);
            }
            lemma_filter_member(t, p, x);
            let j = choose|j: int| 0 <= j < t.len() && t[j] == x;
            assert(s[j] == x);
        }
    }
}

/// Setting a top-level project's status decides whether the dashboard lists
/// it: archiving it (as deactivating does) takes its block off the
/// dashboard, and making it active again puts it back.
pub proof fn law_dashboard_lists_active_projects(v: StoreView, id: i64, st: ProjectStatus)
    requires
        v.wf(),
        v.project(id) matches Some(p) && p.parent_id is None,
    ensures
        ({
            let w = v.with_projects(v.projects.update(id - 1, (Project { status: st, ..v.projects[id - 1] })));
            w.projects.filter(is_active()).filter(is_top_level()).contains(w.projects[id - 1])
                <==> st == ProjectStatus::Active
        }),
{
    let w = v.with_projects(v.projects.update(id - 1, (Project { status: st, ..v.projects[id - 1] })));
    let x = w.projects[id - 1];
    let a = w.projects.filter(is_active());
    if st == ProjectStatus::Active {
        assert(w.projects.contains(x));
        w.projects.lemma_filter_contains_rev(is_active(), x);
        a.lemma_filter_contains_rev(is_top_level(), x);
    } else {
        if a.filter(is_top_level()).contains(x) {
            lemma_filter_member(a, is_top_level(), x);
            lemma_filter_member(w.projects, is_active(), x);
            assert(x.status == st);
            assert(false);
        }
    }
}

/// Picks out projects: active ones only, top-level ones only, and those
/// under a given parent only, as asked.
pub open spec fn project_filter(active_only: bool, top_only: bool, parent: Option<i64>) -> spec_fn(Project) -> bool {
    |p: Project| (!active_only || p.status == ProjectStatus::Active)
        && (!top_only || p.parent_id is None) && (parent matches Some(x) ==> p.parent_id == Some(x))
}

pub(crate) fn filter_projects(ps: &Vec<Project>, active_only: bool, top_only: bool, parent: Option<i64>) -> (r: Vec<Project>)
    ensures
        r@ == ps@.filter(project_filter(active_only, top_only, parent)),
{
    let ghost pred = project_filter(active_only, top_only, parent);
    let mut r: Vec<Project> = Vec::new();
    let mut i: usize = 0;
    while i < ps.len()
        invariant
            i <= ps@.len(),
            pred == project_filter(active_only, top_only, parent),
            r@ == ps@.take(i as int).filter(pred),
        decreases ps@.len() - i,
    {
        proof {
            assert(ps@.take(i + 1) =~= ps@.take(i as int).push(ps@[i as int]));
            ps@.take(i as int).lemma_filter_push(ps@[i as int], pred);
        }
        let p = &ps[i];
        let keep = (!active_only || p.status == ProjectStatus::Active) && (!top_only || p.parent_id.is_none())
            && match parent {
                Some(x) => p.parent_id == Some(x),
                None => true,
            };
        if keep {
            r.push(p.dup());
        }
        i = i + 1;
    }
    proof {
        assert(ps@.take(i as int) =~= ps@);
    }
    r
}

pub(crate) proof fn lemma_filter_filter<A>(s: Seq<A>, a: spec_fn(A) -> bool, b: spec_fn(A) -> bool, c: spec_fn(A) -> bool)
    requires
        forall|x: A| #[trigger] c(x) == (a(x) && b(x)),
    ensures
        s.filter(a).filter(b) == s.filter(c),
    decreases s.len(),
{
    if s.len() == 0 {
        assert(s.filter(a).filter(b) =~= s.filter(c));
    } else {
        let t = s.drop_last();
        let x = s.last();
        lemma_filter_filter(t, a, b, c);
        assert(t.push(x) =~= s);
        t.lemma_filter_push(x, a);
        t.lemma_filter_push(x, c);
        t.filter(a).lemma_filter_push(x, b);
    }
}

/// Shows, for each active top-level project, its highest-ranked
/// actionable phase, with those of its active subprojects grouped under it.
pub fn tool_dashboard(store: &Store) -> (out: String)
    requires
        store.wf(),
    ensures
        out@ == dashboard_text(store@),
{
    let ghost v = store@;
    let projects = match store.list_projects() {
        Ok(p) => p,
        Err(_) => Vec::new(),
    };
    let parents = filter_projects(&projects, true, true, None);
    let ghost tops = v.projects.filter(is_active()).filter(is_top_level());
    proof {
        lemma_filter_filter(v.projects, is_active(), is_top_level(), project_filter(true, true, None));
        assert(parents@ == tops);
    }
    let mut out = String::new();
    push_str(&mut out, "=== Cross-Project Dashboard ===\n\n");
    let ghost base = out@;
    let mut i: usize = 0;
    while i < parents.len()
        invariant
            store.wf(),
            v == store@,
            projects@ == v.projects,
            parents@ == tops,
            tops == v.projects.filter(is_active()).filter(is_top_level()),
            i <= parents@.len(),
            out@ == base + project_blocks(v, tops.take(i as int)),
        decreases parents@.len() - i,
    {
        let p = &parents[i];
        let subs = filter_projects(&projects, true, false, Some(p.id));
        proof {
            lemma_filter_filter(v.projects, is_active(), child_of(p.id), project_filter(true, false, Some(p.id)));
            assert(p == tops[i as int]);
            assert(tops.take(i + 1).drop_last() =~= tops.take(i as int));
        }
        let ghost before = out@;
        if subs.len() == 0 {
            push_top_line(&mut out, store, &p.name, p.id);
        } else {
            push_str(&mut out, "## ");
            push_str(&mut out, p.name.as_str());
            push_str(&mut out, "\n");
            push_top_line(&mut out, store, &p.name, p.id);
            let ghost mid = out@;
            let mut k: usize = 0;
            while k < subs.len()
                invariant
                    store.wf(),
                    v == store@,
                    k <= subs@.len(),
                    out@ == mid + sub_lines(v, p.name@, subs@.take(k as int)),
                decreases subs@.len() - k,
            {
                let mut label = p.name.clone();
                push_str(&mut label, "/");
                push_str(&mut label, subs[k].name.as_str());
                push_top_line(&mut out, store, &label, subs[k].id);
                proof {
                    assert(subs@.take(k + 1).drop_last() =~= subs@.take(k as int));
                    assert(out@ =~= mid + sub_lines(v, p.name@, subs@.take(k + 1)));
                }
                k = k + 1;
            }
            push_str(&mut out, "\n");
            proof {
                assert(subs@.take(k as int) =~= subs@);
            }
        }
        proof {
            assert(out@ =~= before + project_block(v, tops[i as int]));
            assert(out@ =~= base + project_blocks(v, tops.take(i + 1)));
        }
        i = i + 1;
    }
    push_str(&mut out, "## ACTION: Execute the highest-impact item above.");
    proof {
        assert(tops.take(i as int) =~= tops);
        assert(out@ =~= dashboard_text(v));
    }
    out
}

/// "#a, #b, ..." for ids `ds`.
pub open spec fn id_refs(ds: Seq<i64>) -> Seq<char>
    decreases ds.len(),
{
    if ds.len() == 0 {
        Seq::empty()
    } else if ds.len() == 1 {
        "#"@ + dec_int(ds[0] as int)
    } else {
        id_refs(ds.drop_last()) + ", #"@ + dec_int(ds.last() as int)
    }
}

/// Picks out the experiments with status `s`.
pub open spec fn has_status(s: ExperimentStatus) -> spec_fn(Experiment) -> bool {
    |e: Experiment| e.status == s
}

/// The experiments of phase `pid`.
pub open spec fn phase_experiments(v: StoreView, pid: i64) -> Seq<Experiment> {
    v.experiments.filter(experiment_in(Some(pid)))
}

/// The lines that present phase `p` among the next phases: status, id,
/// impact and name; its dependencies; and the tally of its experiments.
pub open spec fn next_phase_lines(v: StoreView, p: PhaseView) -> Seq<char> {
    phase_head(p) + deps_part(p) + tally_part(phase_experiments(v, p.id))
}

/// The first line of a phase among the next phases.
pub open spec fn phase_head(p: PhaseView) -> Seq<char> {
    "  "@ + progress_word(p) + " #"@ + dec_int(p.id as int) + " [impact:"@ + dec_int(p.impact as int) + "] "@ + p.name + "\n"@
}

/// The dependencies of a phase, when it has any.
pub open spec fn deps_part(p: PhaseView) -> Seq<char> {
    if p.depends_on.len() > 0 { "    Depends on: "@ + id_refs(p.depends_on) + "\n"@ } else { Seq::empty() }
}

/// The tally of experiments `es` by status, when there are any.
pub open spec fn tally_part(es: Seq<Experiment>) -> Seq<char> {
    if es.len() > 0 {
        "    Experiments: "@ + dec_nat(es.filter(has_status(ExperimentStatus::Pending)).len()) + " pending, "@
            + dec_nat(es.filter(has_status(ExperimentStatus::Pass)).len()) + " pass, "@
            + dec_nat(es.filter(has_status(ExperimentStatus::Fail)).len()) + " fail\n"@
    } else {
        Seq::empty()
    }
}

/// The lines of phases `ps`, in order.
pub open spec fn next_lines(v: StoreView, ps: Seq<PhaseView>) -> Seq<char>
    decreases ps.len(),
{
    if ps.len() == 0 { Seq::empty() } else { next_lines(v, ps.drop_last()) + next_phase_lines(v, ps.last()) }
}

/// The stagnation warning after `n` failed experiments in a row.
pub open spec fn stagnation_text(n: nat) -> Seq<char> {
    "\n  WARNING: STAGNATION \u{2014} "@ + dec_nat(n) + " consecutive failed experiments\n"@
        + "    Suggested actions:\n"@
        + "    1. Review recent experiment hypotheses \u{2014} are assumptions valid?\n"@
        + "    2. Check if constraints have changed since experiments were designed\n"@
        + "    3. Consider pivoting to a different approach within this phase\n"@
}

/// The recommended task: the first pending experiment of the top phase.
pub open spec fn top_action(v: StoreView, project: Seq<char>, out: Seq<PhaseView>) -> Seq<char> {
    if out.len() > 0 && pending_experiments(v, out[0].id).len() > 0 {
        let top = out[0];
        let e = pending_experiments(v, top.id)[0];
        "\n## Top Recommended Action:\n"@ + "  -> TaskCreate: subject=\""@ + project + " Exp #"@ + dec_int(e.id as int) + ": "@
            + e.name@ + "\" description=\"Phase #"@ + dec_int(top.id as int) + " ("@ + top.name + "), impact:"@
            + dec_int(top.impact as int) + "\"\n"@
    } else {
        Seq::empty()
    }
}

/// The next-phases report for project `pid` (asked for as `project`), its
/// actionable phases ranked as `out`: the top three with their
/// dependencies and experiment tallies, a stagnation warning after three
/// or more failed experiments in a row, and the recommended task.
pub open spec fn next_text(v: StoreView, project: Seq<char>, pid: i64, out: Seq<PhaseView>) -> Seq<char> {
    let streak = fail_streak(v.experiments.filter(experiment_of_project(v, pid)));
    "=== Next Phases (by impact) ===\n\n"@ + next_lines(v, first_n(out, 3))
        + (if streak >= 3 { stagnation_text(streak) } else { Seq::empty() })
        + top_action(v, project, out)
        + "\n## ACTION: Execute the top phase."@
}

fn count_status(es: &Vec<Experiment>, s: ExperimentStatus) -> (n: usize)
    ensures
        n == es@.filter(has_status(s)).len(),
{
    let mut n: usize = 0;
    let mut i: usize = 0;
    while i < es.len()
        invariant
            i <= es@.len(),
            n == es@.take(i as int).filter(has_status(s)).len(),
            n <= i,
        decreases es@.len() - i,
    {
        proof {
            assert(es@.take(i + 1) =~= es@.take(i as int).push(es@[i as int]));
            es@.take(i as int).lemma_filter_push(es@[i as int], has_status(s));
        }
        if es[i].status == s {
            n = n + 1;
        }
        i = i + 1;
    }
    proof {
        assert(es@.take(i as int) =~= es@);
    }
    n
}

fn push_id_refs(out: &mut String, ds: &Vec<i64>)
    ensures
        final(out)@ == old(out)@ + id_refs(ds@),
{
    let mut i: usize = 0;
    while i < ds.len()
        invariant
            i <= ds@.len(),
            out@ == old(out)@ + id_refs(ds@.take(i as int)),
        decreases ds@.len() - i,
    {
        if i == 0 {
            push_str(out, "#");
        } else {
            push_str(out, ", #");
        }
        push_i64(out, ds[i]);
        proof {
            assert(ds@.take(i + 1).drop_last() =~= ds@.take(i as int));
            if i == 0 {
                assert(id_refs(ds@.take(1)) == "#"@ + dec_int(ds@[0] as int));
            }
            assert(out@ =~= old(out)@ + id_refs(ds@.take(i + 1)));
        }
        i = i + 1;
    }
    proof {
        assert(ds@.take(i as int) =~= ds@);
    }
}

fn push_next_phase_lines(out: &mut String, store: &Store, p: &Phase)
    requires
        store.wf(),
    ensures
        final(out)@ == old(out)@ + next_phase_lines(store@, p@),
{
    push_str(out, "  ");
    push_str(out, if p.status == PhaseStatus::InProgress { "IN-PROGRESS" } else { "NEXT" });
    push_str(out, " #");
    push_i64(out, p.id);
    push_str(out, " [impact:");
    push_i64(out, p.impact as i64);
    push_str(out, "] ");
    push_str(out, p.name.as_str());
    push_str(out, "\n");
    let ghost o1 = out@;
    proof {
        assert(o1 =~= old(out)@ + phase_head(p@));
    }
    if p.depends_on.len() > 0 {
        push_str(out, "    Depends on: ");
        push_id_refs(out, &p.depends_on);
        push_str(out, "\n");
    }
    let ghost o2 = out@;
    proof {
        assert(o2 =~= o1 + deps_part(p@));
    }
    let es = match store.list_experiments(Some(p.id)) {
        Ok(x) => x,
        Err(_) => Vec::new(),
    };
    if es.len() > 0 {
        let pending = count_status(&es, ExperimentStatus::Pending);
        let pass = count_status(&es, ExperimentStatus::Pass);
        let fail = count_status(&es, ExperimentStatus::Fail);
        push_str(out, "    Experiments: ");
        push_usize(out, pending);
        push_str(out, " pending, ");
        push_usize(out, pass);
        push_str(out, " pass, ");
        push_usize(out, fail);
        push_str(out, " fail\n");
    }
    proof {
        assert(out@ =~= o2 + tally_part(phase_experiments(store@, p.id)));
        assert(out@ =~= old(out)@ + next_phase_lines(store@, p@));
    }
}

/// The first pending experiment of phase `pid`, if any.
fn first_pending(store: &Store, pid: i64) -> (r: Option<Experiment>)
    requires
        store.wf(),
    ensures
        pending_experiments(store@, pid).len() > 0 ==> r == Some(pending_experiments(store@, pid)[0]),
        pending_experiments(store@, pid).len() == 0 ==> r is None,
{
    let es = match store.list_experiments(Some(pid)) {
        Ok(x) => x,
        Err(_) => Vec::new(),
    };
    let ghost all = es@;
    let mut i: usize = 0;
    while i < es.len()
        invariant
            es@ == all,
            all == store@.experiments.filter(experiment_in(Some(pid))),
            i <= es@.len(),
            all.take(i as int).filter(is_pending()).len() == 0,
        decreases es@.len() - i,
    {
        proof {
            assert(all.take(i + 1) =~= all.take(i as int).push(all[i as int]));
            all.take(i as int).lemma_filter_push(all[i as int], is_pending());
        }
        if es[i].status == ExperimentStatus::Pending {
            proof {
                assert(all.take(i + 1).filter(is_pending()) =~= seq![all[i as int]]);
                crate::mcp::finding::lemma_filter_take_prefix(all, is_pending(), i + 1);
                assert(all.filter(is_pending()).subrange(0, 1)[0] == all.filter(is_pending())[0]);
                assert(pending_experiments(store@, pid) == all.filter(is_pending()));
            }
            return Some(es[i].dup());
        }
        i = i + 1;
    }
    proof {
        assert(all.take(i as int) =~= all);
    }
    None
}

pub(crate) proof fn lemma_fail_streak_len(es: Seq<Experiment>)
    ensures
        fail_streak(es) <= es.len(),
    decreases es.len(),
{
    if es.len() > 0 {
        lemma_fail_streak_len(es.drop_last());
    }
}

fn push_stagnation(out: &mut String, store: &Store, pid: i64)
    requires
        store.wf(),
    ensures
        ({
            let streak = fail_streak(store@.experiments.filter(experiment_of_project(store@, pid)));
            final(out)@ == old(out)@ + (if streak >= 3 { stagnation_text(streak) } else { Seq::empty() })
        }),
{
    let ghost es = store@.experiments.filter(experiment_of_project(store@, pid));
    let all = match store.list_project_experiments(pid) {
        Ok(x) => x,
        Err(_) => Vec::new(),
    };
    let count = all.len();
    proof {
        lemma_fail_streak_len(es);
        assert(all@.len() == es.len());
        assert(fail_streak(es) <= count);
    }
    let dag = DagEngine::new(store, pid);
    proof {
        assert(dag.experiments() == es);
    }
    if let Ok(Some(n)) = dag.stagnation_check(3) {
        push_str(out, "\n  WARNING: STAGNATION \u{2014} ");
        push_usize(out, n);
        push_str(out, " consecutive failed experiments\n");
        push_str(out, "    Suggested actions:\n");
        push_str(out, "    1. Review recent experiment hypotheses \u{2014} are assumptions valid?\n");
        push_str(out, "    2. Check if constraints have changed since experiments were designed\n");
        push_str(out, "    3. Consider pivoting to a different approach within this phase\n");
        proof {
            assert(n as nat == fail_streak(es));
            assert(out@ =~= old(out)@ + stagnation_text(fail_streak(es)));
        }
    } else {
        proof {
            assert(old(out)@ + Seq::<char>::empty() =~= old(out)@);
        }
    }
}

fn push_top_action(out: &mut String, store: &Store, project: &str, next: &Vec<Phase>)
    requires
        store.wf(),
    ensures
        final(out)@ == old(out)@ + top_action(store@, project@, views(next@)),
{
    let ghost order = views(next@);
    if next.len() > 0 {
        let top = &next[0];
        proof {
            assert(order[0] == next@[0]@);
        }
        if let Some(e) = first_pending(store, top.id) {
            push_str(out, "\n## Top Recommended Action:\n");
            push_str(out, "  -> TaskCreate: subject=\"");
            push_str(out, project);
            push_str(out, " Exp #");
            push_i64(out, e.id);
            push_str(out, ": ");
            push_str(out, e.name.as_str());
            push_str(out, "\" description=\"Phase #");
            push_i64(out, top.id);
            push_str(out, " (");
            push_str(out, top.name.as_str());
            push_str(out, "), impact:");
            push_i64(out, top.impact as i64);
            push_str(out, "\"\n");
            proof {
                assert(out@ =~= old(out)@ + top_action(store@, project@, order));
            }
        } else {
            proof {
                assert(old(out)@ + top_action(store@, project@, order) =~= old(out)@);
            }
        }
    } else {
        proof {
            assert(old(out)@ + top_action(store@, project@, order) =~= old(out)@);
        }
    }
}

/// The next phases of a project (named by name or alias): see `next_text`.
pub fn tool_next(store: &Store, project: &str) -> (out: String)
    requires
        store.wf(),
    ensures
        project_named(store@, project@) is None ==> out@ == "Project not found: "@ + project@,
        project_named(store@, project@) matches Some(p) ==> exists|order: Seq<PhaseView>|
            #[trigger] next_phases_of(store@.phases_of(p.id), order) && out@ == next_text(store@, project@, p.id, order),
{
    let ghost v = store@;
    let mut out = String::new();
    let proj = match find_project(store, project) {
        Some(p) => p,
        None => {
            push_str(&mut out, "Project not found: ");
            push_str(&mut out, project);
            return out;
        },
    };
    let dag = DagEngine::new(store, proj.id);
    let next: Vec<Phase> = match dag.next_phases() {
        Ok(n) => n,
        Err(_) => Vec::new(),
    };
    let ghost order = views(next@);
    push_str(&mut out, "=== Next Phases (by impact) ===\n\n");
    let ghost base = out@;
    let m: usize = if next.len() <= 3 { next.len() } else { 3 };
    let mut i: usize = 0;
    while i < m
        invariant
            store.wf(),
            v == store@,
            order == views(next@),
            m <= next@.len(),
            m == if order.len() <= 3 { order.len() } else { 3 },
            i <= m,
            out@ == base + next_lines(v, order.take(i as int)),
        decreases m - i,
    {
        push_next_phase_lines(&mut out, store, &next[i]);
        proof {
            assert(order.take(i + 1).drop_last() =~= order.take(i as int));
            assert(order[i as int] == next@[i as int]@);
        }
        i = i + 1;
    }
    proof {
        assert(first_n(order, 3) =~= order.take(m as int));
    }
    push_stagnation(&mut out, store, proj.id);
    let ghost o2 = out@;
    push_top_action(&mut out, store, project, &next);
    proof {
        assert(o2 =~= base + next_lines(v, first_n(order, 3))
            + (if fail_streak(v.experiments.filter(experiment_of_project(v, proj.id))) >= 3 {
                stagnation_text(fail_streak(v.experiments.filter(experiment_of_project(v, proj.id))))
            } else { Seq::empty() }));
    }
    push_str(&mut out, "\n## ACTION: Execute the top phase.");
    proof {
        assert(out@ =~= next_text(v, project@, proj.id, order));
    }
    out
}

/// Picks out the findings of an experiment of phase `pid`.
pub open spec fn finding_of_phase(v: StoreView, pid: i64) -> spec_fn(Finding) -> bool {
    |f: Finding| f.experiment_id matches Some(e) && v.experiment(e) matches Some(x) && x.phase_id == Some(pid)
}

/// Picks out the hypotheses still open (proposed or under test).
pub open spec fn is_open() -> spec_fn(Hypothesis) -> bool {
    |h: Hypothesis| h.status == HypothesisStatus::Proposed || h.status == HypothesisStatus::Testing
}

/// The summary of phase `p`: experiment tally, findings, open hypotheses.
pub open spec fn scaffold_summary(v: StoreView, p: PhaseView) -> Seq<char> {
    let es = phase_experiments(v, p.id);
    "=== Phase #"@ + dec_int(p.id as int) + " ("@ + p.name + ") ===\n\n"@
        + "## Experiment Summary: "@ + dec_nat(es.len()) + " total ("@
        + dec_nat(es.filter(has_status(ExperimentStatus::Pending)).len()) + " pending, "@
        + dec_nat(es.filter(has_status(ExperimentStatus::Pass)).len()) + " pass, "@
        + dec_nat(es.filter(has_status(ExperimentStatus::Fail)).len()) + " fail, "@
        + dec_nat(es.filter(has_status(ExperimentStatus::Inconclusive)).len()) + " inconclusive)\n\n"@
        + "Findings: "@ + dec_nat(v.findings.filter(finding_of_phase(v, p.id)).len()) + "\n"@
        + "Open hypotheses: "@ + dec_nat(v.hypotheses.filter(hypothesis_in(Some(p.id))).filter(is_open()).len()) + "\n\n"@
}

/// The description, goals and success criteria of phase `p`, where set.
pub open spec fn scaffold_details(p: PhaseView) -> Seq<char> {
    (match p.description { Some(d) => "Description: "@ + d + "\n"@, None => Seq::empty() })
        + (match p.goals { Some(g) => "Goals: "@ + g + "\n"@, None => Seq::empty() })
        + (match p.success_criteria { Some(c) => "Success criteria: "@ + c + "\n"@, None => Seq::empty() })
        + (if p.description is Some || p.goals is Some || p.success_criteria is Some { "\n"@ } else { Seq::empty() })
}

/// How dependency `d` reads: its id, name and status when it is a phase.
pub open spec fn dep_ref(v: StoreView, d: i64) -> Seq<char> {
    match v.phase(d) {
        Some(q) => "#"@ + dec_int(q.id as int) + " ("@ + q.name + ", "@ + q.status.spec_name() + ")"@,
        None => "#"@ + dec_int(d as int),
    }
}

/// The dependencies `ds`, joined by ", ".
pub open spec fn dep_refs(v: StoreView, ds: Seq<i64>) -> Seq<char>
    decreases ds.len(),
{
    if ds.len() == 0 {
        Seq::empty()
    } else if ds.len() == 1 {
        dep_ref(v, ds[0])
    } else {
        dep_refs(v, ds.drop_last()) + ", "@ + dep_ref(v, ds.last())
    }
}

/// The dependency line of phase `p`, when it has dependencies.
pub open spec fn scaffold_deps(v: StoreView, p: PhaseView) -> Seq<char> {
    if p.depends_on.len() > 0 { "Dependencies: "@ + dep_refs(v, p.depends_on) + "\n\n"@ } else { Seq::empty() }
}

/// The task block of pending experiment `e`, number `k`, of phase `p`,
/// asked for as project `project`.
pub open spec fn task_block(project: Seq<char>, p: PhaseView, k: nat, e: Experiment) -> Seq<char> {
    task_head(p, k, e) + task_notes(e) + task_create(project, p, e)
}

/// The opening lines of a task: its number, experiment and phase.
pub open spec fn task_head(p: PhaseView, k: nat, e: Experiment) -> Seq<char> {
    "TASK "@ + dec_nat(k) + ": Exp #"@ + dec_int(e.id as int) + " \u{2014} "@ + e.name@ + "\n"@
        + "  Status: pending | Phase: #"@ + dec_int(p.id as int) + " ("@ + p.name + ")\n"@
}

/// The notes of a task's experiment, cut to 200 characters, where set.
pub open spec fn task_notes(e: Experiment) -> Seq<char> {
    match opt_str(e.notes) { Some(n) => "  Notes: "@ + prefix(n, 200) + "\n"@, None => Seq::empty() }
}

/// The description of a task: its phase and the experiment's notes (or a
/// default instruction).
pub open spec fn task_desc(p: PhaseView, e: Experiment) -> Seq<char> {
    "Phase #"@ + dec_int(p.id as int) + " ("@ + p.name + "). "@
        + match opt_str(e.notes) { Some(n) => n, None => "Execute this experiment and record findings."@ }
}

/// The ready-to-create task line.
pub open spec fn task_create(project: Seq<char>, p: PhaseView, e: Experiment) -> Seq<char> {
    "  -> TaskCreate: subject=\""@ + project + " Exp #"@ + dec_int(e.id as int) + ": "@ + e.name@
        + "\" description=\""@ + prefix(task_desc(p, e), 200) + "\"\n\n"@
}

/// The task blocks of pending experiments `es`, numbered from 1.
pub open spec fn task_blocks(project: Seq<char>, p: PhaseView, es: Seq<Experiment>) -> Seq<char>
    decreases es.len(),
{
    if es.len() == 0 {
        Seq::empty()
    } else {
        task_blocks(project, p, es.drop_last()) + task_block(project, p, es.len(), es.last())
    }
}

/// The pending experiments of phase `p` as tasks, when there are any.
pub open spec fn scaffold_tasks(v: StoreView, project: Seq<char>, p: PhaseView) -> Seq<char> {
    let pend = pending_experiments(v, p.id);
    if pend.len() > 0 {
        "--- "@ + dec_nat(pend.len()) + " Pending Experiments ---\n\n"@ + task_blocks(project, p, pend)
    } else {
        Seq::empty()
    }
}

/// The line of constraint `c`: severity (hard when unset), text cut to 80
/// characters, and source (unknown when unset).
pub open spec fn constraint_line(c: Constraint) -> Seq<char> {
    "  C#"@ + dec_int(c.id as int) + " ["@ + (match opt_str(c.severity) { Some(x) => x, None => "hard"@ }) + "]: "@
        + prefix(c.text@, 80) + " (source: "@ + (match opt_str(c.source) { Some(x) => x, None => "unknown"@ }) + ")\n"@
}

/// The lines of constraints `cs`.
pub open spec fn constraint_lines(cs: Seq<Constraint>) -> Seq<char>
    decreases cs.len(),
{
    if cs.len() == 0 { Seq::empty() } else { constraint_lines(cs.drop_last()) + constraint_line(cs.last()) }
}

/// How a principle's scope reads.
pub open spec fn scope_word(s: PrincipleScope) -> Seq<char> {
    match s {
        PrincipleScope::Universal => "universal"@,
        PrincipleScope::Project => "project"@,
        PrincipleScope::Phase => "phase"@,
    }
}

/// The line of principle `p`: scope, enforcement (advisory when unset) and
/// text cut to 100 characters.
pub open spec fn principle_line(p: Principle) -> Seq<char> {
    "  P#"@ + dec_int(p.id as int) + " ["@ + scope_word(p.scope) + "|"@
        + (match opt_str(p.enforcement_level) { Some(x) => x, None => "advisory"@ }) + "]: "@ + prefix(p.text@, 100) + "\n"@
}

/// The lines of principles `ps`.
pub open spec fn principle_lines(ps: Seq<Principle>) -> Seq<char>
    decreases ps.len(),
{
    if ps.len() == 0 { Seq::empty() } else { principle_lines(ps.drop_last()) + principle_line(ps.last()) }
}

/// Picks out the principles in force.
pub open spec fn principle_active() -> spec_fn(Principle) -> bool {
    |p: Principle| p.status == PrincipleStatus::Active
}

/// The constraints and active principles of project `pid`, where there are any.
pub open spec fn scaffold_rules(v: StoreView, pid: i64) -> Seq<char> {
    let cs = v.constraints.filter(constraint_of(pid));
    let ps = v.principles.filter(principle_of(pid)).filter(principle_active());
    (if cs.len() > 0 { "--- Active Constraints ---\n\n"@ + constraint_lines(cs) + "\n"@ } else { Seq::empty() })
        + (if ps.len() > 0 { "--- Active Principles ---\n\n"@ + principle_lines(ps) + "\n"@ } else { Seq::empty() })
}

/// The scaffold of phase `p` of project `pid` (asked for as `project`).
pub open spec fn scaffold_text(v: StoreView, project: Seq<char>, pid: i64, p: PhaseView) -> Seq<char> {
    scaffold_summary(v, p) + scaffold_details(p) + scaffold_deps(v, p) + scaffold_tasks(v, project, p) + scaffold_rules(v, pid)
}

fn count_phase_findings(store: &Store, pid: i64) -> (n: usize)
    requires
        store.wf(),
    ensures
        n == store@.findings.filter(finding_of_phase(store@, pid)).len(),
{
    let fs = match store.list_findings(None) {
        Ok(x) => x,
        Err(_) => Vec::new(),
    };
    let ghost all = store@.findings;
    proof {
        crate::mcp::finding::lemma_filter_true(all, crate::store::finding_in(None));
    }
    let mut n: usize = 0;
    let mut i: usize = 0;
    while i < fs.len()
        invariant
            store.wf(),
            fs@ == all,
            all == store@.findings,
            i <= fs@.len(),
            n == all.take(i as int).filter(finding_of_phase(store@, pid)).len(),
            n <= i,
        decreases fs@.len() - i,
    {
        proof {
            assert(all.take(i + 1) =~= all.take(i as int).push(all[i as int]));
            all.take(i as int).lemma_filter_push(all[i as int], finding_of_phase(store@, pid));
        }
        if let Some(e) = fs[i].experiment_id {
            if let Ok(x) = store.get_experiment(e) {
                if x.phase_id == Some(pid) {
                    n = n + 1;
                }
            }
        }
        i = i + 1;
    }
    proof {
        assert(all.take(i as int) =~= all);
    }
    n
}

fn count_open(hs: &Vec<Hypothesis>) -> (n: usize)
    ensures
        n == hs@.filter(is_open()).len(),
{
    let mut n: usize = 0;
    let mut i: usize = 0;
    while i < hs.len()
        invariant
            i <= hs@.len(),
            n == hs@.take(i as int).filter(is_open()).len(),
            n <= i,
        decreases hs@.len() - i,
    {
        proof {
            assert(hs@.take(i + 1) =~= hs@.take(i as int).push(hs@[i as int]));
            hs@.take(i as int).lemma_filter_push(hs@[i as int], is_open());
        }
        if hs[i].status == HypothesisStatus::Proposed || hs[i].status == HypothesisStatus::Testing {
            n = n + 1;
        }
        i = i + 1;
    }
    proof {
        assert(hs@.take(i as int) =~= hs@);
    }
    n
}

#[verifier::rlimit(60)]
pub(crate) fn push_scaffold_summary(out: &mut String, store: &Store, p: &Phase)
    requires
        store.wf(),
    ensures
        final(out)@ == old(out)@ + scaffold_summary(store@, p@),
{
    let es = match store.list_experiments(Some(p.id)) {
        Ok(x) => x,
        Err(_) => Vec::new(),
    };
    let pending = count_status(&es, ExperimentStatus::Pending);
    let pass = count_status(&es, ExperimentStatus::Pass);
    let fail = count_status(&es, ExperimentStatus::Fail);
    let inc = count_status(&es, ExperimentStatus::Inconclusive);
    let fc = count_phase_findings(store, p.id);
    let hs = match store.list_hypotheses(Some(p.id)) {
        Ok(x) => x,
        Err(_) => Vec::new(),
    };
    let open = count_open(&hs);
    push_str(out, "=== Phase #");
    push_i64(out, p.id);
    push_str(out, " (");
    push_str(out, p.name.as_str());
    push_str(out, ") ===\n\n");
    push_str(out, "## Experiment Summary: ");
    push_usize(out, es.len());
    push_str(out, " total (");
    push_usize(out, pending);
    push_str(out, " pending, ");
    push_usize(out, pass);
    push_str(out, " pass, ");
    push_usize(out, fail);
    push_str(out, " fail, ");
    push_usize(out, inc);
    push_str(out, " inconclusive)\n\n");
    push_str(out, "Findings: ");
    push_usize(out, fc);
    push_str(out, "\n");
    push_str(out, "Open hypotheses: ");
    push_usize(out, open);
    push_str(out, "\n\n");
    proof {
        assert(out@ =~= old(out)@ + scaffold_summary(store@, p@));
    }
}

pub(crate) fn push_scaffold_details(out: &mut String, p: &Phase)
    ensures
        final(out)@ == old(out)@ + scaffold_details(p@),
{
    let ghost o = out@;
    if let Some(d) = &p.description {
        push_str(out, "Description: ");
        push_str(out, d.as_str());
        push_str(out, "\n");
    }
    let ghost o1 = out@;
    if let Some(g) = &p.goals {
        push_str(out, "Goals: ");
        push_str(out, g.as_str());
        push_str(out, "\n");
    }
    let ghost o2 = out@;
    if let Some(c) = &p.success_criteria {
        push_str(out, "Success criteria: ");
        push_str(out, c.as_str());
        push_str(out, "\n");
    }
    let ghost o3 = out@;
    if p.description.is_some() || p.goals.is_some() || p.success_criteria.is_some() {
        push_str(out, "\n");
    }
    proof {
        assert(o1 =~= o + (match p@.description { Some(d) => "Description: "@ + d + "\n"@, None => Seq::empty() }));
        assert(o2 =~= o1 + (match p@.goals { Some(g) => "Goals: "@ + g + "\n"@, None => Seq::empty() }));
        assert(o3 =~= o2 + (match p@.success_criteria { Some(c) => "Success criteria: "@ + c + "\n"@, None => Seq::empty() }));
        assert(out@ =~= old(out)@ + scaffold_details(p@));
    }
}

fn push_dep_ref(out: &mut String, store: &Store, d: i64)
    requires
        store.wf(),
    ensures
        final(out)@ == old(out)@ + dep_ref(store@, d),
{
    match store.get_phase(d) {
        Ok(q) => {
            push_str(out, "#");
            push_i64(out, q.id);
            push_str(out, " (");
            push_str(out, q.name.as_str());
            push_str(out, ", ");
            push_str(out, q.status.name());
            push_str(out, ")");
        },
        Err(_) => {
            push_str(out, "#");
            push_i64(out, d);
        },
    }
    proof {
        assert(out@ =~= old(out)@ + dep_ref(store@, d));
    }
}

pub(crate) fn push_scaffold_deps(out: &mut String, store: &Store, p: &Phase)
    requires
        store.wf(),
    ensures
        final(out)@ == old(out)@ + scaffold_deps(store@, p@),
{
    let ds = &p.depends_on;
    if ds.len() == 0 {
        proof { assert(old(out)@ + scaffold_deps(store@, p@) =~= old(out)@); }
        return;
    }
    push_str(out, "Dependencies: ");
    let ghost base = out@;
    let mut i: usize = 0;
    while i < ds.len()
        invariant
            store.wf(),
            i <= ds@.len(),
            out@ == base + dep_refs(store@, ds@.take(i as int)),
        decreases ds@.len() - i,
    {
        if i > 0 {
            push_str(out, ", ");
        }
        push_dep_ref(out, store, ds[i]);
        proof {
            assert(ds@.take(i + 1).drop_last() =~= ds@.take(i as int));
            if i == 0 {
                assert(dep_refs(store@, ds@.take(1)) == dep_ref(store@, ds@[0]));
            }
            assert(out@ =~= base + dep_refs(store@, ds@.take(i + 1)));
        }
        i = i + 1;
    }
    push_str(out, "\n\n");
    proof {
        assert(ds@.take(i as int) =~= ds@);
        assert(out@ =~= old(out)@ + scaffold_deps(store@, p@));
    }
}

} // verus!
