//! Project and session tools: creating projects and subprojects, listing
//! them with what they hold, (de)activating them, and opening and closing
//! work sessions.
use vstd::prelude::*;
use crate::text::{push_str, push_i64, push_u64, push_usize, dec_int, dec_nat, str_eq};
use crate::store::{Store, StoreView, StoreError, Project, ProjectStatus, Session, Experiment, Finding, Hypothesis, has_room,
    opt_ref, opt_str, current_session, phase_of, experiment_of_project, decision_of, literature_of, principle_of,
    constraint_of, child_of};
use crate::mcp::common::{error_text, error_str, project_named, find_project, answers_to};
use crate::mcp::common::views as text_views;
use crate::mcp::repair::{phase_exps, exp_findings, collect_experiments, collect_findings};
use crate::dag::views;

verus! {

broadcast use vstd::seq_lib::group_seq_properties;

/// Creates a project, as a subproject of `parent` when one is named (by
/// name or alias).
pub fn tool_project_create(store: &mut Store, name: &str, alias: Option<&str>, parent: Option<&str>) -> (out: String)
    requires
        old(store).wf(),
    ensures
        final(store).wf(),
        name@.len() == 0 ==> final(store)@ == old(store)@ && out@ == "Error: project name is required."@,
        name@.len() > 0 && (parent matches Some(pn) && project_named(old(store)@, pn@) is None) ==>
            final(store)@ == old(store)@ && out@ == "Error: parent project "@ + parent.unwrap()@ + " not found."@,
        name@.len() > 0 && (parent matches Some(pn) ==> project_named(old(store)@, pn@) is Some) ==> {
            let v = old(store)@;
            let id = (v.projects.len() + 1) as i64;
            if has_room(v.projects.len()) {
                let p = final(store)@.projects.last();
                &&& final(store)@ == v.with_projects(v.projects.push(p))
                &&& p.id == id && p.name@ == name@ && opt_str(p.alias) == opt_ref(alias) && p.status == ProjectStatus::Active
                &&& p.parent_id == (match parent { Some(pn) => Some(project_named(v, pn@).unwrap().id), None => None })
                &&& out@ == (match parent {
                    Some(pn) => "Subproject #"@ + dec_int(id as int) + " "@ + name@ + " created under parent "@ + pn@ + "."@,
                    None => "Project #"@ + dec_int(id as int) + " "@ + name@ + " created."@,
                })
            } else {
                final(store)@ == v && out@ == "Error creating project: "@ + error_text(StoreError::Capacity)
            }
        },
{
    let mut out = String::new();
    if name.unicode_len() == 0 {
        push_str(&mut out, "Error: project name is required.");
        return out;
    }
    let parent_id = match parent {
        Some(pn) => match find_project(store, pn) {
            Some(p) => Some(p.id),
            None => {
                push_str(&mut out, "Error: parent project ");
                push_str(&mut out, pn);
                push_str(&mut out, " not found.");
                return out;
            },
        },
        None => None,
    };
    match store.create_project(name, alias, parent_id) {
        Ok(p) => {
            match parent {
                Some(pn) => {
                    push_str(&mut out, "Subproject #");
                    push_i64(&mut out, p.id);
                    push_str(&mut out, " ");
                    push_str(&mut out, p.name.as_str());
                    push_str(&mut out, " created under parent ");
                    push_str(&mut out, pn);
                    push_str(&mut out, ".");
                },
                None => {
                    push_str(&mut out, "Project #");
                    push_i64(&mut out, p.id);
                    push_str(&mut out, " ");
                    push_str(&mut out, p.name.as_str());
                    push_str(&mut out, " created.");
                },
            }
            out
        },
        Err(e) => {
            push_str(&mut out, "Error creating project: ");
            push_str(&mut out, error_str(e));
            out
        },
    }
}

/// Activates (`active`) or archives a project named by name or alias.
pub fn tool_project_set_status(store: &mut Store, name: &str, active: bool) -> (out: String)
    requires
        old(store).wf(),
    ensures
        final(store).wf(),
        name@.len() == 0 ==> final(store)@ == old(store)@ && out@ == "Error: project name is required"@,
        name@.len() > 0 && project_named(old(store)@, name@) is None ==> final(store)@ == old(store)@
            && out@ == "Project '"@ + name@ + "' not found. Use pm_project_list to see available projects."@,
        name@.len() > 0 ==> (project_named(old(store)@, name@) matches Some(p) ==> {
            let v = old(store)@;
            let st = if active { ProjectStatus::Active } else { ProjectStatus::Archived };
            &&& final(store)@ == v.with_projects(v.projects.update(p.id - 1, (Project { status: st, ..v.projects[p.id - 1] })))
            &&& out@ == "Project '"@ + p.name@ + "' (#"@ + dec_int(p.id as int) + ") "@
                + (if active { "activated"@ } else { "deactivated"@ }) + "."@
        }),
{
    let mut out = String::new();
    if name.unicode_len() == 0 {
        push_str(&mut out, "Error: project name is required");
        return out;
    }
    match find_project(store, name) {
        Some(p) => {
            let st = if active { ProjectStatus::Active } else { ProjectStatus::Archived };
            let _ = store.update_project_status(p.id, st);
            push_str(&mut out, "Project '");
            push_str(&mut out, p.name.as_str());
            push_str(&mut out, "' (#");
            push_i64(&mut out, p.id);
            push_str(&mut out, ") ");
            push_str(&mut out, if active { "activated" } else { "deactivated" });
            push_str(&mut out, ".");
            out
        },
        None => {
            push_str(&mut out, "Project '");
            push_str(&mut out, name);
            push_str(&mut out, "' not found. Use pm_project_list to see available projects.");
            out
        },
    }
}

/// Starts a work session, of the project named (by name or alias) when it
/// resolves; the session is stamped with the store clock.
pub fn tool_session_start(store: &mut Store, project: Option<&str>) -> (out: String)
    requires
        old(store).wf(),
    ensures
        final(store).wf(),
        ({
            let v = old(store)@;
            let pid = match project {
                Some(n) => match project_named(v, n@) { Some(p) => Some(p.id), None => None },
                None => None,
            };
            if has_room(v.sessions.len()) {
                let s = final(store)@.sessions.last();
                &&& final(store)@ == (StoreView { sessions: v.sessions.push(s), clock: Store::tick(v.clock), ..v })
                &&& s.id == v.sessions.len() + 1 && s.project_id == pid && s.active_experiment_id is None
                &&& s.started_at == v.clock && s.ended_at is None && s.summary is None
                &&& out@ == "Session #"@ + dec_int(s.id as int) + " started at tick "@ + dec_nat(v.clock as nat)
                    + (if pid is Some { " (project: "@ + project.unwrap()@ + ")"@ } else { Seq::empty() })
            } else {
                final(store)@ == v && out@ == "Error creating session: "@ + error_text(StoreError::Capacity)
            }
        }),
{
    let project_id = match project {
        Some(n) => match find_project(store, n) {
            Some(p) => Some(p.id),
            None => None,
        },
        None => None,
    };
    let mut out = String::new();
    match store.create_session(project_id) {
        Ok(s) => {
            push_str(&mut out, "Session #");
            push_i64(&mut out, s.id);
            push_str(&mut out, " started at tick ");
            push_u64(&mut out, s.started_at);
            if project_id.is_some() {
                push_str(&mut out, " (project: ");
                match project {
                    Some(n) => push_str(&mut out, n),
                    None => push_str(&mut out, "?"),
                }
                push_str(&mut out, ")");
            }
            out
        },
        Err(e) => {
            push_str(&mut out, "Error creating session: ");
            push_str(&mut out, error_str(e));
            out
        },
    }
}

/// Ends the current session (the latest one still open), with a summary
/// when one is given.
pub fn tool_session_end(store: &mut Store, summary: Option<&str>) -> (out: String)
    requires
        old(store).wf(),
    ensures
        final(store).wf(),
        current_session(old(store)@.sessions) is None ==> final(store)@ == old(store)@
            && out@ == "No active session to end. Start one with pm_session_start."@,
        current_session(old(store)@.sessions) matches Some(s) ==> {
            let v = old(store)@;
            let n = final(store)@.sessions[s.id - 1];
            &&& final(store)@ == (StoreView { sessions: v.sessions.update(s.id - 1, n), clock: Store::tick(v.clock), ..v })
            &&& n == (Session { ended_at: Some(v.clock), summary: n.summary, ..v.sessions[s.id - 1] })
            &&& opt_str(n.summary) == (if summary is Some { opt_ref(summary) } else { opt_str(v.sessions[s.id - 1].summary) })
            &&& out@ == "Session #"@ + dec_int(s.id as int) + " ended."@
                + (match summary { Some(t) => "\nSummary: "@ + t@, None => Seq::empty() })
        },
{
    let ghost v = store@;
    let mut out = String::new();
    match store.get_current_session() {
        Ok(Some(s)) => {
            proof {
                lemma_current_session_in(v.sessions);
            }
            let _ = store.end_session(s.id, summary);
            push_str(&mut out, "Session #");
            push_i64(&mut out, s.id);
            push_str(&mut out, " ended.");
            if let Some(t) = summary {
                push_str(&mut out, "\nSummary: ");
                push_str(&mut out, t);
            }
            out
        },
        _ => {
            push_str(&mut out, "No active session to end. Start one with pm_session_start.");
            out
        },
    }
}

proof fn lemma_current_session_in(s: Seq<Session>)
    requires
        forall|i: int| 0 <= i < s.len() ==> #[trigger] s[i].id == i + 1,
    ensures
        current_session(s) matches Some(x) ==> 1 <= x.id <= s.len() && s[x.id - 1] == x,
    decreases s.len(),
{
    if s.len() > 0 && s.last().ended_at is Some {
        assert forall|i: int| 0 <= i < s.drop_last().len() implies #[trigger] s.drop_last()[i].id == i + 1 by {
            assert(s.drop_last()[i] == s[i]);
        }
        lemma_current_session_in(s.drop_last());
    }
}

/// The answer of the retired research-step tool: the workflow that
/// replaces it.
pub open spec fn research_step_text() -> Seq<char> {
    "\u{26a0} pm_research_step is deprecated \u{2014} it breaks the causal backbone.\n\n"@
        + "Use this workflow instead:\n"@
        + "  1. pm_experiment_create phase_id=<id> name=\"<what you are investigating>\" informed_by_finding=<id>\n"@
        + "  2. pm_log_finding experiment_id=<new_exp_id> text=\"<your finding>\"\n\n"@
        + "This ensures every finding traces back through a causal chain.\n"@
}

/// The retired research-step tool: it records nothing and points to the
/// experiment-then-finding workflow that keeps the causal chain intact.
pub fn tool_research_step(store: &Store, project_name: &str, text: &str) -> (out: String)
    ensures
        out@ == research_step_text(),
{
    let mut help = String::new();
    push_str(&mut help, "\u{26a0} pm_research_step is deprecated \u{2014} it breaks the causal backbone.\n\n");
    push_str(&mut help, "Use this workflow instead:\n");
    push_str(&mut help, "  1. pm_experiment_create phase_id=<id> name=\"<what you are investigating>\" informed_by_finding=<id>\n");
    push_str(&mut help, "  2. pm_log_finding experiment_id=<new_exp_id> text=\"<your finding>\"\n\n");
    push_str(&mut help, "This ensures every finding traces back through a causal chain.\n");
    proof {
        assert(help@ =~= research_step_text());
    }
    help
}

/// A count part of a project summary; nothing for zero.
pub open spec fn count_part(label: Seq<char>, n: nat) -> Seq<Seq<char>> {
    if n > 0 { seq![label + ": "@ + dec_nat(n)] } else { Seq::empty() }
}

/// The non-zero counts of what project `pid` holds.
pub open spec fn count_parts(v: StoreView, pid: i64) -> Seq<Seq<char>> {
    let ps = v.phases.filter(phase_of(pid));
    let es = phase_exps(v, ps);
    count_part("Phases"@, ps.len()) + count_part("Experiments"@, es.len())
        + count_part("Findings"@, exp_findings(v, es).len())
        + count_part("Decisions"@, v.decisions.filter(decision_of(pid)).len())
        + count_part("Literature"@, v.literature.filter(literature_of(pid)).len())
        + count_part("Principles"@, v.principles.filter(principle_of(pid)).len())
        + count_part("Constraints"@, v.constraints.filter(constraint_of(pid)).len())
}

/// `parts` separated by `sep`.
pub open spec fn joined(parts: Seq<Seq<char>>, sep: Seq<char>) -> Seq<char>
    decreases parts.len(),
{
    if parts.len() == 0 {
        Seq::empty()
    } else if parts.len() == 1 {
        parts[0]
    } else {
        joined(parts.drop_last(), sep) + sep + parts.last()
    }
}

/// The summary of what project `pid` holds.
pub open spec fn counts_text(v: StoreView, pid: i64) -> Seq<char> {
    let parts = count_parts(v, pid);
    if parts.len() == 0 { "(empty)"@ } else { joined(parts, " | "@) }
}

fn push_count_part(parts: &mut Vec<String>, label: &str, n: usize)
    ensures
        text_views(final(parts)@) == text_views(old(parts)@) + count_part(label@, n as nat),
{
    let ghost before = parts@;
    if n > 0 {
        let mut s = String::new();
        push_str(&mut s, label);
        push_str(&mut s, ": ");
        push_usize(&mut s, n);
        parts.push(s);
        proof { assert(text_views(parts@) =~= text_views(before) + count_part(label@, n as nat)); }
    } else {
        proof { assert(text_views(parts@) =~= text_views(before) + count_part(label@, n as nat)); }
    }
}

/// Appends the summary of what project `pid` holds.
fn push_counts(out: &mut String, store: &Store, pid: i64)
    ensures
        final(out)@ == old(out)@ + counts_text(store@, pid),
{
    let ghost v = store@;
    let phases = match store.list_phases(pid) { Ok(x) => x, Err(_) => Vec::new() };
    proof { assert(views(phases@) == v.phases.filter(phase_of(pid))); }
    let exps = collect_experiments(store, &phases);
    let finds = collect_findings(store, &exps);
    let decisions = match store.list_decisions(pid) { Ok(x) => x.len(), Err(_) => 0 };
    let literature = match store.list_literature(pid) { Ok(x) => x.len(), Err(_) => 0 };
    let principles = match store.list_principles(pid) { Ok(x) => x.len(), Err(_) => 0 };
    let constraints = match store.list_constraints(pid) { Ok(x) => x.len(), Err(_) => 0 };
    let mut parts: Vec<String> = Vec::new();
    proof { assert(text_views(parts@) =~= Seq::<Seq<char>>::empty()); }
    push_count_part(&mut parts, "Phases", phases.len());
    push_count_part(&mut parts, "Experiments", exps.len());
    push_count_part(&mut parts, "Findings", finds.len());
    push_count_part(&mut parts, "Decisions", decisions);
    push_count_part(&mut parts, "Literature", literature);
    push_count_part(&mut parts, "Principles", principles);
    push_count_part(&mut parts, "Constraints", constraints);
    let ghost ps = text_views(parts@);
    proof {
        assert(views(phases@).len() == phases@.len());
        assert(ps =~= count_parts(v, pid));
    }
    if parts.len() == 0 {
        push_str(out, "(empty)");
        return;
    }
    let mut i: usize = 0;
    while i < parts.len()
        invariant
            ps == text_views(parts@),
            ps == count_parts(v, pid),
            ps.len() > 0,
            i <= parts@.len(),
            out@ == old(out)@ + joined(ps.take(i as int), " | "@),
        decreases parts@.len() - i,
    {
        if i > 0 {
            push_str(out, " | ");
        }
        push_str(out, parts[i].as_str());
        proof {
            let t = ps.take(i + 1);
            if i == 0 {
                assert(t.len() == 1);
                assert(joined(ps.take(0), " | "@) =~= Seq::<char>::empty());
            } else {
                assert(t.drop_last() =~= ps.take(i as int));
            }
            assert(out@ =~= old(out)@ + joined(t, " | "@));
        }
        i = i + 1;
    }
    proof { assert(ps.take(i as int) =~= ps); }
}

/// The line of a subproject and the line of its counts.
pub open spec fn sub_lines(v: StoreView, subs: Seq<Project>) -> Seq<char>
    decreases subs.len(),
{
    if subs.len() == 0 {
        Seq::empty()
    } else {
        let s = subs.last();
        sub_lines(v, subs.drop_last()) + "    \u{2514}\u{2500} #"@ + dec_int(s.id as int) + " "@ + s.name@
            + (match s.alias { Some(a) => " ["@ + a@ + "]"@, None => Seq::empty() }) + "\n"@
            + "       "@ + counts_text(v, s.id) + "\n"@
    }
}

/// The block of a top-level project: its line, then its subprojects.
pub open spec fn top_block(v: StoreView, p: Project) -> Seq<char> {
    let subs = v.projects.filter(child_of(p.id));
    "  #"@ + dec_int(p.id as int) + " "@ + p.name@ + " ("@
        + (if subs.len() == 0 { "standalone"@ } else { "parent"@ }) + ")  "@ + counts_text(v, p.id) + "\n"@
        + sub_lines(v, subs)
}

/// The blocks of the top-level projects among `ps`, in order.
pub open spec fn top_blocks(v: StoreView, ps: Seq<Project>) -> Seq<char>
    decreases ps.len(),
{
    if ps.len() == 0 {
        Seq::empty()
    } else {
        top_blocks(v, ps.drop_last()) + (if ps.last().parent_id is None { top_block(v, ps.last()) } else { Seq::empty() })
    }
}

fn push_top_block(out: &mut String, store: &Store, p: &Project)
    ensures
        final(out)@ == old(out)@ + top_block(store@, *p),
{
    let ghost v = store@;
    let subs = match store.list_subprojects(p.id) { Ok(x) => x, Err(_) => Vec::new() };
    push_str(out, "  #");
    push_i64(out, p.id);
    push_str(out, " ");
    push_str(out, p.name.as_str());
    push_str(out, " (");
    if subs.len() == 0 {
        push_str(out, "standalone");
    } else {
        push_str(out, "parent");
    }
    push_str(out, ")  ");
    push_counts(out, store, p.id);
    push_str(out, "\n");
    let ghost head = out@;
    let mut i: usize = 0;
    while i < subs.len()
        invariant
            v == store@,
            subs@ == v.projects.filter(child_of(p.id)),
            i <= subs@.len(),
            out@ == head + sub_lines(v, subs@.take(i as int)),
        decreases subs@.len() - i,
    {
        proof { assert(subs@.take(i + 1).drop_last() =~= subs@.take(i as int)); }
        let s = &subs[i];
        push_str(out, "    \u{2514}\u{2500} #");
        push_i64(out, s.id);
        push_str(out, " ");
        push_str(out, s.name.as_str());
        match &s.alias {
            Some(a) => {
                push_str(out, " [");
                push_str(out, a.as_str());
                push_str(out, "]");
            },
            None => {},
        }
        push_str(out, "\n");
        push_str(out, "       ");
        push_counts(out, store, s.id);
        push_str(out, "\n");
        proof { assert(out@ =~= head + sub_lines(v, subs@.take(i + 1))); }
        i = i + 1;
    }
    proof {
        assert(subs@.take(i as int) =~= subs@);
        assert(out@ =~= old(out)@ + top_block(v, *p));
    }
}

/// The list of all projects: each top-level project, whether it stands
/// alone or has subprojects, and what it holds, followed by its
/// subprojects.
pub open spec fn project_list_text(v: StoreView) -> Seq<char> {
    "Projects:\n"@ + top_blocks(v, v.projects)
}

/// Lists the projects with their subprojects and what each holds; see
/// `project_list_text`.  The store is not changed.
pub fn tool_project_list(store: &Store) -> (out: String)
    ensures
        out@ == project_list_text(store@),
{
    let ghost v = store@;
    let ps = match store.list_projects() { Ok(x) => x, Err(_) => Vec::new() };
    let mut out = String::new();
    push_str(&mut out, "Projects:\n");
    let mut i: usize = 0;
    while i < ps.len()
        invariant
            v == store@,
            ps@ == v.projects,
            i <= ps@.len(),
            out@ == "Projects:\n"@ + top_blocks(v, ps@.take(i as int)),
        decreases ps@.len() - i,
    {
        proof { assert(ps@.take(i + 1).drop_last() =~= ps@.take(i as int)); }
        let ghost before = out@;
        if ps[i].parent_id.is_none() {
            push_top_block(&mut out, store, &ps[i]);
        }
        proof { assert(out@ =~= "Projects:\n"@ + top_blocks(v, ps@.take(i + 1))); }
        i = i + 1;
    }
    proof { assert(ps@.take(i as int) =~= ps@); }
    out
}


/// A session that has just started is the current session.
pub proof fn law_started_session_is_current(sessions: Seq<Session>, s: Session)
    requires
        s.ended_at is None,
    ensures
        current_session(sessions.push(s)) == Some(s),
{
    assert(sessions.push(s).last() == s);
}

/// Ending the current session leaves an earlier open session, if any, as
/// the current one: the ended session is never current again.
pub proof fn law_ended_session_is_not_current(sessions: Seq<Session>, k: int, n: Session)
    requires
        0 <= k < sessions.len(),
        current_session(sessions) == Some(sessions[k]),
        forall|j: int| k < j < sessions.len() ==> (#[trigger] sessions[j]).ended_at is Some,
        n.ended_at is Some,
    ensures
        current_session(sessions.update(k, n)) == current_session(sessions.take(k)),
    decreases sessions.len(),
{
    let u = sessions.update(k, n);
    if k == sessions.len() - 1 {
        assert(u.drop_last() =~= sessions.take(k));
    } else {
        let t = sessions.drop_last();
        assert(sessions.last().ended_at is Some);
        assert(current_session(t) == Some(t[k]));
        assert forall|j: int| k < j < t.len() implies (#[trigger] t[j]).ended_at is Some by {
            assert(t[j] == sessions[j]);
        }
        law_ended_session_is_not_current(t, k, n);
        assert(u.drop_last() =~= t.update(k, n));
        assert(t.take(k) =~= sessions.take(k));
        assert(u.last() == sessions.last());
    }
}

proof fn lemma_current_at(s: Seq<Session>) -> (i: int)
    requires
        current_session(s) is Some,
    ensures
        0 <= i < s.len(),
        s[i] == current_session(s).unwrap(),
        s[i].ended_at is None,
        forall|j: int| i < j < s.len() ==> (#[trigger] s[j]).ended_at is Some,
    decreases s.len(),
{
    if s.last().ended_at is None {
        (s.len() - 1) as int
    } else {
        let i = lemma_current_at(s.drop_last());
        assert forall|j: int| i < j < s.len() implies (#[trigger] s[j]).ended_at is Some by {
            if j < s.len() - 1 {
                assert(s[j] == s.drop_last()[j]);
            }
        }
        i
    }
}

proof fn lemma_current_update(s: Seq<Session>, i: int, n: Session)
    requires
        0 <= i < s.len(),
        s[i].ended_at is None,
        n.ended_at is None,
        forall|j: int| i < j < s.len() ==> (#[trigger] s[j]).ended_at is Some,
    ensures
        current_session(s.update(i, n)) == Some(n),
    decreases s.len(),
{
    let u = s.update(i, n);
    if i == s.len() - 1 {
        assert(u.last() == n);
    } else {
        assert(u.last() == s.last());
        assert(u.drop_last() =~= s.drop_last().update(i, n));
        assert forall|j: int| i < j < s.drop_last().len() implies (#[trigger] s.drop_last()[j]).ended_at is Some by {
            assert(s.drop_last()[j] == s[j]);
        }
        lemma_current_update(s.drop_last(), i, n);
    }
}

/// Setting the session's experiment in store `v` made store `w` and
/// answered `out`: with no session open, a note to start one; with no such
/// experiment, "not found"; otherwise the current session's active
/// experiment becomes `eid`, so that findings logged without an experiment
/// go to it.
pub open spec fn session_experiment_set(v: StoreView, w: StoreView, out: Seq<char>, eid: i64) -> bool {
    match current_session(v.sessions) {
        None => w == v && out == "No active session. Start one with pm_session_start."@,
        Some(s) => match v.experiment(eid) {
            None => w == v && out == "Experiment #"@ + dec_int(eid as int) + " not found."@,
            Some(e) => {
                &&& w == (StoreView { sessions: v.sessions.update(s.id - 1, (Session { active_experiment_id: Some(eid), ..s })), ..v })
                &&& out == "Active experiment for session #"@ + dec_int(s.id as int) + " set to Exp #"@ + dec_int(eid as int)
                    + ": "@ + e.name@
            },
        },
    }
}

/// Sets the active experiment of the current session; see
/// `session_experiment_set`.
pub fn tool_session_set_experiment(store: &mut Store, experiment_id: i64) -> (out: String)
    requires
        old(store).wf(),
    ensures
        final(store).wf(),
        session_experiment_set(old(store)@, final(store)@, out@, experiment_id),
{
    let mut out = String::new();
    let cur = match store.get_current_session() {
        Ok(Some(s)) => s,
        _ => {
            push_str(&mut out, "No active session. Start one with pm_session_start.");
            return out;
        },
    };
    let e = match store.get_experiment(experiment_id) {
        Ok(e) => e,
        Err(_) => {
            push_str(&mut out, "Experiment #");
            push_i64(&mut out, experiment_id);
            push_str(&mut out, " not found.");
            return out;
        },
    };
    proof {
        let i = lemma_current_at(store@.sessions);
        assert(store@.sessions[i].id == i + 1);
    }
    match store.set_session_experiment(cur.id, experiment_id) {
        Ok(()) => {},
        Err(_) => { return out; },
    }
    push_str(&mut out, "Active experiment for session #");
    push_i64(&mut out, cur.id);
    push_str(&mut out, " set to Exp #");
    push_i64(&mut out, experiment_id);
    push_str(&mut out, ": ");
    push_str(&mut out, e.name.as_str());
    out
}

/// After the session's experiment is set, the current session is the same
/// session and names that experiment as active.
pub proof fn law_session_experiment_is_active(v: StoreView, w: StoreView, out: Seq<char>, eid: i64)
    requires
        v.wf(),
        session_experiment_set(v, w, out, eid),
        current_session(v.sessions) is Some,
        v.experiment(eid) is Some,
    ensures
        current_session(w.sessions) matches Some(s) && s.id == current_session(v.sessions).unwrap().id
            && s.active_experiment_id == Some(eid),
{
    let s = current_session(v.sessions).unwrap();
    let i = lemma_current_at(v.sessions);
    assert(v.sessions[i].id == i + 1);
    lemma_current_update(v.sessions, i, Session { active_experiment_id: Some(eid), ..s });
}

} // verus!
