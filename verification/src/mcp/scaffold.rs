//! The task scaffold of a phase: its tallies, details and dependencies,
//! its pending experiments as ready-to-create tasks, and the constraints
//! and principles that bind the work.
use vstd::prelude::*;
use crate::text::{push_str, push_i64, push_usize, dec_int, dec_nat, prefix, take_chars};
use crate::store::{Store, StoreView, StoreError, Phase, PhaseView, Experiment, ExperimentStatus, Constraint, Principle,
    PrincipleScope, PrincipleStatus, opt_str, experiment_in, constraint_of, principle_of};
use crate::mcp::common::{error_text, error_str, project_named, find_project};
use crate::mcp::nodes::{pending_experiments, is_pending};
use crate::mcp::dashboard::{scaffold_text, scaffold_tasks, scaffold_rules, task_block, task_blocks, task_head, task_notes,
    task_desc, task_create, constraint_line,
    constraint_lines, principle_line, principle_lines, principle_active, scope_word, push_scaffold_summary,
    push_scaffold_details, push_scaffold_deps};

verus! {

broadcast use vstd::seq_lib::group_seq_properties;

fn push_task_head(out: &mut String, p: &Phase, k: usize, e: &Experiment)
    ensures
        final(out)@ == old(out)@ + task_head(p@, k as nat, *e),
{
    push_str(out, "TASK ");
    push_usize(out, k);
    push_str(out, ": Exp #");
    push_i64(out, e.id);
    push_str(out, " \u{2014} ");
    push_str(out, e.name.as_str());
    push_str(out, "\n");
    push_str(out, "  Status: pending | Phase: #");
    push_i64(out, p.id);
    push_str(out, " (");
    push_str(out, p.name.as_str());
    push_str(out, ")\n");
    proof {
        assert(out@ =~= old(out)@ + task_head(p@, k as nat, *e));
    }
}

fn push_task_notes(out: &mut String, e: &Experiment)
    ensures
        final(out)@ == old(out)@ + task_notes(*e),
{
    if let Some(n) = &e.notes {
        push_str(out, "  Notes: ");
        let t = take_chars(n.as_str(), 200);
        push_str(out, t.as_str());
        push_str(out, "\n");
    }
    proof {
        assert(out@ =~= old(out)@ + task_notes(*e));
    }
}

fn push_task_create(out: &mut String, project: &str, p: &Phase, e: &Experiment)
    ensures
        final(out)@ == old(out)@ + task_create(project@, p@, *e),
{
    let mut desc = String::new();
    push_str(&mut desc, "Phase #");
    push_i64(&mut desc, p.id);
    push_str(&mut desc, " (");
    push_str(&mut desc, p.name.as_str());
    push_str(&mut desc, "). ");
    match &e.notes {
        Some(n) => push_str(&mut desc, n.as_str()),
        None => push_str(&mut desc, "Execute this experiment and record findings."),
    }
    proof {
        assert(desc@ =~= task_desc(p@, *e));
    }
    push_str(out, "  -> TaskCreate: subject=\"");
    push_str(out, project);
    push_str(out, " Exp #");
    push_i64(out, e.id);
    push_str(out, ": ");
    push_str(out, e.name.as_str());
    push_str(out, "\" description=\"");
    let d = take_chars(desc.as_str(), 200);
    push_str(out, d.as_str());
    push_str(out, "\"\n\n");
    proof {
        assert(out@ =~= old(out)@ + task_create(project@, p@, *e));
    }
}

fn push_task_block(out: &mut String, project: &str, p: &Phase, k: usize, e: &Experiment)
    ensures
        final(out)@ == old(out)@ + task_block(project@, p@, k as nat, *e),
{
    push_task_head(out, p, k, e);
    push_task_notes(out, e);
    push_task_create(out, project, p, e);
    proof {
        assert(out@ =~= old(out)@ + task_block(project@, p@, k as nat, *e));
    }
}

fn push_scaffold_tasks(out: &mut String, store: &Store, project: &str, p: &Phase)
    requires
        store.wf(),
    ensures
        final(out)@ == old(out)@ + scaffold_tasks(store@, project@, p@),
{
    let es = match store.list_experiments(Some(p.id)) {
        Ok(x) => x,
        Err(_) => Vec::new(),
    };
    let ghost all = es@;
    let mut pend: Vec<Experiment> = Vec::new();
    let mut i: usize = 0;
    while i < es.len()
        invariant
            i <= es@.len(),
            all == es@,
            pend@ == all.take(i as int).filter(is_pending()),
        decreases es@.len() - i,
    {
        proof {
            assert(all.take(i + 1) =~= all.take(i as int).push(all[i as int]));
            all.take(i as int).lemma_filter_push(all[i as int], is_pending());
        }
        if es[i].status == ExperimentStatus::Pending {
            pend.push(es[i].dup());
        }
        i = i + 1;
    }
    proof {
        assert(all.take(i as int) =~= all);
        assert(pend@ == pending_experiments(store@, p.id));
    }
    if pend.len() == 0 {
        proof { assert(old(out)@ + scaffold_tasks(store@, project@, p@) =~= old(out)@); }
        return;
    }
    push_str(out, "--- ");
    push_usize(out, pend.len());
    push_str(out, " Pending Experiments ---\n\n");
    let ghost base = out@;
    let mut k: usize = 0;
    while k < pend.len()
        invariant
            k <= pend@.len(),
            out@ == base + task_blocks(project@, p@, pend@.take(k as int)),
        decreases pend@.len() - k,
    {
        push_task_block(out, project, p, k + 1, &pend[k]);
        proof {
            assert(pend@.take(k + 1).drop_last() =~= pend@.take(k as int));
            assert(pend@.take(k + 1).len() == k + 1);
            assert(out@ =~= base + task_blocks(project@, p@, pend@.take(k + 1)));
        }
        k = k + 1;
    }
    proof {
        assert(pend@.take(k as int) =~= pend@);
        assert(out@ =~= old(out)@ + scaffold_tasks(store@, project@, p@));
    }
}

fn push_constraint_line(out: &mut String, c: &Constraint)
    ensures
        final(out)@ == old(out)@ + constraint_line(*c),
{
    push_str(out, "  C#");
    push_i64(out, c.id);
    push_str(out, " [");
    match &c.severity {
        Some(x) => push_str(out, x.as_str()),
        None => push_str(out, "hard"),
    }
    push_str(out, "]: ");
    let t = take_chars(c.text.as_str(), 80);
    push_str(out, t.as_str());
    push_str(out, " (source: ");
    match &c.source {
        Some(x) => push_str(out, x.as_str()),
        None => push_str(out, "unknown"),
    }
    push_str(out, ")\n");
    proof {
        assert(out@ =~= old(out)@ + constraint_line(*c));
    }
}

fn push_principle_line(out: &mut String, p: &Principle)
    ensures
        final(out)@ == old(out)@ + principle_line(*p),
{
    push_str(out, "  P#");
    push_i64(out, p.id);
    push_str(out, " [");
    push_str(out, match p.scope {
        PrincipleScope::Universal => "universal",
        PrincipleScope::Project => "project",
        PrincipleScope::Phase => "phase",
    });
    push_str(out, "|");
    match &p.enforcement_level {
        Some(x) => push_str(out, x.as_str()),
        None => push_str(out, "advisory"),
    }
    push_str(out, "]: ");
    let t = take_chars(p.text.as_str(), 100);
    push_str(out, t.as_str());
    push_str(out, "\n");
    proof {
        assert(out@ =~= old(out)@ + principle_line(*p));
    }
}

fn push_scaffold_rules(out: &mut String, store: &Store, pid: i64)
    requires
        store.wf(),
    ensures
        final(out)@ == old(out)@ + scaffold_rules(store@, pid),
{
    let cs = match store.list_constraints(pid) {
        Ok(x) => x,
        Err(_) => Vec::new(),
    };
    let ghost o0 = out@;
    if cs.len() > 0 {
        push_str(out, "--- Active Constraints ---\n\n");
        let ghost base = out@;
        let mut i: usize = 0;
        while i < cs.len()
            invariant
                i <= cs@.len(),
                out@ == base + constraint_lines(cs@.take(i as int)),
            decreases cs@.len() - i,
        {
            push_constraint_line(out, &cs[i]);
            proof {
                assert(cs@.take(i + 1).drop_last() =~= cs@.take(i as int));
            }
            i = i + 1;
        }
        push_str(out, "\n");
        proof {
            assert(cs@.take(i as int) =~= cs@);
        }
    }
    let ghost o1 = out@;
    let ps = match store.list_principles(pid) {
        Ok(x) => x,
        Err(_) => Vec::new(),
    };
    let ghost allp = ps@;
    let mut act: Vec<Principle> = Vec::new();
    let mut j: usize = 0;
    while j < ps.len()
        invariant
            j <= ps@.len(),
            allp == ps@,
            act@ == allp.take(j as int).filter(principle_active()),
        decreases ps@.len() - j,
    {
        proof {
            assert(allp.take(j + 1) =~= allp.take(j as int).push(allp[j as int]));
            allp.take(j as int).lemma_filter_push(allp[j as int], principle_active());
        }
        if ps[j].status == PrincipleStatus::Active {
            act.push(ps[j].dup());
        }
        j = j + 1;
    }
    proof {
        assert(allp.take(j as int) =~= allp);
    }
    if act.len() > 0 {
        push_str(out, "--- Active Principles ---\n\n");
        let ghost base = out@;
        let mut k: usize = 0;
        while k < act.len()
            invariant
                k <= act@.len(),
                out@ == base + principle_lines(act@.take(k as int)),
            decreases act@.len() - k,
        {
            push_principle_line(out, &act[k]);
            proof {
                assert(act@.take(k + 1).drop_last() =~= act@.take(k as int));
            }
            k = k + 1;
        }
        push_str(out, "\n");
        proof {
            assert(act@.take(k as int) =~= act@);
        }
    }
    proof {
        assert(o1 =~= o0 + (if cs@.len() > 0 { "--- Active Constraints ---\n\n"@ + constraint_lines(cs@) + "\n"@ } else { Seq::empty() }));
        assert(out@ =~= old(out)@ + scaffold_rules(store@, pid));
    }
}

/// The task scaffold of phase `phase_id` of a project named by name or
/// alias: see `scaffold_text`. A missing project or phase is reported.
pub fn tool_scaffold(store: &Store, project: &str, phase_id: i64) -> (out: String)
    requires
        store.wf(),
    ensures
        project_named(store@, project@) is None ==> out@ == "Project not found: "@ + project@,
        project_named(store@, project@) is Some && store@.phase(phase_id) is None ==>
            out@ == "Phase not found: "@ + error_text(StoreError::NotFound),
        project_named(store@, project@) matches Some(pr) ==> (store@.phase(phase_id) matches Some(ph) ==>
            out@ == scaffold_text(store@, project@, pr.id, ph)),
{
    let mut out = String::new();
    let proj = match find_project(store, project) {
        Some(p) => p,
        None => {
            push_str(&mut out, "Project not found: ");
            push_str(&mut out, project);
            return out;
        },
    };
    let phase = match store.get_phase(phase_id) {
        Ok(p) => p,
        Err(e) => {
            push_str(&mut out, "Phase not found: ");
            push_str(&mut out, error_str(e));
            return out;
        },
    };
    push_scaffold_summary(&mut out, store, &phase);
    push_scaffold_details(&mut out, &phase);
    push_scaffold_deps(&mut out, store, &phase);
    push_scaffold_tasks(&mut out, store, project, &phase);
    push_scaffold_rules(&mut out, store, proj.id);
    proof {
        assert(out@ =~= scaffold_text(store@, project@, proj.id, phase@));
    }
    out
}

} // verus!
