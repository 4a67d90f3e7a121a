//! Creating an experiment with its causal upstream: the first experiment of
//! a phase may stand alone, every later one must name the finding,
//! decision or experiment that motivated it.  The new experiment is linked
//! into its phase and to its upstream; a second experiment led to by the
//! same experiment makes a branch point, and the project's constraints are
//! surfaced, expired ones apart.
use vstd::prelude::*;
use crate::text::{push_str, push_i64, push_usize, push_u128, take_chars, dec_int, dec_nat, prefix};
use crate::store::{Store, StoreView, StoreError, Edge, NodeType, EdgeType, Constraint, Experiment, has_room,
    experiment_in, constraint_of};
use crate::mcp::common::{error_text, error_str, try_link, link_edge, views};
use crate::mcp::finding::first_n;
use crate::mcp::repair::{downstream, downstream_exec, lemma_take_all, line_block, push_line};
use crate::mcp::review::seq_le;
use crate::mcp::context::severity_of;
use vstd::string::StrSliceExecFns;

verus! {

broadcast use vstd::seq_lib::group_seq_properties;

/// How a link to the new experiment is reported.
pub open spec fn exp_line(src: Seq<char>, from: i64, rel: EdgeType, to: i64) -> Seq<char> {
    src + "#"@ + dec_int(from as int) + " --"@ + rel.spec_name() + "--> Exp#"@ + dec_int(to as int)
}

/// The store, the reported links and the notes while linking.
pub struct Outcome {
    pub store: StoreView,
    pub lines: Seq<Seq<char>>,
    pub notes: Seq<char>,
}

/// Tries link `l`: a success reports `line`; a refusal adds a note when
/// `noted`.
pub open spec fn attempt(o: Outcome, l: (NodeType, i64, NodeType, i64, EdgeType), line: Seq<char>, noted: bool) -> Outcome {
    if has_room(o.store.edges.len()) {
        Outcome { store: try_link(o.store, l), lines: o.lines.push(line), notes: o.notes }
    } else {
        Outcome {
            store: o.store,
            lines: o.lines,
            notes: if noted { o.notes + "  (edge error: "@ + error_text(StoreError::Capacity) + ")\n"@ } else { o.notes },
        }
    }
}

/// An edge that leads from experiment `eid` to another experiment as
/// plain information.
pub open spec fn informed_exp_edge(eid: i64) -> spec_fn(Edge) -> bool {
    |e: Edge| e.source_type == NodeType::Experiment && e.source_id == eid && e.target_type == NodeType::Experiment
        && e.relation == EdgeType::Informed
}

/// Edge `e`, turned into a branch when it is such an edge.
pub open spec fn upgraded(eid: i64) -> spec_fn(Edge) -> Edge {
    |e: Edge| if informed_exp_edge(eid)(e) { Edge { relation: EdgeType::BranchesFrom, ..e } } else { e }
}

/// Turns the plain information edges out of experiment `eid` into branch
/// edges, and notes how many.
pub open spec fn upgrade(o: Outcome, eid: i64) -> Outcome {
    let n = o.store.edges.filter(informed_exp_edge(eid)).len();
    Outcome {
        store: o.store.with_edges(o.store.edges.map_values(upgraded(eid))),
        lines: o.lines,
        notes: o.notes + if n > 0 {
            "  (upgraded "@ + dec_nat(n) + " existing Informed edges to BranchesFrom)\n"@
        } else {
            Seq::empty()
        },
    }
}

/// The links of a new experiment `xid` of phase `pid`, from store `v1`
/// (which already holds it): into its phase, then from the finding, the
/// decision and the experiment that informed it; an experiment that
/// already led to others makes a branch point.
pub open spec fn link_outcome(v1: StoreView, pid: i64, xid: i64, ifb: Option<i64>, ibd: Option<i64>, ibe: Option<i64>) -> Outcome {
    let o0 = Outcome { store: v1, lines: Seq::empty(), notes: Seq::empty() };
    let o1 = attempt(o0, (NodeType::Phase, pid, NodeType::Experiment, xid, EdgeType::Contains),
        exp_line("Phase"@, pid, EdgeType::Contains, xid), false);
    let o2 = match ifb {
        Some(f) => attempt(o1, (NodeType::Finding, f, NodeType::Experiment, xid, EdgeType::Informed),
            exp_line("Finding"@, f, EdgeType::Informed, xid), true),
        None => o1,
    };
    let o3 = match ibd {
        Some(d) => attempt(o2, (NodeType::Decision, d, NodeType::Experiment, xid, EdgeType::Informed),
            exp_line("Decision"@, d, EdgeType::Informed, xid), true),
        None => o2,
    };
    match ibe {
        None => o3,
        Some(e) => from_experiment(o3, e, xid),
    }
}

/// The link from experiment `e` to the new experiment `xid`: a branch when
/// `e` already led to other experiments, turning its plain links into
/// branches too; plain information otherwise.
pub open spec fn from_experiment(o3: Outcome, e: i64, xid: i64) -> Outcome {
    let count = downstream(o3.store, e).len();
    if count > 0 {
        let o4 = attempt(o3, (NodeType::Experiment, e, NodeType::Experiment, xid, EdgeType::BranchesFrom),
            exp_line("Exp"@, e, EdgeType::BranchesFrom, xid), true);
        upgrade(Outcome { notes: o4.notes + branch_note(e, count), ..o4 }, e)
    } else {
        attempt(o3, (NodeType::Experiment, e, NodeType::Experiment, xid, EdgeType::Informed),
            exp_line("Exp"@, e, EdgeType::Informed, xid), true)
    }
}

/// The note of a new branch point at experiment `e`, which already led to
/// `count` experiments.
pub open spec fn branch_note(e: i64, count: nat) -> Seq<char> {
    "\n** BRANCH POINT: Exp#"@ + dec_int(e as int) + " now has "@ + dec_nat(count + 1)
        + " downstream experiments (including this one). This is a research branch point.\n"@
}

/// The reported links, one per line.
pub open spec fn links_section(lines: Seq<Seq<char>>) -> Seq<char> {
    if lines.len() > 0 {
        "\nCausal links:\n"@ + line_block(lines.map_values(|l: Seq<char>| "  + "@ + l))
    } else {
        Seq::empty()
    }
}

/// Constraint `c` expires on or before `today`.
pub open spec fn is_expired(c: Constraint, today: Seq<char>) -> bool {
    c.expires_at matches Some(x) && x@.len() > 0 && seq_le(x@, today)
}

/// The line of a constraint still in force.
pub open spec fn active_line(c: Constraint) -> Seq<char> {
    "  C#"@ + dec_int(c.id as int) + " ["@ + severity_of(c) + "]: "@ + prefix(c.text@, 60)
}

/// The line of an expired constraint.
pub open spec fn lapsed_line(c: Constraint) -> Seq<char> {
    "  C#"@ + dec_int(c.id as int) + ": "@ + prefix(c.text@, 60) + " (expired "@
        + (match c.expires_at { Some(x) => x@, None => "?"@ }) + ")"@
}

/// The constraints to consider: the first five in force, then the first
/// three expired on or before `today`.
pub open spec fn constraints_section(cs: Seq<Constraint>, today: Seq<char>) -> Seq<char> {
    let active = cs.filter(|c: Constraint| !is_expired(c, today));
    let expired = cs.filter(|c: Constraint| is_expired(c, today));
    (if active.len() > 0 {
        "\nActive constraints to consider:\n"@ + line_block(first_n(active, 5).map_values(|c: Constraint| active_line(c)))
    } else {
        Seq::empty()
    }) + (if expired.len() > 0 {
        "\nWARNING: Expired constraints (may need re-validation):\n"@
            + line_block(first_n(expired, 3).map_values(|c: Constraint| lapsed_line(c)))
    } else {
        Seq::empty()
    })
}

/// Why an experiment cannot be created as asked, if it cannot: a name
/// under 10 characters, or no upstream for an experiment that is not the
/// first of its phase.
pub open spec fn create_problem(v: StoreView, pid: i64, name: Seq<char>, ifb: Option<i64>, ibd: Option<i64>,
    ibe: Option<i64>) -> Option<Seq<char>>
{
    if name.len() < 10 {
        Some("\u{274c} Experiment name too short (min 10 chars). Describe what investigation this experiment represents."@)
    } else if ifb is None && ibd is None && ibe is None && v.experiments.filter(experiment_in(Some(pid))).len() > 0 {
        Some(upstream_help())
    } else {
        None
    }
}

/// The answer to an experiment with no upstream.
pub open spec fn upstream_help() -> Seq<char> {
    "\u{274c} CAUSAL BACKBONE ERROR: Experiment requires causal upstream.\n"@
        + "Every experiment (except the first in a phase) must link to what motivated it.\n\n"@
        + "Provide one of:\n"@
        + "  informed_by_finding=<id>     \u{2014} this experiment investigates finding #N\n"@
        + "  informed_by_decision=<id>    \u{2014} this experiment was directed by decision #N\n"@
        + "  informed_by_experiment=<id>  \u{2014} this experiment continues/branches from experiment #N\n"@
}

/// The store can take a new experiment of phase `pid`.
pub open spec fn can_create(v: StoreView, pid: i64) -> bool {
    has_room(v.experiments.len()) && v.phase(pid) is Some
}

/// Creating an experiment named `name` in phase `pid` took store `v` to
/// `w` and answered `out`, with expiry dates held against `today`.
pub open spec fn created(v: StoreView, w: StoreView, out: Seq<char>, pid: i64, name: Seq<char>, ifb: Option<i64>,
    ibd: Option<i64>, ibe: Option<i64>, today: Seq<char>) -> bool
{
    match create_problem(v, pid, name, ifb, ibd, ibe) {
        Some(m) => w == v && out == m,
        None => if !can_create(v, pid) {
            w == v && out == "Error creating experiment: "@ + error_text(
                if !has_room(v.experiments.len()) { StoreError::Capacity } else { StoreError::Constraint })
        } else {
            let xid = (v.experiments.len() + 1) as i64;
            let x = w.experiments.last();
            let v1 = v.with_experiments(v.experiments.push(x));
            let o = link_outcome(v1, pid, xid, ifb, ibd, ibe);
            &&& w.experiments.len() == v.experiments.len() + 1
            &&& x.id == xid && x.phase_id == Some(pid) && x.name@ == name
            &&& x.status == crate::store::ExperimentStatus::Pending && x.result is None && x.notes is None
            &&& w == o.store
            &&& out == "Experiment #"@ + dec_int(xid as int) + " created: "@ + name + "\n"@ + o.notes
                + links_section(o.lines)
                + constraints_section(w.constraints.filter(constraint_of(v.phase(pid).unwrap().project_id)), today)
        },
    }
}

fn attempt_exec(store: &mut Store, l: (NodeType, i64, NodeType, i64, EdgeType), src: &str, noted: bool,
    lines: &mut Vec<String>, notes: &mut String)
    requires
        old(store).wf(),
    ensures
        final(store).wf(),
        final(store)@ == attempt(Outcome { store: old(store)@, lines: views(old(lines)@), notes: old(notes)@ }, l,
            exp_line(src@, l.1, l.4, l.3), noted).store,
        views(final(lines)@) == attempt(Outcome { store: old(store)@, lines: views(old(lines)@), notes: old(notes)@ }, l,
            exp_line(src@, l.1, l.4, l.3), noted).lines,
        final(notes)@ == attempt(Outcome { store: old(store)@, lines: views(old(lines)@), notes: old(notes)@ }, l,
            exp_line(src@, l.1, l.4, l.3), noted).notes,
{
    match store.create_edge(l.0, l.1, l.2, l.3, l.4) {
        Ok(e) => {
            let mut line = String::new();
            push_str(&mut line, src);
            push_str(&mut line, "#");
            push_i64(&mut line, l.1);
            push_str(&mut line, " --");
            push_str(&mut line, l.4.name());
            push_str(&mut line, "--> Exp#");
            push_i64(&mut line, l.3);
            proof {
                assert(line@ =~= exp_line(src@, l.1, l.4, l.3));
                assert(e == link_edge(old(store)@, l));
            }
            push_line(lines, line);
        },
        Err(e) => {
            if noted {
                push_str(notes, "  (edge error: ");
                push_str(notes, error_str(e));
                push_str(notes, ")\n");
            }
        },
    }
}

fn upgrade_exec(store: &mut Store, eid: i64, notes: &mut String)
    requires
        old(store).wf(),
    ensures
        final(store).wf(),
        final(store)@ == upgrade(Outcome { store: old(store)@, lines: Seq::empty(), notes: old(notes)@ }, eid).store,
        final(notes)@ == upgrade(Outcome { store: old(store)@, lines: Seq::empty(), notes: old(notes)@ }, eid).notes,
{
    let ghost v0 = store@;
    let ghost pred = informed_exp_edge(eid);
    let ghost f = upgraded(eid);
    let es = match store.list_all_edges() { Ok(x) => x, Err(_) => Vec::new() };
    let mut n: usize = 0;
    let mut k: usize = 0;
    while k < es.len()
        invariant
            store.wf(),
            es@ == v0.edges,
            pred == informed_exp_edge(eid),
            f == upgraded(eid),
            v0.wf(),
            k <= es@.len(),
            store@ == v0.with_edges(v0.edges.take(k as int).map_values(f) + v0.edges.skip(k as int)),
            n == v0.edges.take(k as int).filter(pred).len(),
            n <= k,
        decreases es@.len() - k,
    {
        proof {
            assert(v0.edges.take(k + 1) =~= v0.edges.take(k as int).push(v0.edges[k as int]));
            v0.edges.take(k as int).lemma_filter_push(v0.edges[k as int], pred);
        }
        let e = es[k];
        let ghost before = store@;
        if e.source_type == NodeType::Experiment && e.source_id == eid && e.target_type == NodeType::Experiment
            && e.relation == EdgeType::Informed {
            proof {
                assert(before.edges.len() == v0.edges.len());
                assert(v0.edges[k as int].id == k + 1);
                assert(before.edges[k as int] == v0.edges[k as int]);
            }
            let _ = store.set_edge_relation((k + 1) as i64, EdgeType::BranchesFrom);
            n = n + 1;
            proof {
                assert(store@.edges =~= v0.edges.take(k + 1).map_values(f) + v0.edges.skip(k + 1));
                assert(store@ == v0.with_edges(v0.edges.take(k + 1).map_values(f) + v0.edges.skip(k + 1)));
            }
        } else {
            proof {
                assert(v0.edges.take(k as int).map_values(f) + v0.edges.skip(k as int)
                    =~= v0.edges.take(k + 1).map_values(f) + v0.edges.skip(k + 1));
            }
        }
        k = k + 1;
    }
    proof {
        lemma_take_all(v0.edges);
        assert(v0.edges.take(k as int).map_values(f) + v0.edges.skip(k as int) =~= v0.edges.map_values(f));
    }
    if n > 0 {
        push_str(notes, "  (upgraded ");
        push_usize(notes, n);
        push_str(notes, " existing Informed edges to BranchesFrom)\n");
    }
    proof {
        assert(final(notes)@ =~= upgrade(Outcome { store: v0, lines: Seq::empty(), notes: old(notes)@ }, eid).notes);
    }
}

fn link_all(store: &mut Store, pid: i64, xid: i64, ifb: Option<i64>, ibd: Option<i64>, ibe: Option<i64>,
    lines: &mut Vec<String>, notes: &mut String)
    requires
        old(store).wf(),
        old(lines)@.len() == 0,
        old(notes)@.len() == 0,
    ensures
        final(store).wf(),
        final(store)@ == link_outcome(old(store)@, pid, xid, ifb, ibd, ibe).store,
        views(final(lines)@) == link_outcome(old(store)@, pid, xid, ifb, ibd, ibe).lines,
        final(notes)@ == link_outcome(old(store)@, pid, xid, ifb, ibd, ibe).notes,
{
    let ghost v1 = store@;
    let ghost o0 = Outcome { store: v1, lines: Seq::empty(), notes: Seq::empty() };
    proof {
        assert(views(lines@) =~= Seq::<Seq<char>>::empty());
        assert(notes@ =~= Seq::<char>::empty());
    }
    attempt_exec(store, (NodeType::Phase, pid, NodeType::Experiment, xid, EdgeType::Contains), "Phase", false, lines, notes);
    let ghost o1 = attempt(o0, (NodeType::Phase, pid, NodeType::Experiment, xid, EdgeType::Contains),
        exp_line("Phase"@, pid, EdgeType::Contains, xid), false);
    let ghost o2 = match ifb {
        Some(f) => attempt(o1, (NodeType::Finding, f, NodeType::Experiment, xid, EdgeType::Informed),
            exp_line("Finding"@, f, EdgeType::Informed, xid), true),
        None => o1,
    };
    match ifb {
        Some(f) => {
            attempt_exec(store, (NodeType::Finding, f, NodeType::Experiment, xid, EdgeType::Informed), "Finding", true,
                lines, notes);
        },
        None => {},
    }
    proof { assert(store@ == o2.store && views(lines@) == o2.lines && notes@ == o2.notes); }
    let ghost o3 = match ibd {
        Some(d) => attempt(o2, (NodeType::Decision, d, NodeType::Experiment, xid, EdgeType::Informed),
            exp_line("Decision"@, d, EdgeType::Informed, xid), true),
        None => o2,
    };
    match ibd {
        Some(d) => {
            attempt_exec(store, (NodeType::Decision, d, NodeType::Experiment, xid, EdgeType::Informed), "Decision", true,
                lines, notes);
        },
        None => {},
    }
    proof { assert(store@ == o3.store && views(lines@) == o3.lines && notes@ == o3.notes); }
    match ibe {
        Some(e) => from_experiment_exec(store, e, xid, lines, notes),
        None => {},
    }
}

fn from_experiment_exec(store: &mut Store, e: i64, xid: i64, lines: &mut Vec<String>, notes: &mut String)
    requires
        old(store).wf(),
    ensures
        final(store).wf(),
        final(store)@ == from_experiment(Outcome { store: old(store)@, lines: views(old(lines)@), notes: old(notes)@ }, e, xid).store,
        views(final(lines)@) == from_experiment(Outcome { store: old(store)@, lines: views(old(lines)@), notes: old(notes)@ }, e, xid).lines,
        final(notes)@ == from_experiment(Outcome { store: old(store)@, lines: views(old(lines)@), notes: old(notes)@ }, e, xid).notes,
{
    let ghost o3 = Outcome { store: store@, lines: views(lines@), notes: notes@ };
    let count = downstream_exec(store, e).len();
    if count > 0 {
        attempt_exec(store, (NodeType::Experiment, e, NodeType::Experiment, xid, EdgeType::BranchesFrom), "Exp",
            true, lines, notes);
        let ghost o4 = attempt(o3, (NodeType::Experiment, e, NodeType::Experiment, xid, EdgeType::BranchesFrom),
            exp_line("Exp"@, e, EdgeType::BranchesFrom, xid), true);
        push_str(notes, "\n** BRANCH POINT: Exp#");
        push_i64(notes, e);
        push_str(notes, " now has ");
        push_u128(notes, count as u128 + 1);
        push_str(notes, " downstream experiments (including this one). This is a research branch point.\n");
        proof {
            assert(notes@ =~= o4.notes + branch_note(e, count as nat));
        }
        let ghost o5 = Outcome { notes: o4.notes + branch_note(e, count as nat), ..o4 };
        upgrade_exec(store, e, notes);
        proof {
            assert(upgrade(Outcome { store: o5.store, lines: Seq::empty(), notes: o5.notes }, e).store
                == upgrade(o5, e).store);
        }
    } else {
        attempt_exec(store, (NodeType::Experiment, e, NodeType::Experiment, xid, EdgeType::Informed), "Exp",
            true, lines, notes);
    }
}

fn push_constraints(out: &mut String, cs: &Vec<Constraint>, today: &str)
    ensures
        final(out)@ == old(out)@ + constraints_section(cs@, today@),
{
    let ghost pa = |c: Constraint| !is_expired(c, today@);
    let ghost pe = |c: Constraint| is_expired(c, today@);
    let mut active: Vec<String> = Vec::new();
    let mut expired: Vec<String> = Vec::new();
    let ghost fa = |c: Constraint| active_line(c);
    let ghost fe = |c: Constraint| lapsed_line(c);
    let mut na: usize = 0;
    let mut ne: usize = 0;
    let mut i: usize = 0;
    proof {
        assert(views(active@) =~= Seq::<Seq<char>>::empty());
        assert(views(expired@) =~= Seq::<Seq<char>>::empty());
    }
    while i < cs.len()
        invariant
            pa == (|c: Constraint| !is_expired(c, today@)),
            pe == (|c: Constraint| is_expired(c, today@)),
            fa == (|c: Constraint| active_line(c)),
            fe == (|c: Constraint| lapsed_line(c)),
            i <= cs@.len(),
            na == cs@.take(i as int).filter(pa).len(),
            ne == cs@.take(i as int).filter(pe).len(),
            na <= i,
            ne <= i,
            views(active@) == first_n(cs@.take(i as int).filter(pa), 5).map_values(fa),
            views(expired@) == first_n(cs@.take(i as int).filter(pe), 3).map_values(fe),
        decreases cs@.len() - i,
    {
        proof {
            assert(cs@.take(i + 1) =~= cs@.take(i as int).push(cs@[i as int]));
            cs@.take(i as int).lemma_filter_push(cs@[i as int], pa);
            cs@.take(i as int).lemma_filter_push(cs@[i as int], pe);
        }
        let c = &cs[i];
        let exp = match &c.expires_at {
            Some(x) => x.unicode_len() > 0 && crate::mcp::review::str_le(x.as_str(), today),
            None => false,
        };
        if exp {
            if ne < 3 {
                let mut l = String::new();
                push_str(&mut l, "  C#");
                push_i64(&mut l, c.id);
                push_str(&mut l, ": ");
                let t = take_chars(c.text.as_str(), 60);
                push_str(&mut l, t.as_str());
                push_str(&mut l, " (expired ");
                match &c.expires_at {
                    Some(x) => push_str(&mut l, x.as_str()),
                    None => push_str(&mut l, "?"),
                }
                push_str(&mut l, ")");
                proof {
                    assert(l@ =~= lapsed_line(*c));
                    let s0 = cs@.take(i as int).filter(pe);
                    assert(first_n(s0.push(*c), 3) =~= first_n(s0, 3).push(*c));
                    assert(first_n(s0.push(*c), 3).map_values(fe) =~= first_n(s0, 3).map_values(fe).push(fe(*c)));
                }
                push_line(&mut expired, l);
            } else {
                proof {
                    let s0 = cs@.take(i as int).filter(pe);
                    assert(first_n(s0.push(*c), 3) =~= first_n(s0, 3));
                }
            }
            ne = ne + 1;
            proof {
                let s0 = cs@.take(i as int).filter(pa);
                assert(cs@.take(i + 1).filter(pa) == s0);
            }
        } else {
            if na < 5 {
                let mut l = String::new();
                push_str(&mut l, "  C#");
                push_i64(&mut l, c.id);
                push_str(&mut l, " [");
                match &c.severity {
                    Some(sv) => push_str(&mut l, sv.as_str()),
                    None => push_str(&mut l, "hard"),
                }
                push_str(&mut l, "]: ");
                let t = take_chars(c.text.as_str(), 60);
                push_str(&mut l, t.as_str());
                proof {
                    assert(l@ =~= active_line(*c));
                    let s0 = cs@.take(i as int).filter(pa);
                    assert(first_n(s0.push(*c), 5) =~= first_n(s0, 5).push(*c));
                    assert(first_n(s0.push(*c), 5).map_values(fa) =~= first_n(s0, 5).map_values(fa).push(fa(*c)));
                }
                push_line(&mut active, l);
            } else {
                proof {
                    let s0 = cs@.take(i as int).filter(pa);
                    assert(first_n(s0.push(*c), 5) =~= first_n(s0, 5));
                }
            }
            na = na + 1;
        }
        i = i + 1;
    }
    proof { lemma_take_all(cs@); }
    let ghost la = views(active@);
    let ghost le = views(expired@);
    if na > 0 {
        push_str(out, "\nActive constraints to consider:\n");
        let ghost head = out@;
        let mut j: usize = 0;
        while j < active.len()
            invariant
                la == views(active@),
                j <= active@.len(),
                out@ == head + line_block(la.take(j as int)),
            decreases active@.len() - j,
        {
            proof { assert(la.take(j + 1).drop_last() =~= la.take(j as int)); }
            push_str(out, active[j].as_str());
            push_str(out, "\n");
            proof { assert(out@ =~= head + line_block(la.take(j + 1))); }
            j = j + 1;
        }
        proof { lemma_take_all(la); }
    }
    let ghost mid = out@;
    if ne > 0 {
        push_str(out, "\nWARNING: Expired constraints (may need re-validation):\n");
        let ghost head = out@;
        let mut j: usize = 0;
        while j < expired.len()
            invariant
                le == views(expired@),
                j <= expired@.len(),
                out@ == head + line_block(le.take(j as int)),
            decreases expired@.len() - j,
        {
            proof { assert(le.take(j + 1).drop_last() =~= le.take(j as int)); }
            push_str(out, expired[j].as_str());
            push_str(out, "\n");
            proof { assert(out@ =~= head + line_block(le.take(j + 1))); }
            j = j + 1;
        }
        proof { lemma_take_all(le); }
    }
    proof {
        assert(final(out)@ =~= old(out)@ + constraints_section(cs@, today@));
    }
}

/// Creates an experiment named `name` in phase `pid`, linked to the
/// finding, decision or experiment that informed it, holding constraint
/// expiry dates against `today` (a `%Y-%m-%d` date that the caller reads
/// from its clock); see `created`.
pub fn tool_experiment_create(store: &mut Store, phase_id: i64, name: &str, informed_by_finding: Option<i64>,
    informed_by_decision: Option<i64>, informed_by_experiment: Option<i64>, today: &str) -> (out: String)
    requires
        old(store).wf(),
    ensures
        final(store).wf(),
        created(old(store)@, final(store)@, out@, phase_id, name@, informed_by_finding, informed_by_decision,
            informed_by_experiment, today@),
{
    let ghost v = store@;
    let mut out = String::new();
    if name.unicode_len() < 10 {
        push_str(&mut out, "\u{274c} Experiment name too short (min 10 chars). Describe what investigation this experiment represents.");
        return out;
    }
    let has_upstream = informed_by_finding.is_some() || informed_by_decision.is_some() || informed_by_experiment.is_some();
    let is_first = match store.list_experiments(Some(phase_id)) { Ok(x) => x.len() == 0, Err(_) => false };
    if !has_upstream && !is_first {
        push_str(&mut out, "\u{274c} CAUSAL BACKBONE ERROR: Experiment requires causal upstream.\n");
        push_str(&mut out, "Every experiment (except the first in a phase) must link to what motivated it.\n\n");
        push_str(&mut out, "Provide one of:\n");
        push_str(&mut out, "  informed_by_finding=<id>     \u{2014} this experiment investigates finding #N\n");
        push_str(&mut out, "  informed_by_decision=<id>    \u{2014} this experiment was directed by decision #N\n");
        push_str(&mut out, "  informed_by_experiment=<id>  \u{2014} this experiment continues/branches from experiment #N\n");
        proof { assert(out@ =~= upstream_help()); }
        return out;
    }
    let exp = match store.create_experiment(Some(phase_id), name) {
        Ok(x) => x,
        Err(e) => {
            push_str(&mut out, "Error creating experiment: ");
            push_str(&mut out, error_str(e));
            return out;
        },
    };
    let xid = exp.id;
    let ghost v1 = store@;
    let mut lines: Vec<String> = Vec::new();
    let mut notes = String::new();
    link_all(store, phase_id, xid, informed_by_finding, informed_by_decision, informed_by_experiment, &mut lines, &mut notes);
    let ghost o = link_outcome(v1, phase_id, xid, informed_by_finding, informed_by_decision, informed_by_experiment);
    push_str(&mut out, "Experiment #");
    push_i64(&mut out, xid);
    push_str(&mut out, " created: ");
    push_str(&mut out, name);
    push_str(&mut out, "\n");
    push_str(&mut out, notes.as_str());
    let ghost before_links = out@;
    if lines.len() > 0 {
        push_str(&mut out, "\nCausal links:\n");
        let ghost head = out@;
        let ghost ls = views(lines@);
        let ghost fmt = |l: Seq<char>| "  + "@ + l;
        let mut j: usize = 0;
        while j < lines.len()
            invariant
                ls == views(lines@),
                fmt == (|l: Seq<char>| "  + "@ + l),
                j <= lines@.len(),
                out@ == head + line_block(ls.take(j as int).map_values(fmt)),
            decreases lines@.len() - j,
        {
            push_str(&mut out, "  + ");
            push_str(&mut out, lines[j].as_str());
            push_str(&mut out, "\n");
            proof {
                let t = ls.take(j + 1).map_values(fmt);
                assert(t.drop_last() =~= ls.take(j as int).map_values(fmt));
                assert(out@ =~= head + line_block(t));
            }
            j = j + 1;
        }
        proof { lemma_take_all(ls); }
    }
    proof { assert(out@ =~= before_links + links_section(o.lines)); }
    let ghost w = store@;
    proof {
        assert(w.experiments == v1.experiments) by {
            lemma_outcome_keeps_experiments(v1, phase_id, xid, informed_by_finding, informed_by_decision, informed_by_experiment);
        }
        assert(w.constraints == v.constraints) by {
            lemma_outcome_keeps_experiments(v1, phase_id, xid, informed_by_finding, informed_by_decision, informed_by_experiment);
        }
        assert(v1.experiments.last() == exp);
    }
    let pid_project = match store.get_phase(phase_id) { Ok(p) => p.project_id, Err(_) => 0 };
    let cs = match store.list_constraints(pid_project) { Ok(x) => x, Err(_) => Vec::new() };
    push_constraints(&mut out, &cs, today);
    proof {
        assert(v.phase(phase_id) is Some);
        assert(w.phases == v.phases) by {
            lemma_outcome_keeps_experiments(v1, phase_id, xid, informed_by_finding, informed_by_decision, informed_by_experiment);
        }
        assert(out@ =~= "Experiment #"@ + dec_int(xid as int) + " created: "@ + name@ + "\n"@ + o.notes
            + links_section(o.lines) + constraints_section(w.constraints.filter(constraint_of(v.phase(phase_id).unwrap().project_id)), today@));
    }
    out
}

proof fn lemma_outcome_keeps_experiments(v1: StoreView, pid: i64, xid: i64, ifb: Option<i64>, ibd: Option<i64>, ibe: Option<i64>)
    ensures
        link_outcome(v1, pid, xid, ifb, ibd, ibe).store.experiments == v1.experiments,
        link_outcome(v1, pid, xid, ifb, ibd, ibe).store.constraints == v1.constraints,
        link_outcome(v1, pid, xid, ifb, ibd, ibe).store.phases == v1.phases,
{
}

/// Only the first experiment of a phase may stand alone: when a phase
/// already has experiments, a new one is created only if it names the
/// finding, decision or experiment that informed it.
pub proof fn law_later_experiments_name_their_upstream(v: StoreView, w: StoreView, out: Seq<char>, pid: i64,
    name: Seq<char>, ifb: Option<i64>, ibd: Option<i64>, ibe: Option<i64>, today: Seq<char>)
    requires
        created(v, w, out, pid, name, ifb, ibd, ibe, today),
        v.experiments.filter(experiment_in(Some(pid))).len() > 0,
        w.experiments.len() > v.experiments.len(),
    ensures
        ifb is Some || ibd is Some || ibe is Some,
{
}

} // verus!
