//! The decision tool: a decision is recorded with its rationale and tied
//! into the causal backbone, from the experiment behind it, the findings
//! that informed it and, where those come from several experiments, from
//! each of them.
use vstd::prelude::*;
use crate::text::{push_str, push_i64, push_usize, dec_int, dec_nat};
use crate::store::{Store, StoreView, StoreError, Finding, NodeType, EdgeType, has_room, opt_ref, opt_str};
use crate::mcp::common::{error_text, error_str, validation_heading, too_short, push_too_short, project_named, find_project,
    try_links, link, link_line, guidance, views, pair_views, push_guidance, lemma_try_links_append,
    lemma_try_links_one, lemma_try_links_push, lemma_try_links_len};
use crate::mcp::nodes::{ids_of, split_commas, parse_ids, cleanup_label, cleanup_guard_check};

verus! {

broadcast use vstd::seq_lib::group_seq_properties;

/// The problems with a decision's text: `what` needs 50 characters, and
/// `why` is required, with 50 characters too. Empty when there are none.
pub open spec fn decision_problems(what: Seq<char>, why: Option<Seq<char>>) -> Seq<char> {
    (if what.len() < 50 { too_short("what"@, what.len(), 50) } else { Seq::empty() })
        + match why {
            None => "  - why: rationale is required (50 chars minimum)\n"@,
            Some(w) => if w.len() < 50 { too_short("why"@, w.len(), 50) } else { Seq::empty() },
        }
}

/// The problems with a decision's text, as `decision_problems` lists them.
pub fn decision_problems_text(what: &str, why: Option<&str>) -> (problems: String)
    ensures
        problems@ == decision_problems(what@, opt_ref(why)),
{
    let mut problems = String::new();
    let nwhat = what.unicode_len();
    if nwhat < 50 {
        push_too_short(&mut problems, "what", nwhat, 50);
    }
    match why {
        None => push_str(&mut problems, "  - why: rationale is required (50 chars minimum)\n"),
        Some(w) => {
            let nwhy = w.unicode_len();
            if nwhy < 50 {
                push_too_short(&mut problems, "why", nwhy, 50);
            }
        },
    }
    proof {
        assert(problems@ =~= decision_problems(what@, opt_ref(why)));
    }
    problems
}

/// The ids of an optional comma-separated list.
pub open spec fn ids_arg(s: Option<&str>) -> Seq<i64> {
    match s {
        Some(x) => ids_of(split_commas(x@)),
        None => Seq::empty(),
    }
}

/// The experiments that the findings `ids` came from, each once, in the
/// order the findings name them (findings that do not exist, or belong to
/// no experiment, add none).
pub open spec fn source_experiments(fs: Seq<Finding>, ids: Seq<i64>) -> Seq<i64>
    decreases ids.len(),
{
    if ids.len() == 0 {
        Seq::empty()
    } else {
        let r = source_experiments(fs, ids.drop_last());
        let id = ids.last();
        if 1 <= id <= fs.len() {
            match fs[id - 1].experiment_id {
                Some(e) => if r.contains(e) { r } else { r.push(e) },
                None => r,
            }
        } else {
            r
        }
    }
}

/// A decision converges findings when it names more than one finding and
/// they come from more than one experiment.
pub open spec fn converges(fs: Seq<Finding>, ids: Seq<i64>) -> bool {
    ids.len() > 1 && source_experiments(fs, ids).len() > 1
}

/// The links of a new decision `did`, in the order they are made: from its
/// experiment, from each finding that informed it, and, where it converges
/// findings, from each of their experiments.
pub open spec fn decision_links(fs: Seq<Finding>, eid: Option<i64>, ids: Seq<i64>, did: i64)
    -> Seq<(NodeType, i64, NodeType, i64, EdgeType)> {
    (match eid {
        Some(e) => seq![(NodeType::Experiment, e, NodeType::Decision, did, EdgeType::Informed)],
        None => Seq::empty(),
    })
    + ids.map_values(|f: i64| (NodeType::Finding, f, NodeType::Decision, did, EdgeType::Informed))
    + (if converges(fs, ids) {
        source_experiments(fs, ids).map_values(|e: i64| (NodeType::Experiment, e, NodeType::Decision, did, EdgeType::ConvergesInto))
    } else {
        Seq::empty()
    })
}

/// The lines that report the links of a new decision.
pub open spec fn decision_link_lines(fs: Seq<Finding>, eid: Option<i64>, ids: Seq<i64>, did: i64) -> Seq<Seq<char>> {
    (match eid {
        Some(e) => seq![link_line("Experiment"@, (NodeType::Experiment, e, NodeType::Decision, did, EdgeType::Informed))],
        None => Seq::empty(),
    })
    + ids.map_values(|f: i64| link_line("Finding"@, (NodeType::Finding, f, NodeType::Decision, did, EdgeType::Informed)))
    + (if converges(fs, ids) {
        source_experiments(fs, ids).map_values(|e: i64| link_line("Exp"@, (NodeType::Experiment, e, NodeType::Decision, did, EdgeType::ConvergesInto)))
    } else {
        Seq::empty()
    })
}

/// "Exp#a, Exp#b, ..." for experiments `es`.
pub open spec fn exp_refs(es: Seq<i64>) -> Seq<char>
    decreases es.len(),
{
    if es.len() == 0 {
        Seq::empty()
    } else if es.len() == 1 {
        "Exp#"@ + dec_int(es[0] as int)
    } else {
        exp_refs(es.drop_last()) + ", "@ + "Exp#"@ + dec_int(es.last() as int)
    }
}

/// The warning of the pruning guard about `label`.
pub open spec fn cleanup_warning(label: Seq<char>) -> Seq<char> {
    "\n\u{26a0}\u{fe0f} CLEANUP GUARD: This decision contains closure/pruning language ("@ + label + ").\n"@
        + "Research phases and experiments with negative results are valuable \u{2014} they narrow the search space.\n"@
        + "If this is an explicit user request to close/deprioritize, proceed. Otherwise, consider reframing\n"@
        + "as a redirect (what NEW direction does this suggest?) rather than a closure.\n\n"@
}

/// The warning for a decision with neither an experiment nor findings behind it.
pub open spec fn upstream_warning() -> Seq<char> {
    "\n\u{26a0} WARNING: No causal upstream (experiment_id or finding_ids) provided.\n"@
        + "Decisions should be traceable to evidence. Specify:\n"@
        + "  - experiment_id: the experiment that led to this decision\n"@
        + "  - finding_ids: comma-separated finding IDs that informed this decision\n"@
}

/// The links that a new decision `did` suggests.
pub open spec fn decision_suggestions(did: i64) -> Seq<(Seq<char>, Seq<char>)> {
    let d = dec_int(did as int);
    seq![
        ("If this decision spawns a new experiment"@,
            "pm_add_edge source_type=Decision source_id="@ + d + " target_type=Experiment target_id=? relation=Informed"@),
        ("If this decision updates a hypothesis"@,
            "pm_add_edge source_type=Decision source_id="@ + d + " target_type=Hypothesis target_id=? relation=Informed"@),
        ("If this decision derives a principle"@,
            "pm_principle_add project=<project> scope=project text=\"...\" decision_id="@ + d)
    ]
}

/// The answer for decision `did` once made, when every link was made too.
pub open spec fn decision_text(fs: Seq<Finding>, what: Seq<char>, eid: Option<i64>, ids: Seq<i64>, did: i64) -> Seq<char> {
    decision_head(what, eid, ids.len(), did)
        + (if converges(fs, ids) { merge_text(source_experiments(fs, ids)) } else { Seq::empty() })
        + guidance(decision_link_lines(fs, eid, ids, did), decision_suggestions(did))
}

/// Whether the decision's project argument resolves: no project named, or
/// a project that answers to the name.
pub open spec fn project_arg_ok(v: StoreView, name: Option<&str>) -> bool {
    name matches Some(n) ==> project_named(v, n@) is Some
}

/// The project id that the decision's project argument resolves to.
pub open spec fn project_arg(v: StoreView, name: Option<&str>) -> Option<i64> {
    match name {
        Some(n) => match project_named(v, n@) {
            Some(p) => Some(p.id),
            None => None,
        },
        None => None,
    }
}

/// The link from experiment `e` to decision `did`.
pub open spec fn exp_informs(e: i64, did: i64) -> (NodeType, i64, NodeType, i64, EdgeType) {
    (NodeType::Experiment, e, NodeType::Decision, did, EdgeType::Informed)
}

/// The links from findings `ids` to decision `did`.
pub open spec fn finding_links(ids: Seq<i64>, did: i64) -> Seq<(NodeType, i64, NodeType, i64, EdgeType)> {
    ids.map_values(|f: i64| (NodeType::Finding, f, NodeType::Decision, did, EdgeType::Informed))
}

/// The lines of the links from findings `ids` to decision `did`.
pub open spec fn finding_link_lines(ids: Seq<i64>, did: i64) -> Seq<Seq<char>> {
    ids.map_values(|f: i64| link_line("Finding"@, (NodeType::Finding, f, NodeType::Decision, did, EdgeType::Informed)))
}

/// The links from experiments `es` that converge into decision `did`.
pub open spec fn convergence_links(es: Seq<i64>, did: i64) -> Seq<(NodeType, i64, NodeType, i64, EdgeType)> {
    es.map_values(|e: i64| (NodeType::Experiment, e, NodeType::Decision, did, EdgeType::ConvergesInto))
}

/// The lines of the links from experiments `es` that converge into decision `did`.
pub open spec fn convergence_link_lines(es: Seq<i64>, did: i64) -> Seq<Seq<char>> {
    es.map_values(|e: i64| link_line("Exp"@, (NodeType::Experiment, e, NodeType::Decision, did, EdgeType::ConvergesInto)))
}

/// The merge-point report for experiments `es`.
pub open spec fn merge_text(es: Seq<i64>) -> Seq<char> {
    "\n** MERGE POINT: This decision converges findings from "@ + dec_nat(es.len()) + " different experiments.\n"@
        + "  Converging experiments: "@ + exp_refs(es) + "\n"@
}

/// Links decision `did` to the findings `ids` that informed it.
fn link_findings(store: &mut Store, did: i64, ids: &Vec<i64>, auto: &mut Vec<String>, out: &mut String)
    requires
        old(store).wf(),
    ensures
        final(store).wf(),
        final(store)@ == try_links(old(store)@, finding_links(ids@, did)),
        has_room(old(store)@.edges.len() + ids@.len()) ==> views(final(auto)@) == views(old(auto)@) + finding_link_lines(ids@, did)
            && final(out)@ == old(out)@,
{
    let ghost v0 = store@;
    let ghost a0 = views(auto@);
    let mut i: usize = 0;
    proof {
        assert(finding_links(ids@.take(0), did) =~= Seq::<(NodeType, i64, NodeType, i64, EdgeType)>::empty());
        assert(finding_link_lines(ids@.take(0), did) =~= Seq::<Seq<char>>::empty());
        assert(a0 + Seq::<Seq<char>>::empty() =~= a0);
    }
    while i < ids.len()
        invariant
            store.wf(),
            i <= ids@.len(),
            store@ == try_links(v0, finding_links(ids@.take(i as int), did)),
            store@.edges.len() <= v0.edges.len() + i,
            has_room(v0.edges.len() + ids@.len()) ==> store@.edges.len() == v0.edges.len() + i
                && views(auto@) == a0 + finding_link_lines(ids@.take(i as int), did)
                && out@ == old(out)@,
        decreases ids@.len() - i,
    {
        let fid = ids[i];
        let ghost pre = finding_links(ids@.take(i as int), did);
        proof {
            lemma_try_links_len(v0, pre);
        }
        link(store, (NodeType::Finding, fid, NodeType::Decision, did, EdgeType::Informed), "Finding", auto, out,
            "(edge note for Finding#", ")\n");
        proof {
            let post = finding_links(ids@.take(i + 1), did);
            assert(post =~= pre.push((NodeType::Finding, fid, NodeType::Decision, did, EdgeType::Informed)));
            lemma_try_links_push(v0, pre, (NodeType::Finding, fid, NodeType::Decision, did, EdgeType::Informed));
            lemma_try_links_len(v0, post);
            assert(finding_link_lines(ids@.take(i + 1), did) =~= finding_link_lines(ids@.take(i as int), did)
                .push(link_line("Finding"@, (NodeType::Finding, fid, NodeType::Decision, did, EdgeType::Informed))));
            assert(a0 + finding_link_lines(ids@.take(i + 1), did) =~= (a0 + finding_link_lines(ids@.take(i as int), did))
                .push(link_line("Finding"@, (NodeType::Finding, fid, NodeType::Decision, did, EdgeType::Informed))));
        }
        i = i + 1;
    }
    proof {
        assert(ids@.take(i as int) =~= ids@);
    }
}

/// The experiments that findings `ids` came from; see `source_experiments`.
fn collect_sources(store: &Store, ids: &Vec<i64>) -> (srcs: Vec<i64>)
    requires
        store.wf(),
    ensures
        srcs@ == source_experiments(store@.findings, ids@),
{
    let ghost fs = store@.findings;
    let mut srcs: Vec<i64> = Vec::new();
    let mut j: usize = 0;
    while j < ids.len()
        invariant
            store.wf(),
            fs == store@.findings,
            j <= ids@.len(),
            srcs@ == source_experiments(fs, ids@.take(j as int)),
        decreases ids@.len() - j,
    {
        proof {
            assert(ids@.take(j + 1).drop_last() =~= ids@.take(j as int));
        }
        if let Ok(f) = store.get_finding(ids[j]) {
            if let Some(e) = f.experiment_id {
                let mut seen = false;
                let mut k: usize = 0;
                while k < srcs.len()
                    invariant
                        k <= srcs@.len(),
                        seen == srcs@.take(k as int).contains(e),
                    decreases srcs@.len() - k,
                {
                    proof {
                        assert(srcs@.take(k + 1) =~= srcs@.take(k as int).push(srcs@[k as int]));
                    }
                    if srcs[k] == e {
                        seen = true;
                    }
                    k = k + 1;
                }
                proof {
                    assert(srcs@.take(k as int) =~= srcs@);
                }
                if !seen {
                    srcs.push(e);
                }
            }
        }
        j = j + 1;
    }
    proof {
        assert(ids@.take(j as int) =~= ids@);
    }
    srcs
}

/// Links decision `did` to the experiments `es` that converge into it and
/// reports the merge point.
fn link_convergence(store: &mut Store, did: i64, es: &Vec<i64>, auto: &mut Vec<String>, out: &mut String)
    requires
        old(store).wf(),
    ensures
        final(store).wf(),
        final(store)@ == try_links(old(store)@, convergence_links(es@, did)),
        has_room(old(store)@.edges.len() + es@.len()) ==> views(final(auto)@) == views(old(auto)@) + convergence_link_lines(es@, did)
            && final(out)@ == old(out)@ + merge_text(es@),
{
    let ghost v0 = store@;
    let ghost a0 = views(auto@);
    push_str(out, "\n** MERGE POINT: This decision converges findings from ");
    push_usize(out, es.len());
    push_str(out, " different experiments.\n");
    let ghost o1 = out@;
    let mut refs = String::new();
    let mut k: usize = 0;
    proof {
        assert(convergence_links(es@.take(0), did) =~= Seq::<(NodeType, i64, NodeType, i64, EdgeType)>::empty());
        assert(convergence_link_lines(es@.take(0), did) =~= Seq::<Seq<char>>::empty());
        assert(a0 + Seq::<Seq<char>>::empty() =~= a0);
    }
    while k < es.len()
        invariant
            store.wf(),
            k <= es@.len(),
            refs@ == exp_refs(es@.take(k as int)),
            store@ == try_links(v0, convergence_links(es@.take(k as int), did)),
            store@.edges.len() <= v0.edges.len() + k,
            has_room(v0.edges.len() + es@.len()) ==> store@.edges.len() == v0.edges.len() + k
                && views(auto@) == a0 + convergence_link_lines(es@.take(k as int), did)
                && out@ == o1,
        decreases es@.len() - k,
    {
        let e = es[k];
        let ghost pre = convergence_links(es@.take(k as int), did);
        proof {
            lemma_try_links_len(v0, pre);
        }
        link(store, (NodeType::Experiment, e, NodeType::Decision, did, EdgeType::ConvergesInto), "Exp", auto, out,
            "(convergence edge note for Exp#", ")\n");
        if k > 0 {
            push_str(&mut refs, ", ");
        }
        push_str(&mut refs, "Exp#");
        push_i64(&mut refs, e);
        proof {
            let post = convergence_links(es@.take(k + 1), did);
            assert(post =~= pre.push((NodeType::Experiment, e, NodeType::Decision, did, EdgeType::ConvergesInto)));
            lemma_try_links_push(v0, pre, (NodeType::Experiment, e, NodeType::Decision, did, EdgeType::ConvergesInto));
            lemma_try_links_len(v0, post);
            assert(es@.take(k + 1).drop_last() =~= es@.take(k as int));
            if k == 0 {
                assert(exp_refs(es@.take(1)) == "Exp#"@ + dec_int(es@[0] as int));
            }
            assert(refs@ =~= exp_refs(es@.take(k + 1)));
            assert(convergence_link_lines(es@.take(k + 1), did) =~= convergence_link_lines(es@.take(k as int), did)
                .push(link_line("Exp"@, (NodeType::Experiment, e, NodeType::Decision, did, EdgeType::ConvergesInto))));
            assert(a0 + convergence_link_lines(es@.take(k + 1), did) =~= (a0 + convergence_link_lines(es@.take(k as int), did))
                .push(link_line("Exp"@, (NodeType::Experiment, e, NodeType::Decision, did, EdgeType::ConvergesInto))));
        }
        k = k + 1;
    }
    push_str(out, "  Converging experiments: ");
    push_str(out, refs.as_str());
    push_str(out, "\n");
    proof {
        assert(es@.take(k as int) =~= es@);
        if has_room(v0.edges.len() + es@.len()) {
            assert(out@ =~= old(out)@ + merge_text(es@));
        }
    }
}

fn decision_suggestion_list(did: i64) -> (sugg: Vec<(String, String)>)
    ensures
        pair_views(sugg@) == decision_suggestions(did),
{
    let mut sugg: Vec<(String, String)> = Vec::new();
    let mut c1 = String::new();
    push_str(&mut c1, "pm_add_edge source_type=Decision source_id=");
    push_i64(&mut c1, did);
    push_str(&mut c1, " target_type=Experiment target_id=? relation=Informed");
    sugg.push(("If this decision spawns a new experiment".to_owned(), c1));
    let mut c2 = String::new();
    push_str(&mut c2, "pm_add_edge source_type=Decision source_id=");
    push_i64(&mut c2, did);
    push_str(&mut c2, " target_type=Hypothesis target_id=? relation=Informed");
    sugg.push(("If this decision updates a hypothesis".to_owned(), c2));
    let mut c3 = String::new();
    push_str(&mut c3, "pm_principle_add project=<project> scope=project text=\"...\" decision_id=");
    push_i64(&mut c3, did);
    sugg.push(("If this decision derives a principle".to_owned(), c3));
    proof {
        assert(pair_views(sugg@) =~= decision_suggestions(did));
    }
    sugg
}

/// The opening of the answer for a new decision: its id and text, the
/// pruning guard's warning, and the warning for a missing upstream.
pub open spec fn decision_head(what: Seq<char>, eid: Option<i64>, nids: nat, did: i64) -> Seq<char> {
    decision_line(what, did) + cleanup_part(what) + (if eid is None && nids == 0 { upstream_warning() } else { Seq::empty() })
}

/// The first line of the answer for a new decision.
pub open spec fn decision_line(what: Seq<char>, did: i64) -> Seq<char> {
    "Decision #"@ + dec_int(did as int) + " created (global #"@ + dec_int(did as int) + "): "@ + what + "\n"@
}

/// The pruning guard's warning about `what`, if it has one.
pub open spec fn cleanup_part(what: Seq<char>) -> Seq<char> {
    match cleanup_label(what) {
        Some(m) => cleanup_warning(m),
        None => Seq::empty(),
    }
}

fn push_decision_head(out: &mut String, what: &str, eid: Option<i64>, nids: usize, did: i64)
    ensures
        final(out)@ == old(out)@ + decision_head(what@, eid, nids as nat, did),
{
    let ghost o = out@;
    let cleanup = cleanup_guard_check(what);
    push_str(out, "Decision #");
    push_i64(out, did);
    push_str(out, " created (global #");
    push_i64(out, did);
    push_str(out, "): ");
    push_str(out, what);
    push_str(out, "\n");
    proof {
        assert(out@ =~= o + decision_line(what@, did));
    }
    let ghost o1 = out@;
    if let Some(m) = &cleanup {
        push_str(out, "\n\u{26a0}\u{fe0f} CLEANUP GUARD: This decision contains closure/pruning language (");
        push_str(out, m.as_str());
        push_str(out, ").\n");
        push_str(out, "Research phases and experiments with negative results are valuable \u{2014} they narrow the search space.\n");
        push_str(out, "If this is an explicit user request to close/deprioritize, proceed. Otherwise, consider reframing\n");
        push_str(out, "as a redirect (what NEW direction does this suggest?) rather than a closure.\n\n");
        proof {
            assert(out@ =~= o1 + cleanup_warning(m@));
        }
    }
    proof {
        assert(out@ =~= o1 + cleanup_part(what@));
    }
    let ghost o2 = out@;
    if eid.is_none() && nids == 0 {
        push_str(out, "\n\u{26a0} WARNING: No causal upstream (experiment_id or finding_ids) provided.\n");
        push_str(out, "Decisions should be traceable to evidence. Specify:\n");
        push_str(out, "  - experiment_id: the experiment that led to this decision\n");
        push_str(out, "  - finding_ids: comma-separated finding IDs that informed this decision\n");
        proof {
            assert(out@ =~= o2 + upstream_warning());
        }
    }
    proof {
        assert(out@ =~= o + decision_head(what@, eid, nids as nat, did));
    }
}

/// Whether a decision is recorded: its text passes validation, its project
/// (if named) resolves, the decision table has room, and its experiment
/// (if named) exists.
pub open spec fn decision_made(v: StoreView, what: Seq<char>, why: Option<Seq<char>>, eid: Option<i64>, pname: Option<&str>) -> bool {
    &&& decision_problems(what, why).len() == 0
    &&& project_arg_ok(v, pname)
    &&& has_room(v.decisions.len())
    &&& eid matches Some(x) ==> v.experiment(x) is Some
}

/// Records a decision with its rationale, linked into the causal backbone:
/// from the experiment behind it, from each finding that informed it and,
/// where those findings come from several experiments, from each of them.
/// A decision with no experiment or findings behind it is recorded with a
/// warning.
#[verifier::rlimit(40)]
pub fn tool_decision(store: &mut Store, what: &str, why: Option<&str>, experiment_id: Option<i64>,
    finding_ids_str: Option<&str>, project_name: Option<&str>) -> (out: String)
    requires
        old(store).wf(),
    ensures
        final(store).wf(),
        decision_problems(what@, opt_ref(why)).len() > 0 ==> final(store)@ == old(store)@
            && out@ == validation_heading() + decision_problems(what@, opt_ref(why)),
        decision_problems(what@, opt_ref(why)).len() == 0 && !project_arg_ok(old(store)@, project_name) ==>
            final(store)@ == old(store)@ && out@ == "Project not found: "@ + project_name.unwrap()@,
        decision_problems(what@, opt_ref(why)).len() == 0 && project_arg_ok(old(store)@, project_name)
            && !decision_made(old(store)@, what@, opt_ref(why), experiment_id, project_name) ==>
            final(store)@ == old(store)@ && out@ == "Error: "@ + error_text(
                if !has_room(old(store)@.decisions.len()) { StoreError::Capacity } else { StoreError::Constraint }),
        decision_made(old(store)@, what@, opt_ref(why), experiment_id, project_name) ==> {
            let v = old(store)@;
            let did = (v.decisions.len() + 1) as i64;
            let d = final(store)@.decisions[v.decisions.len() as int];
            &&& final(store)@.decisions.len() == v.decisions.len() + 1
            &&& d.id == did && d.experiment_id == experiment_id && d.what@ == what@
            &&& opt_str(d.why) == opt_ref(why) && d.project_id == project_arg(v, project_name)
            &&& final(store)@ == try_links(v.with_decisions(v.decisions.push(d)),
                decision_links(v.findings, experiment_id, ids_arg(finding_ids_str), did))
        },
        decision_made(old(store)@, what@, opt_ref(why), experiment_id, project_name)
            && has_room(old(store)@.edges.len() + decision_links(old(store)@.findings, experiment_id, ids_arg(finding_ids_str),
                (old(store)@.decisions.len() + 1) as i64).len()) ==>
            out@ == decision_text(old(store)@.findings, what@, experiment_id, ids_arg(finding_ids_str),
                (old(store)@.decisions.len() + 1) as i64),
{
    let ghost v = store@;
    let problems = decision_problems_text(what, why);
    if problems.unicode_len() > 0 {
        let mut out = String::new();
        push_str(&mut out, "\u{274c} VALIDATION ERROR:\n");
        push_str(&mut out, problems.as_str());
        return out;
    }
    let project_id = match project_name {
        Some(pname) => match find_project(store, pname) {
            Some(p) => Some(p.id),
            None => {
                let mut out = String::new();
                push_str(&mut out, "Project not found: ");
                push_str(&mut out, pname);
                return out;
            },
        },
        None => None,
    };
    let finding_ids: Vec<i64> = match finding_ids_str {
        Some(fs) => parse_ids(fs),
        None => Vec::new(),
    };
    let d = match store.create_decision(experiment_id, what, why, project_id) {
        Ok(d) => d,
        Err(e) => {
            let mut out = String::new();
            push_str(&mut out, "Error: ");
            push_str(&mut out, error_str(e));
            return out;
        },
    };
    let did = d.id;
    let ghost v1 = store@;
    let ghost ids = finding_ids@;
    let ghost fs = v.findings;
    let ghost links = decision_links(fs, experiment_id, ids, did);
    let ghost room = has_room(v.edges.len() + links.len());
    let ghost exp_part: Seq<(NodeType, i64, NodeType, i64, EdgeType)> = match experiment_id {
        Some(e) => seq![exp_informs(e, did)],
        None => Seq::empty(),
    };
    let ghost exp_lines_part: Seq<Seq<char>> = match experiment_id {
        Some(e) => seq![link_line("Experiment"@, exp_informs(e, did))],
        None => Seq::empty(),
    };
    let ghost cpart: Seq<(NodeType, i64, NodeType, i64, EdgeType)> = if converges(fs, ids) {
        convergence_links(source_experiments(fs, ids), did)
    } else {
        Seq::empty()
    };
    proof {
        assert(links =~= exp_part + finding_links(ids, did) + cpart);
        assert(decision_link_lines(fs, experiment_id, ids, did) =~= exp_lines_part + finding_link_lines(ids, did)
            + (if converges(fs, ids) { convergence_link_lines(source_experiments(fs, ids), did) } else { Seq::empty() }));
    }
    let mut out = String::new();
    push_decision_head(&mut out, what, experiment_id, finding_ids.len(), did);
    let ghost head = out@;
    proof {
        assert(head =~= decision_head(what@, experiment_id, ids.len(), did));
    }
    let mut auto: Vec<String> = Vec::new();
    if let Some(eid) = experiment_id {
        link(store, (NodeType::Experiment, eid, NodeType::Decision, did, EdgeType::Informed), "Experiment", &mut auto, &mut out,
            "(edge note: ", ")\n");
        proof {
            lemma_try_links_one(v1, exp_informs(eid, did));
        }
    }
    proof {
        if experiment_id is None {
            assert(try_links(v1, exp_part) == v1);
        }
        lemma_try_links_len(v1, exp_part);
        if room {
            assert(has_room(v.edges.len()));
            assert(views(auto@) =~= exp_lines_part);
        }
    }
    let ghost s1 = store@;
    link_findings(store, did, &finding_ids, &mut auto, &mut out);
    proof {
        lemma_try_links_append(v1, exp_part, finding_links(ids, did));
        lemma_try_links_len(v1, exp_part + finding_links(ids, did));
        if room {
            assert(s1.edges.len() + ids.len() <= v.edges.len() + links.len());
        }
    }
    let srcs = collect_sources(store, &finding_ids);
    let ghost s2 = store@;
    let ghost o2 = out@;
    let ghost a2 = views(auto@);
    if finding_ids.len() > 1 && srcs.len() > 1 {
        link_convergence(store, did, &srcs, &mut auto, &mut out);
    }
    proof {
        if !converges(fs, ids) {
            assert(try_links(s2, cpart) == s2);
        }
        lemma_try_links_append(v1, exp_part + finding_links(ids, did), cpart);
        assert(exp_part + finding_links(ids, did) + cpart == links);
        lemma_try_links_len(v1, links);
        assert(store@.decisions == v.decisions.push(d));
    }
    let sugg = decision_suggestion_list(did);
    push_guidance(&mut out, &auto, &sugg);
    proof {
        if room {
            assert(views(auto@) =~= decision_link_lines(fs, experiment_id, ids, did));
            assert(out@ =~= decision_text(v.findings, what@, experiment_id, ids, did));
        }
    }
    out
}


/// A decision needs its rationale: with no `why`, or a `why` under 50
/// characters, the request is refused (and the store left unchanged).
pub proof fn law_decision_needs_rationale(what: Seq<char>, why: Option<Seq<char>>)
    requires
        why is None || why.unwrap().len() < 50,
    ensures
        decision_problems(what, why).len() > 0,
{
    match why {
        None => {
            assert("  - why: rationale is required (50 chars minimum)\n"@.len() > 0) by {
                reveal_strlit("  - why: rationale is required (50 chars minimum)\n");
            }
        },
        Some(w) => {
            assert(too_short("why"@, w.len(), 50).len() > 0) by {
                reveal_strlit("  - ");
            }
        },
    }
}

} // verus!
