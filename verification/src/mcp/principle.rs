//! Adding a principle: principles must be derived from evidence, so each
//! names the finding or decision it came from and is linked to it.
use vstd::prelude::*;
use crate::text::{push_str, push_i64, push_u64, take_chars, dec_int, dec_nat, prefix};
use crate::store::{Store, StoreView, StoreError, Finding, Constraint, NodeType, EdgeType, PrincipleScope,
    PrincipleStatus, has_room, opt_ref, opt_str, principle_of, constraint_of};
use crate::mcp::common::{error_text, error_str, find_project, project_named, try_link};
use crate::mcp::finding::{project_findings, first_n};
use crate::mcp::repair::{collect_experiments, collect_findings};
use crate::dag::views;

verus! {

/// The scope that a tool argument names: universal (or architecture),
/// phase (or process), and project for anything else.
pub open spec fn principle_scope(s: Seq<char>) -> PrincipleScope {
    if s == "universal"@ || s == "architecture"@ {
        PrincipleScope::Universal
    } else if s == "phase"@ || s == "process"@ {
        PrincipleScope::Phase
    } else {
        PrincipleScope::Project
    }
}

fn principle_scope_of(s: &str) -> (r: PrincipleScope)
    ensures
        r == principle_scope(s@),
{
    if crate::text::str_eq(s, "universal") || crate::text::str_eq(s, "architecture") {
        PrincipleScope::Universal
    } else if crate::text::str_eq(s, "phase") || crate::text::str_eq(s, "process") {
        PrincipleScope::Phase
    } else {
        PrincipleScope::Project
    }
}

/// The refusal of a principle that names no evidence.
pub open spec fn provenance_error() -> Seq<char> {
    "\u{274c} PROVENANCE ERROR: Principles must be derived from evidence.\n             Provide at least one of:\n               finding_id=<id>   -- finding that established this principle\n               decision_id=<id>  -- decision that established this principle\n             This ensures every principle traces back through the causal backbone."@
}

/// Store `v` and the line answered after linking principle `prid` to the
/// node `t`#`tid` it derives from (named `tname`), when one is given.
pub open spec fn derive_step(v: StoreView, prid: i64, t: NodeType, tname: Seq<char>, tid: Option<i64>) -> (StoreView, Seq<char>) {
    match tid {
        None => (v, Seq::empty()),
        Some(x) => if has_room(v.edges.len()) {
            (try_link(v, (NodeType::Principle, prid, t, x, EdgeType::DerivedFrom)),
                "\nAuto-created edge: Principle #"@ + dec_int(prid as int) + " --DerivedFrom--> "@ + tname + " #"@
                    + dec_int(x as int) + " (Edge #"@ + dec_int((v.edges.len() + 1) as int) + ")"@)
        } else {
            (v, "\nWarning: failed to create DerivedFrom edge to "@ + tname + " #"@ + dec_int(x as int) + ": "@
                + error_text(StoreError::Capacity))
        },
    }
}

/// The line that suggests marking principle `prid` violated by finding `f`.
pub open spec fn violation_line(f: Finding, prid: i64) -> Seq<char> {
    "\n  F#"@ + dec_int(f.id as int) + ": "@ + prefix(f.text@, 60) + " -> pm_add_edge source_type=finding source_id="@
        + dec_int(f.id as int) + " target_type=principle target_id="@ + dec_int(prid as int) + " relation=violated_by"@
}

/// The violation lines of the last `n` findings of `fs`, latest first.
pub open spec fn latest_lines(fs: Seq<Finding>, prid: i64, n: nat) -> Seq<char>
    decreases n,
{
    if n == 0 || fs.len() == 0 {
        Seq::empty()
    } else {
        violation_line(fs.last(), prid) + latest_lines(fs.drop_last(), prid, (n - 1) as nat)
    }
}

/// The suggestion to mark the principle violated by one of the project's
/// three latest findings, when it has findings.
pub open spec fn violation_section(fs: Seq<Finding>, prid: i64) -> Seq<char> {
    if fs.len() == 0 {
        Seq::empty()
    } else {
        "\n\nIf any finding contradicts this principle, create a ViolatedBy edge:"@ + latest_lines(fs, prid, 3)
    }
}

/// The severity of a constraint, "hard" when none is recorded.
pub open spec fn severity_of(c: Constraint) -> Seq<char> {
    match opt_str(c.severity) {
        Some(s) => s,
        None => "hard"@,
    }
}

/// The line of a constraint the principle may relate to.
pub open spec fn related_constraint_line(c: Constraint) -> Seq<char> {
    "  C#"@ + dec_int(c.id as int) + " ["@ + severity_of(c) + "]: "@ + prefix(c.text@, 60) + "\n"@
}

/// The lines of constraints `cs`, in order.
pub open spec fn related_constraint_lines(cs: Seq<Constraint>) -> Seq<char>
    decreases cs.len(),
{
    if cs.len() == 0 {
        Seq::empty()
    } else {
        related_constraint_lines(cs.drop_last()) + related_constraint_line(cs.last())
    }
}

/// The project's first five constraints and an edge to suggest, when the
/// project has constraints.
pub open spec fn constraint_section(cs: Seq<Constraint>, prid: i64) -> Seq<char> {
    if cs.len() == 0 {
        Seq::empty()
    } else {
        "\n\nActive constraints (suggest related edges):\n"@ + related_constraint_lines(first_n(cs, 5))
            + "\nSuggest: pm_add_edge source_type=principle source_id="@ + dec_int(prid as int)
            + " target_type=constraint target_id="@ + dec_int(cs[0].id as int) + " relation=related\n"@
    }
}

/// Adding a principle to store `v` made store `w` and answered `out`:
/// - with neither a finding nor a decision named, the provenance error;
/// - with no project by that name or alias, "Project not found";
/// - with the principle table full, the store's error;
/// - otherwise the principle is added (active, with the given scope, text,
///   rationale and enforcement level), linked DerivedFrom to the finding
///   and then to the decision named, and the answer gives its number in
///   the project and globally, its text (80 characters), each link made
///   (or why not), the project's three latest findings it could be
///   violated by, and its first five constraints.
pub open spec fn principle_added(v: StoreView, w: StoreView, out: Seq<char>, project: Seq<char>, scope: Seq<char>,
    text: Seq<char>, rationale: Option<Seq<char>>, enforcement: Option<Seq<char>>, fid: Option<i64>, did: Option<i64>) -> bool {
    if fid is None && did is None {
        w == v && out == provenance_error()
    } else {
        match project_named(v, project) {
            None => w == v && out == "Project not found: "@ + project,
            Some(p) => if !has_room(v.principles.len()) {
                w == v && out == "Error: "@ + error_text(StoreError::Capacity)
            } else {
                let prid = (v.principles.len() + 1) as i64;
                let pr = w.principles.last();
                let v1 = v.with_principles(v.principles.push(pr));
                let s2 = derive_step(v1, prid, NodeType::Finding, "Finding"@, fid);
                let s3 = derive_step(s2.0, prid, NodeType::Decision, "Decision"@, did);
                &&& w.principles.len() == v.principles.len() + 1
                &&& pr.id == prid && pr.project_id == p.id && pr.scope == principle_scope(scope)
                &&& pr.text@ == text && opt_str(pr.rationale) == rationale
                &&& opt_str(pr.enforcement_level) == enforcement && pr.status == PrincipleStatus::Active
                &&& w == s3.0
                &&& out == "Principle #"@ + dec_nat(v.principles.filter(principle_of(p.id)).len() + 1) + " added (global #"@
                    + dec_int(prid as int) + "): "@ + prefix(text, 80) + s2.1 + s3.1
                    + violation_section(project_findings(w, p.id), prid)
                    + constraint_section(w.constraints.filter(constraint_of(p.id)), prid)
            },
        }
    }
}

fn push_derived(store: &mut Store, out: &mut String, prid: i64, t: NodeType, tname: &str, tid: Option<i64>)
    requires
        old(store).wf(),
    ensures
        final(store).wf(),
        final(store)@ == derive_step(old(store)@, prid, t, tname@, tid).0,
        final(out)@ == old(out)@ + derive_step(old(store)@, prid, t, tname@, tid).1,
{
    match tid {
        None => {
            proof { assert(old(out)@ + Seq::<char>::empty() =~= old(out)@); }
        },
        Some(x) => {
            match store.create_edge(NodeType::Principle, prid, t, x, EdgeType::DerivedFrom) {
                Ok(e) => {
                    let ghost o0 = out@;
                    push_str(out, "\nAuto-created edge: Principle #");
                    push_i64(out, prid);
                    push_str(out, " --DerivedFrom--> ");
                    push_str(out, tname);
                    push_str(out, " #");
                    push_i64(out, x);
                    push_str(out, " (Edge #");
                    push_i64(out, e.id);
                    push_str(out, ")");
                    proof {
                        assert(out@ =~= o0 + derive_step(old(store)@, prid, t, tname@, tid).1);
                    }
                },
                Err(e) => {
                    let ghost o0 = out@;
                    push_str(out, "\nWarning: failed to create DerivedFrom edge to ");
                    push_str(out, tname);
                    push_str(out, " #");
                    push_i64(out, x);
                    push_str(out, ": ");
                    push_str(out, error_str(e));
                    proof {
                        assert(out@ =~= o0 + derive_step(old(store)@, prid, t, tname@, tid).1);
                    }
                },
            }
        },
    }
}

proof fn lemma_latest_step(fs: Seq<Finding>, prid: i64, j: nat)
    requires
        j < fs.len(),
    ensures
        latest_lines(fs, prid, j + 1) == latest_lines(fs, prid, j) + violation_line(fs[fs.len() - 1 - j], prid),
    decreases j,
{
    if j == 0 {
        assert(latest_lines(fs.drop_last(), prid, 0) == Seq::<char>::empty());
        assert(latest_lines(fs, prid, 0) == Seq::<char>::empty());
        assert(latest_lines(fs, prid, 1) =~= violation_line(fs.last(), prid));
    } else {
        let d = fs.drop_last();
        lemma_latest_step(d, prid, (j - 1) as nat);
        assert(d[d.len() - 1 - (j - 1)] == fs[fs.len() - 1 - j]);
        assert(latest_lines(fs, prid, j + 1) =~= latest_lines(fs, prid, j) + violation_line(fs[fs.len() - 1 - j], prid));
    }
}

proof fn lemma_latest_all(fs: Seq<Finding>, prid: i64, n: nat)
    requires
        n >= fs.len(),
    ensures
        latest_lines(fs, prid, n) == latest_lines(fs, prid, fs.len()),
    decreases fs.len(),
{
    if fs.len() > 0 {
        lemma_latest_all(fs.drop_last(), prid, (n - 1) as nat);
    }
}

fn push_violation_section(out: &mut String, fs: &Vec<Finding>, prid: i64)
    ensures
        final(out)@ == old(out)@ + violation_section(fs@, prid),
{
    if fs.len() == 0 {
        proof { assert(old(out)@ + Seq::<char>::empty() =~= old(out)@); }
        return;
    }
    push_str(out, "\n\nIf any finding contradicts this principle, create a ViolatedBy edge:");
    let ghost base = out@;
    let mut j: usize = 0;
    while j < 3 && j < fs.len()
        invariant
            j <= 3,
            j <= fs@.len(),
            out@ == base + latest_lines(fs@, prid, j as nat),
        decreases 3 - j,
    {
        let f = &fs[fs.len() - 1 - j];
        proof { lemma_latest_step(fs@, prid, j as nat); }
        let ghost o0 = out@;
        push_str(out, "\n  F#");
        push_i64(out, f.id);
        push_str(out, ": ");
        let t = take_chars(f.text.as_str(), 60);
        push_str(out, t.as_str());
        push_str(out, " -> pm_add_edge source_type=finding source_id=");
        push_i64(out, f.id);
        push_str(out, " target_type=principle target_id=");
        push_i64(out, prid);
        push_str(out, " relation=violated_by");
        proof {
            assert(out@ =~= o0 + violation_line(fs@[fs@.len() - 1 - j], prid));
            assert(out@ =~= base + latest_lines(fs@, prid, (j + 1) as nat));
        }
        j = j + 1;
    }
    proof {
        if j < 3 {
            lemma_latest_all(fs@, prid, j as nat);
            lemma_latest_all(fs@, prid, 3);
        }
        assert(out@ =~= old(out)@ + violation_section(fs@, prid));
    }
}

fn push_constraint_section(out: &mut String, cs: &Vec<Constraint>, prid: i64)
    ensures
        final(out)@ == old(out)@ + constraint_section(cs@, prid),
{
    if cs.len() == 0 {
        proof { assert(old(out)@ + Seq::<char>::empty() =~= old(out)@); }
        return;
    }
    push_str(out, "\n\nActive constraints (suggest related edges):\n");
    let ghost base = out@;
    let lim: usize = if cs.len() < 5 { cs.len() } else { 5 };
    let ghost shown = first_n(cs@, 5);
    proof { assert(shown.len() == lim); }
    let mut i: usize = 0;
    while i < lim
        invariant
            lim == shown.len(),
            shown == first_n(cs@, 5),
            lim <= cs@.len(),
            i <= lim,
            out@ == base + related_constraint_lines(shown.take(i as int)),
        decreases lim - i,
    {
        let c = &cs[i];
        proof {
            assert(shown[i as int] == cs@[i as int]);
            assert(shown.take(i + 1).drop_last() =~= shown.take(i as int));
        }
        let ghost o0 = out@;
        push_str(out, "  C#");
        push_i64(out, c.id);
        push_str(out, " [");
        match &c.severity {
            Some(s) => push_str(out, s.as_str()),
            None => push_str(out, "hard"),
        }
        push_str(out, "]: ");
        let t = take_chars(c.text.as_str(), 60);
        push_str(out, t.as_str());
        push_str(out, "\n");
        proof {
            assert(out@ =~= o0 + related_constraint_line(shown[i as int]));
        }
        i = i + 1;
    }
    proof { assert(shown.take(i as int) =~= shown); }
    push_str(out, "\nSuggest: pm_add_edge source_type=principle source_id=");
    push_i64(out, prid);
    push_str(out, " target_type=constraint target_id=");
    push_i64(out, cs[0].id);
    push_str(out, " relation=related\n");
    proof {
        assert(out@ =~= old(out)@ + constraint_section(cs@, prid));
    }
}

/// Adds a principle of a project (named by name or alias), derived from a
/// finding, a decision or both; see `principle_added`.
pub fn tool_principle_add(store: &mut Store, project: &str, scope: &str, text: &str, rationale: Option<&str>,
    enforcement_level: Option<&str>, finding_id: Option<i64>, decision_id: Option<i64>) -> (out: String)
    requires
        old(store).wf(),
    ensures
        final(store).wf(),
        principle_added(old(store)@, final(store)@, out@, project@, scope@, text@, opt_ref(rationale),
            opt_ref(enforcement_level), finding_id, decision_id),
{
    let ghost v = store@;
    let mut out = String::new();
    if finding_id.is_none() && decision_id.is_none() {
        push_str(&mut out, "\u{274c} PROVENANCE ERROR: Principles must be derived from evidence.\n             Provide at least one of:\n               finding_id=<id>   -- finding that established this principle\n               decision_id=<id>  -- decision that established this principle\n             This ensures every principle traces back through the causal backbone.");
        return out;
    }
    let p = match find_project(store, project) {
        Some(p) => p,
        None => {
            push_str(&mut out, "Project not found: ");
            push_str(&mut out, project);
            return out;
        },
    };
    let existing = match store.list_principles(p.id) {
        Ok(x) => x.len(),
        Err(_) => 0,
    };
    let sc = principle_scope_of(scope);
    let pr = match store.create_principle(p.id, sc, text, rationale, enforcement_level) {
        Ok(pr) => pr,
        Err(e) => {
            push_str(&mut out, "Error: ");
            push_str(&mut out, error_str(e));
            return out;
        },
    };
    let ghost v1 = store@;
    proof {
        v.principles.lemma_filter_len(principle_of(p.id));
        assert(existing <= v.principles.len());
    }
    push_str(&mut out, "Principle #");
    push_u64(&mut out, existing as u64 + 1);
    push_str(&mut out, " added (global #");
    push_i64(&mut out, pr.id);
    push_str(&mut out, "): ");
    let t = take_chars(text, 80);
    push_str(&mut out, t.as_str());
    let ghost o1 = out@;
    push_derived(store, &mut out, pr.id, NodeType::Finding, "Finding", finding_id);
    let ghost v2 = store@;
    let ghost o2 = out@;
    push_derived(store, &mut out, pr.id, NodeType::Decision, "Decision", decision_id);
    let ghost o3 = out@;
    let phases = match store.list_phases(p.id) { Ok(x) => x, Err(_) => Vec::new() };
    let es = collect_experiments(store, &phases);
    let fs = collect_findings(store, &es);
    proof {
        assert(views(phases@) == store@.phases_of(p.id));
        assert(fs@ == project_findings(store@, p.id));
    }
    push_violation_section(&mut out, &fs, pr.id);
    let cs = match store.list_constraints(p.id) { Ok(x) => x, Err(_) => Vec::new() };
    push_constraint_section(&mut out, &cs, pr.id);
    proof {
        assert(v1 == v.with_principles(v.principles.push(pr)));
        assert(store@.principles.last() == pr);
        assert(out@ =~= "Principle #"@ + dec_nat(v.principles.filter(principle_of(p.id)).len() + 1) + " added (global #"@
            + dec_int(pr.id as int) + "): "@ + prefix(text@, 80) + (o2.subrange(o1.len() as int, o2.len() as int))
            + (o3.subrange(o2.len() as int, o3.len() as int))
            + violation_section(project_findings(store@, p.id), pr.id)
            + constraint_section(store@.constraints.filter(constraint_of(p.id)), pr.id));
    }
    out
}

/// Principles must be derived from evidence: a principle is added only
/// when a finding or a decision is named, and then (when the edge table has
/// room) it is linked DerivedFrom to the finding named.
pub proof fn law_principles_derive_from_evidence(v: StoreView, w: StoreView, out: Seq<char>, project: Seq<char>,
    scope: Seq<char>, text: Seq<char>, rationale: Option<Seq<char>>, enforcement: Option<Seq<char>>,
    fid: Option<i64>, did: Option<i64>)
    requires
        principle_added(v, w, out, project, scope, text, rationale, enforcement, fid, did),
    ensures
        w.principles.len() > v.principles.len() ==> fid is Some || did is Some,
        fid is None && did is None ==> w == v,
        w.principles.len() > v.principles.len() && has_room(v.edges.len()) ==> (fid matches Some(f) ==> {
            let e = w.edges[v.edges.len() as int];
            &&& w.edges.len() > v.edges.len()
            &&& e.source_type == NodeType::Principle && e.source_id == w.principles.last().id
            &&& e.target_type == NodeType::Finding && e.target_id == f && e.relation == EdgeType::DerivedFrom
        }),
{
    if w.principles.len() > v.principles.len() && has_room(v.edges.len()) && fid is Some && !(fid is None && did is None) {
        let p = project_named(v, project).unwrap();
        let prid = (v.principles.len() + 1) as i64;
        let v1 = v.with_principles(v.principles.push(w.principles.last()));
        let s2 = derive_step(v1, prid, NodeType::Finding, "Finding"@, fid);
        let s3 = derive_step(s2.0, prid, NodeType::Decision, "Decision"@, did);
        assert(s2.0.edges[v.edges.len() as int] == s3.0.edges[v.edges.len() as int]);
    }
}

} // verus!
