//! Adding a constraint: a measured boundary of the project, tied to the
//! experiment that tested it and pointed at the phases and pending
//! experiments it may bear on.
use vstd::prelude::*;
use crate::text::{push_str, push_i64, push_u64, take_chars, dec_int, dec_nat, prefix};
use crate::store::{Store, StoreView, StoreError, Constraint, ConstraintScope, Experiment, Phase, PhaseView, NodeType,
    EdgeType, has_room, opt_ref, opt_str, constraint_of, experiment_in};
use crate::mcp::common::{error_text, error_str, find_project, project_named, try_link, guidance, views, pair_views,
    push_guidance};
use crate::mcp::finding::first_n;
use crate::mcp::nodes::{is_pending, pending_experiments};
use crate::mcp::init::pending_exec;
use crate::analysis::numbers::{words_of, split_words, char_views, trim_alnum, trim_alnum_exec, utf8_len,
    utf8_len_at_least, chars_eq};
use crate::text::chars_of;
use crate::dag::views as phase_views;

verus! {

/// The scope that a tool argument names: software, process, and hardware
/// for anything else.
pub open spec fn constraint_scope(s: Seq<char>) -> ConstraintScope {
    if s == "software"@ {
        ConstraintScope::Software
    } else if s == "process"@ {
        ConstraintScope::Process
    } else {
        ConstraintScope::Hardware
    }
}

fn constraint_scope_of(s: &str) -> (r: ConstraintScope)
    ensures
        r == constraint_scope(s@),
{
    if crate::text::str_eq(s, "software") {
        ConstraintScope::Software
    } else if crate::text::str_eq(s, "process") {
        ConstraintScope::Process
    } else {
        ConstraintScope::Hardware
    }
}

/// The key words among `ws`: those longer than three bytes, cut of the
/// non-alphanumeric characters at their ends, and not empty then.
pub open spec fn key_words_in(ws: Seq<Seq<char>>) -> Seq<Seq<char>>
    decreases ws.len(),
{
    if ws.len() == 0 {
        Seq::empty()
    } else {
        let r = key_words_in(ws.drop_last());
        let w = ws.last();
        if utf8_len(w) > 3 && trim_alnum(w).len() > 0 { r.push(trim_alnum(w)) } else { r }
    }
}

/// The key words of text `t`.
pub open spec fn key_words(t: Seq<char>) -> Seq<Seq<char>> {
    key_words_in(words_of(t))
}

/// Some word is a key word of both lists.
pub open spec fn shares_word(a: Seq<Seq<char>>, b: Seq<Seq<char>>) -> bool {
    exists|i: int, j: int| 0 <= i < a.len() && 0 <= j < b.len() && #[trigger] a[i] == #[trigger] b[j]
}

/// The suggestions to relate constraint `cid` (with key words `tw`) to the
/// phases of `ps` whose names share a key word with it.
pub open spec fn overlap_suggestions(ps: Seq<PhaseView>, cid: i64, tw: Seq<Seq<char>>) -> Seq<(Seq<char>, Seq<char>)>
    decreases ps.len(),
{
    if ps.len() == 0 {
        Seq::empty()
    } else {
        let p = ps.last();
        overlap_suggestions(ps.drop_last(), cid, tw) + if shares_word(tw, key_words(p.name)) {
            seq![("Constraint overlaps with Phase#"@ + dec_int(p.id as int) + " ("@ + p.name + ")"@,
                "pm_add_edge source_type=constraint source_id="@ + dec_int(cid as int) + " target_type=phase target_id="@
                    + dec_int(p.id as int) + " relation=related"@)]
        } else {
            Seq::empty()
        }
    }
}

/// The suggestion to relate constraint `cid` to pending experiment `e`.
pub open spec fn pending_suggestion(cid: i64, e: Experiment) -> (Seq<char>, Seq<char>) {
    ("Pending Experiment#"@ + dec_int(e.id as int) + " may be affected"@,
        "pm_add_edge source_type=constraint source_id="@ + dec_int(cid as int) + " target_type=experiment target_id="@
            + dec_int(e.id as int) + " relation=related"@)
}

/// The suggestions for the first three pending experiments of each phase
/// of `ps`.
pub open spec fn pending_suggestions(v: StoreView, ps: Seq<PhaseView>, cid: i64) -> Seq<(Seq<char>, Seq<char>)>
    decreases ps.len(),
{
    if ps.len() == 0 {
        Seq::empty()
    } else {
        pending_suggestions(v, ps.drop_last(), cid)
            + first_n(pending_experiments(v, ps.last().id), 3).map_values(|e: Experiment| pending_suggestion(cid, e))
    }
}

/// Adding a constraint to store `v` made store `w` and answered `out`:
/// - with no project by that name or alias, "Project not found";
/// - with the constraint table full, the store's error;
/// - otherwise the constraint is added with the given scope, text,
///   source, severity, resource, measured value and expiry date; tied
///   `TestedBy` to the experiment named (a failure is noted); and the
///   answer gives its number in the project and globally, its text (80
///   characters) and the causal links: the edge made, and suggested edges
///   to the phases whose names share a key word with its text and to the
///   first three pending experiments of each phase.
pub open spec fn constraint_added(v: StoreView, w: StoreView, out: Seq<char>, project: Seq<char>, scope: Seq<char>,
    text: Seq<char>, source: Option<Seq<char>>, severity: Option<Seq<char>>, resource: Option<Seq<char>>,
    measured: Option<Seq<char>>, expires: Option<Seq<char>>, eid: Option<i64>) -> bool {
    match project_named(v, project) {
        None => w == v && out == "Project not found: "@ + project,
        Some(p) => if !has_room(v.constraints.len()) {
            w == v && out == "Error: "@ + error_text(StoreError::Capacity)
        } else {
            let cid = (v.constraints.len() + 1) as i64;
            let c = w.constraints.last();
            let v1 = v.with_constraints(v.constraints.push(c));
            let linked = eid is Some && has_room(v1.edges.len());
            let v2 = match eid { Some(x) => try_link(v1, (NodeType::Experiment, x, NodeType::Constraint, cid, EdgeType::TestedBy)), None => v1 };
            let note = match eid {
                Some(x) => if linked { Seq::empty() } else { " (experiment edge note: "@ + error_text(StoreError::Capacity) + ")"@ },
                None => Seq::empty(),
            };
            let auto = match eid {
                Some(x) => if linked { seq!["Experiment#"@ + dec_int(x as int) + " --TestedBy--> Constraint#"@ + dec_int(cid as int)] } else { Seq::empty() },
                None => Seq::empty(),
            };
            let ps = v.phases_of(p.id);
            let sugg = overlap_suggestions(ps, cid, key_words(text)) + pending_suggestions(v, ps, cid);
            &&& w.constraints.len() == v.constraints.len() + 1
            &&& c.id == cid && c.project_id == p.id && c.scope == constraint_scope(scope) && c.text@ == text
            &&& opt_str(c.source) == source && opt_str(c.severity) == severity && opt_str(c.resource) == resource
            &&& opt_str(c.measured_value) == measured && opt_str(c.expires_at) == expires
            &&& w == v2
            &&& out == "Constraint #"@ + dec_nat(v.constraints.filter(constraint_of(p.id)).len() + 1) + " added (global #"@
                + dec_int(cid as int) + "): "@ + prefix(text, 80) + note + guidance(auto, sugg)
        },
    }
}

pub(crate) fn key_words_exec(t: &Vec<char>) -> (r: Vec<Vec<char>>)
    ensures
        char_views(r@) == key_words(t@),
{
    let ws = split_words(t);
    let ghost wv = char_views(ws@);
    let mut r: Vec<Vec<char>> = Vec::new();
    let mut i: usize = 0;
    while i < ws.len()
        invariant
            wv == char_views(ws@),
            wv == words_of(t@),
            i <= ws@.len(),
            char_views(r@) == key_words_in(wv.take(i as int)),
        decreases ws@.len() - i,
    {
        proof {
            assert(wv.take(i + 1).drop_last() =~= wv.take(i as int));
            assert(wv[i as int] == ws@[i as int]@);
        }
        let w = &ws[i];
        if utf8_len_at_least(w, 4) {
            let tw = trim_alnum_exec(w);
            if tw.len() > 0 {
                let ghost r0 = r@;
                r.push(tw);
                proof { assert(char_views(r@) =~= char_views(r0).push(tw@)); }
            }
        }
        i = i + 1;
    }
    proof { assert(wv.take(i as int) =~= wv); }
    r
}

pub(crate) fn shares_word_exec(a: &Vec<Vec<char>>, b: &Vec<Vec<char>>) -> (r: bool)
    ensures
        r == shares_word(char_views(a@), char_views(b@)),
{
    let ghost av = char_views(a@);
    let ghost bv = char_views(b@);
    let mut i: usize = 0;
    while i < a.len()
        invariant
            av == char_views(a@),
            bv == char_views(b@),
            i <= a@.len(),
            forall|x: int, y: int| 0 <= x < i && 0 <= y < bv.len() ==> av[x] != bv[y],
        decreases a@.len() - i,
    {
        let mut j: usize = 0;
        while j < b.len()
            invariant
                av == char_views(a@),
                bv == char_views(b@),
                i < a@.len(),
                j <= b@.len(),
                forall|x: int, y: int| 0 <= x < i && 0 <= y < bv.len() ==> av[x] != bv[y],
                forall|y: int| 0 <= y < j ==> av[i as int] != bv[y],
            decreases b@.len() - j,
        {
            if chars_eq(&a[i], &b[j]) {
                proof {
                    assert(av[i as int] == bv[j as int]);
                }
                return true;
            }
            j = j + 1;
        }
        i = i + 1;
    }
    false
}

fn push_overlaps(sugg: &mut Vec<(String, String)>, store: &Store, phases: &Vec<Phase>, cid: i64, tw: &Vec<Vec<char>>)
    ensures
        pair_views(final(sugg)@) == pair_views(old(sugg)@) + overlap_suggestions(phase_views(phases@), cid, char_views(tw@)),
{
    let ghost ps = phase_views(phases@);
    let ghost base = pair_views(sugg@);
    let mut i: usize = 0;
    while i < phases.len()
        invariant
            ps == phase_views(phases@),
            i <= phases@.len(),
            pair_views(sugg@) == base + overlap_suggestions(ps.take(i as int), cid, char_views(tw@)),
        decreases phases@.len() - i,
    {
        let p = &phases[i];
        proof {
            assert(ps.take(i + 1).drop_last() =~= ps.take(i as int));
            assert(ps[i as int] == p@);
        }
        let pcs = chars_of(p.name.as_str());
        let pw = key_words_exec(&pcs);
        let ghost s0 = pair_views(sugg@);
        if shares_word_exec(tw, &pw) {
            let mut d = String::new();
            push_str(&mut d, "Constraint overlaps with Phase#");
            push_i64(&mut d, p.id);
            push_str(&mut d, " (");
            push_str(&mut d, p.name.as_str());
            push_str(&mut d, ")");
            let mut c = String::new();
            push_str(&mut c, "pm_add_edge source_type=constraint source_id=");
            push_i64(&mut c, cid);
            push_str(&mut c, " target_type=phase target_id=");
            push_i64(&mut c, p.id);
            push_str(&mut c, " relation=related");
            sugg.push((d, c));
            proof {
                assert(pair_views(sugg@) =~= s0.push((d@, c@)));
            }
        }
        proof {
            assert(pair_views(sugg@) =~= base + overlap_suggestions(ps.take(i + 1), cid, char_views(tw@)));
        }
        i = i + 1;
    }
    proof { assert(ps.take(i as int) =~= ps); }
}

fn push_pendings(sugg: &mut Vec<(String, String)>, store: &Store, phases: &Vec<Phase>, cid: i64)
    ensures
        pair_views(final(sugg)@) == pair_views(old(sugg)@) + pending_suggestions(store@, phase_views(phases@), cid),
{
    let ghost v = store@;
    let ghost ps = phase_views(phases@);
    let ghost base = pair_views(sugg@);
    let mut i: usize = 0;
    while i < phases.len()
        invariant
            v == store@,
            ps == phase_views(phases@),
            i <= phases@.len(),
            pair_views(sugg@) == base + pending_suggestions(v, ps.take(i as int), cid),
        decreases phases@.len() - i,
    {
        let p = &phases[i];
        proof {
            assert(ps.take(i + 1).drop_last() =~= ps.take(i as int));
            assert(ps[i as int] == p@);
        }
        let es = match store.list_experiments(Some(p.id)) { Ok(x) => x, Err(_) => Vec::new() };
        let pend = pending_exec(&es);
        let ghost shown = first_n(pend@, 3);
        let lim: usize = if pend.len() < 3 { pend.len() } else { 3 };
        let ghost s0 = pair_views(sugg@);
        let mut k: usize = 0;
        while k < lim
            invariant
                lim == shown.len(),
                shown == first_n(pend@, 3),
                lim <= pend@.len(),
                k <= lim,
                pair_views(sugg@) == s0 + shown.take(k as int).map_values(|e: Experiment| pending_suggestion(cid, e)),
            decreases lim - k,
        {
            let e = &pend[k];
            proof { assert(shown[k as int] == pend@[k as int]); }
            let ghost s1 = pair_views(sugg@);
            let mut d = String::new();
            push_str(&mut d, "Pending Experiment#");
            push_i64(&mut d, e.id);
            push_str(&mut d, " may be affected");
            let mut c = String::new();
            push_str(&mut c, "pm_add_edge source_type=constraint source_id=");
            push_i64(&mut c, cid);
            push_str(&mut c, " target_type=experiment target_id=");
            push_i64(&mut c, e.id);
            push_str(&mut c, " relation=related");
            sugg.push((d, c));
            proof {
                assert(pair_views(sugg@) =~= s1.push((d@, c@)));
                assert(shown.take(k + 1).map_values(|e: Experiment| pending_suggestion(cid, e))
                    =~= shown.take(k as int).map_values(|e: Experiment| pending_suggestion(cid, e)).push(pending_suggestion(cid, shown[k as int])));
            }
            k = k + 1;
        }
        proof {
            assert(shown.take(k as int) =~= shown);
            assert(pend@ == pending_experiments(v, p.id));
            assert(pair_views(sugg@) =~= base + pending_suggestions(v, ps.take(i + 1), cid));
        }
        i = i + 1;
    }
    proof { assert(ps.take(i as int) =~= ps); }
}

/// Adds a constraint of a project (named by name or alias); see
/// `constraint_added`.
#[verifier::rlimit(60)]
pub fn tool_constraint_add(store: &mut Store, project: &str, scope: &str, text: &str, source: Option<&str>,
    severity: Option<&str>, resource: Option<&str>, measured_value: Option<&str>, expires_at: Option<&str>,
    experiment_id: Option<i64>) -> (out: String)
    requires
        old(store).wf(),
    ensures
        final(store).wf(),
        constraint_added(old(store)@, final(store)@, out@, project@, scope@, text@, opt_ref(source), opt_ref(severity),
            opt_ref(resource), opt_ref(measured_value), opt_ref(expires_at), experiment_id),
{
    let ghost v = store@;
    let mut out = String::new();
    let p = match find_project(store, project) {
        Some(p) => p,
        None => {
            push_str(&mut out, "Project not found: ");
            push_str(&mut out, project);
            return out;
        },
    };
    let existing = match store.list_constraints(p.id) {
        Ok(x) => x.len(),
        Err(_) => 0,
    };
    let sc = constraint_scope_of(scope);
    let c = match store.create_constraint(p.id, sc, text, source, severity, resource, measured_value, expires_at) {
        Ok(c) => c,
        Err(e) => {
            push_str(&mut out, "Error: ");
            push_str(&mut out, error_str(e));
            return out;
        },
    };
    proof {
        v.constraints.lemma_filter_len(constraint_of(p.id));
        assert(existing <= v.constraints.len());
    }
    let ghost v1 = store@;
    push_str(&mut out, "Constraint #");
    push_u64(&mut out, existing as u64 + 1);
    push_str(&mut out, " added (global #");
    push_i64(&mut out, c.id);
    push_str(&mut out, "): ");
    let t = take_chars(text, 80);
    push_str(&mut out, t.as_str());
    let ghost o1 = out@;
    let mut auto: Vec<String> = Vec::new();
    let mut sugg: Vec<(String, String)> = Vec::new();
    if let Some(eid) = experiment_id {
        match store.create_edge(NodeType::Experiment, eid, NodeType::Constraint, c.id, EdgeType::TestedBy) {
            Ok(_) => {
                let mut l = String::new();
                push_str(&mut l, "Experiment#");
                push_i64(&mut l, eid);
                push_str(&mut l, " --TestedBy--> Constraint#");
                push_i64(&mut l, c.id);
                auto.push(l);
                proof {
                    assert(views(auto@) =~= seq!["Experiment#"@ + dec_int(eid as int) + " --TestedBy--> Constraint#"@ + dec_int(c.id as int)]);
                }
            },
            Err(e) => {
                push_str(&mut out, " (experiment edge note: ");
                push_str(&mut out, error_str(e));
                push_str(&mut out, ")");
                proof {
                    assert(out@ =~= o1 + (" (experiment edge note: "@ + error_text(StoreError::Capacity) + ")"@));
                    assert(views(auto@) =~= Seq::<Seq<char>>::empty());
                }
            },
        }
    }
    let phases = match store.list_phases(p.id) { Ok(x) => x, Err(_) => Vec::new() };
    proof {
        assert(phase_views(phases@) == store@.phases_of(p.id));
        assert(store@.phases == v.phases);
        assert(store@.phases_of(p.id) == v.phases_of(p.id));
    }
    let tcs = chars_of(text);
    let tw = key_words_exec(&tcs);
    push_overlaps(&mut sugg, store, &phases, c.id, &tw);
    push_pendings(&mut sugg, store, &phases, c.id);
    proof {
        assert(store@.experiments == v.experiments);
        assert(pending_suggestions(store@, v.phases_of(p.id), c.id) == pending_suggestions(v, v.phases_of(p.id), c.id)) by {
            lemma_pending_same(store@, v, v.phases_of(p.id), c.id);
        }
    }
    let ghost o2 = out@;
    proof {
        assert(experiment_id is None ==> views(auto@) =~= Seq::<Seq<char>>::empty() && o2 == o1);
        assert(pair_views(sugg@) =~= overlap_suggestions(v.phases_of(p.id), c.id, key_words(text@))
            + pending_suggestions(v, v.phases_of(p.id), c.id));
    }
    push_guidance(&mut out, &auto, &sugg);
    proof {
        let linked = experiment_id is Some && has_room(v1.edges.len());
        let note = match experiment_id {
            Some(x) => if linked { Seq::<char>::empty() } else { " (experiment edge note: "@ + error_text(StoreError::Capacity) + ")"@ },
            None => Seq::<char>::empty(),
        };
        assert(o2 =~= o1 + note);
        assert(out@ =~= o1 + note + guidance(views(auto@), pair_views(sugg@)));
        assert(store@.constraints.last() == c);
        assert(o1 =~= "Constraint #"@ + dec_nat(v.constraints.filter(constraint_of(p.id)).len() + 1) + " added (global #"@
            + dec_int(c.id as int) + "): "@ + prefix(text@, 80));
    }
    out
}

proof fn lemma_pending_same(a: StoreView, b: StoreView, ps: Seq<PhaseView>, cid: i64)
    requires
        a.experiments == b.experiments,
    ensures
        pending_suggestions(a, ps, cid) == pending_suggestions(b, ps, cid),
    decreases ps.len(),
{
    if ps.len() > 0 {
        lemma_pending_same(a, b, ps.drop_last(), cid);
    }
}

} // verus!
