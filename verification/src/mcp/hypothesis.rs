//! Moving a hypothesis through its lifecycle: proposed, testing, then
//! confirmed or refuted.  Testing needs supporting evidence; refuting a
//! hypothesis under test needs the finding that disproves it.  The move
//! links the experiment or finding involved and suggests what to do next.
use vstd::prelude::*;
use crate::text::{push_str, push_i64, str_eq, dec_int, prefix};
use crate::store::{Store, StoreView, StoreError, Edge, EdgeType, NodeType, Hypothesis, HypothesisStatus, has_room,
    opt_str, opt_ref, edge_to};
use crate::mcp::common::{error_text, error_str, guidance, push_guidance, try_link, link_line, views, pair_views, project_named};

verus! {

broadcast use vstd::seq_lib::group_seq_properties;

/// The status that an update names: "confirmed", "refuted" or "testing";
/// any other word means proposed.
pub open spec fn hyp_status_named(s: Seq<char>) -> HypothesisStatus {
    if s == "confirmed"@ {
        HypothesisStatus::Confirmed
    } else if s == "refuted"@ {
        HypothesisStatus::Refuted
    } else if s == "testing"@ {
        HypothesisStatus::Testing
    } else {
        HypothesisStatus::Proposed
    }
}

/// Picks out the edges that count as evidence for a hypothesis: supports,
/// informed and produced-by.
pub open spec fn evidence_edge() -> spec_fn(Edge) -> bool {
    |e: Edge| e.relation == EdgeType::Supports || e.relation == EdgeType::Informed || e.relation == EdgeType::ProducedBy
}

/// Some edge into hypothesis `hid` counts as evidence for it.
pub open spec fn has_evidence(v: StoreView, hid: i64) -> bool {
    v.edges.filter(edge_to(NodeType::Hypothesis, hid)).filter(evidence_edge()).len() > 0
}

/// The answer when a hypothesis without evidence is moved to testing.
pub open spec fn no_evidence_text(hid: i64) -> Seq<char> {
    "\u{274c} Cannot transition to testing: hypothesis #"@ + dec_int(hid as int) + " has no supporting evidence.\n"@
        + "Add at least one edge (e.g., pm_add_edge source_type=finding source_id=X target_type=hypothesis target_id="@
        + dec_int(hid as int) + " relation=supports)"@
}

/// The answer when a hypothesis under test is refuted without a finding.
pub open spec fn no_finding_text(hid: i64) -> Seq<char> {
    "\u{274c} Cannot refute hypothesis #"@ + dec_int(hid as int) + " without a disproving finding.\n"@
        + "Provide finding_id parameter with the finding that disproves this hypothesis."@
}

/// Refuting hypothesis `cur` under test: the move that records the
/// disproving finding as a contradiction.
pub open spec fn refutes(cur: Hypothesis, hs: HypothesisStatus) -> bool {
    cur.status == HypothesisStatus::Testing && hs == HypothesisStatus::Refuted
}

/// Why the update of hypothesis `hid` to the status named `st` is refused,
/// if it is: the hypothesis does not exist; it is proposed, moved to
/// testing and has no evidence; it is under test and refuted without a
/// finding; or the contradiction edge finds no room.
pub open spec fn hyp_refusal(v: StoreView, hid: i64, st: Seq<char>, fid: Option<i64>) -> Option<Seq<char>> {
    let hs = hyp_status_named(st);
    match v.hypothesis(hid) {
        None => Some("Error fetching hypothesis #"@ + dec_int(hid as int) + ": "@ + error_text(StoreError::NotFound)),
        Some(cur) => if cur.status == HypothesisStatus::Proposed && hs == HypothesisStatus::Testing
            && !has_evidence(v, hid) {
            Some(no_evidence_text(hid))
        } else if refutes(cur, hs) && fid is None {
            Some(no_finding_text(hid))
        } else if refutes(cur, hs) && !has_room(v.edges.len()) {
            Some("Error creating contradiction edge: "@ + error_text(StoreError::Capacity))
        } else {
            None
        },
    }
}

/// The edge that the update adds: the testing experiment, the confirming
/// finding, or the refuting finding of a hypothesis under test.
pub open spec fn hyp_link(refute: bool, hs: HypothesisStatus, hid: i64, eid: Option<i64>, fid: Option<i64>)
    -> Option<(NodeType, i64, NodeType, i64, EdgeType)>
{
    if hs == HypothesisStatus::Testing && eid is Some {
        Some((NodeType::Experiment, eid.unwrap(), NodeType::Hypothesis, hid, EdgeType::TestedBy))
    } else if hs == HypothesisStatus::Confirmed && fid is Some {
        Some((NodeType::Finding, fid.unwrap(), NodeType::Hypothesis, hid, EdgeType::Supports))
    } else if refute && hs == HypothesisStatus::Refuted && fid is Some {
        Some((NodeType::Finding, fid.unwrap(), NodeType::Hypothesis, hid, EdgeType::Contradicts))
    } else {
        None
    }
}

/// The links the update reports as made: the testing or confirming edge
/// when the store took it, and the contradiction whenever a refutation
/// names a finding.
pub open spec fn hyp_auto(v: StoreView, hs: HypothesisStatus, hid: i64, eid: Option<i64>, fid: Option<i64>) -> Seq<Seq<char>> {
    if hs == HypothesisStatus::Testing && eid is Some && has_room(v.edges.len()) {
        seq![link_line("Experiment"@, (NodeType::Experiment, eid.unwrap(), NodeType::Hypothesis, hid, EdgeType::TestedBy))]
    } else if hs == HypothesisStatus::Confirmed && fid is Some && has_room(v.edges.len()) {
        seq![link_line("Finding"@, (NodeType::Finding, fid.unwrap(), NodeType::Hypothesis, hid, EdgeType::Supports))]
    } else if hs == HypothesisStatus::Refuted && fid is Some {
        seq![link_line("Finding"@, (NodeType::Finding, fid.unwrap(), NodeType::Hypothesis, hid, EdgeType::Contradicts))]
    } else {
        Seq::empty()
    }
}

/// What the update suggests doing next, by the new status.
pub open spec fn hyp_suggestions(hs: HypothesisStatus, hid: i64) -> Seq<(Seq<char>, Seq<char>)> {
    if hs == HypothesisStatus::Confirmed {
        seq![("If confirmation warrants a decision"@,
            "pm_decision what=\"...\" why=\"Based on confirmed hypothesis #"@ + dec_int(hid as int) + "\""@)]
    } else if hs == HypothesisStatus::Refuted {
        seq![("If refutation warrants a new hypothesis"@,
            "pm_add_edge source_type=Hypothesis source_id="@ + dec_int(hid as int)
                + " target_type=Hypothesis target_id=? relation=Supersedes"@)]
    } else if hs == HypothesisStatus::Testing {
        seq![("Log findings from the testing experiment"@, "pm_log_finding experiment_id=? text=\"...\""@),
            ("When evidence confirms or refutes"@,
                "pm_hyp_update hypothesis_id="@ + dec_int(hid as int) + " status=<confirmed|refuted> finding_id=?"@)]
    } else {
        Seq::empty()
    }
}

/// The note that a confirmed hypothesis may become a principle.
pub open spec fn principle_note(hs: HypothesisStatus, hid: i64) -> Seq<char> {
    if hs == HypothesisStatus::Confirmed {
        "\n\nHypothesis confirmed. Consider creating a principle:\n  pm_principle_add project=<project> scope=project text=\"<principle derived from hypothesis #"@
            + dec_int(hid as int) + ">\"\n"@
    } else {
        Seq::empty()
    }
}

/// The answer to a successful update of hypothesis `hid` in store `v`.
pub open spec fn hyp_update_text(v: StoreView, hs: HypothesisStatus, hid: i64, eid: Option<i64>, fid: Option<i64>) -> Seq<char> {
    "Hypothesis #"@ + dec_int(hid as int) + " updated to "@ + hs.spec_name() + principle_note(hs, hid)
        + guidance(hyp_auto(v, hs, hid, eid, fid), hyp_suggestions(hs, hid))
}

/// `n` is hypothesis `cur` moved to status `hs`, with the experiment and
/// finding given (the old ones kept where none is given) and the
/// prediction and criteria given (likewise).
pub open spec fn updated_hyp(cur: Hypothesis, n: Hypothesis, hs: HypothesisStatus, eid: Option<i64>, fid: Option<i64>,
    pred: Option<Seq<char>>, crit: Option<Seq<char>>) -> bool
{
    &&& n.id == cur.id && n.phase_id == cur.phase_id && n.text == cur.text
    &&& n.status == hs
    &&& n.experiment_id == (if eid is Some { eid } else { cur.experiment_id })
    &&& n.finding_id == (if fid is Some { fid } else { cur.finding_id })
    &&& opt_str(n.prediction) == (if pred is Some { pred } else { opt_str(cur.prediction) })
    &&& opt_str(n.criteria) == (if crit is Some { crit } else { opt_str(cur.criteria) })
}

/// Store `v` after the edge of `l`, if any, is attempted.
pub open spec fn linked(v: StoreView, l: Option<(NodeType, i64, NodeType, i64, EdgeType)>) -> StoreView {
    match l {
        Some(x) => try_link(v, x),
        None => v,
    }
}

fn status_named(s: &str) -> (hs: HypothesisStatus)
    ensures
        hs == hyp_status_named(s@),
{
    if str_eq(s, "confirmed") {
        HypothesisStatus::Confirmed
    } else if str_eq(s, "refuted") {
        HypothesisStatus::Refuted
    } else if str_eq(s, "testing") {
        HypothesisStatus::Testing
    } else {
        HypothesisStatus::Proposed
    }
}

fn evidence_exists(store: &Store, hid: i64) -> (b: bool)
    ensures
        b == has_evidence(store@, hid),
{
    let es = match store.get_edges_to(NodeType::Hypothesis, hid) { Ok(x) => x, Err(_) => Vec::new() };
    let ghost all = es@;
    let mut i: usize = 0;
    while i < es.len()
        invariant
            all == es@,
            all == store@.edges.filter(edge_to(NodeType::Hypothesis, hid)),
            i <= es@.len(),
            all.take(i as int).filter(evidence_edge()).len() == 0,
        decreases es@.len() - i,
    {
        proof {
            assert(all.take(i + 1) =~= all.take(i as int).push(all[i as int]));
            all.take(i as int).lemma_filter_push(all[i as int], evidence_edge());
        }
        let r = es[i].relation;
        if r == EdgeType::Supports || r == EdgeType::Informed || r == EdgeType::ProducedBy {
            proof {
                crate::mcp::finding::lemma_filter_take_prefix(all, evidence_edge(), i + 1);
                assert(all.take(i + 1).filter(evidence_edge()).len() > 0);
            }
            return true;
        }
        i = i + 1;
    }
    proof { assert(all.take(i as int) =~= all); }
    false
}

fn link_text(src: &str, l: (NodeType, i64, NodeType, i64, EdgeType)) -> (r: String)
    ensures
        r@ == link_line(src@, l),
{
    let mut r = String::new();
    push_str(&mut r, src);
    push_str(&mut r, "#");
    push_i64(&mut r, l.1);
    push_str(&mut r, " --");
    push_str(&mut r, l.4.name());
    push_str(&mut r, "--> ");
    push_str(&mut r, l.2.name());
    push_str(&mut r, "#");
    push_i64(&mut r, l.3);
    proof { assert(r@ =~= link_line(src@, l)); }
    r
}

fn suggestion(a: &str, b: String) -> (r: (String, String))
    ensures
        r.0@ == a@ && r.1@ == b@,
{
    let mut s = String::new();
    push_str(&mut s, a);
    (s, b)
}

/// The suggestions of the update, and the note on a confirmed hypothesis.
fn push_next_steps(out: &mut String, sugg: &mut Vec<(String, String)>, hs: HypothesisStatus, hid: i64)
    ensures
        final(out)@ == old(out)@ + principle_note(hs, hid),
        pair_views(final(sugg)@) == pair_views(old(sugg)@) + hyp_suggestions(hs, hid),
{
    let ghost s0 = pair_views(sugg@);
    if hs == HypothesisStatus::Confirmed {
        push_str(out, "\n\nHypothesis confirmed. Consider creating a principle:\n  pm_principle_add project=<project> scope=project text=\"<principle derived from hypothesis #");
        push_i64(out, hid);
        push_str(out, ">\"\n");
        let mut c = String::new();
        push_str(&mut c, "pm_decision what=\"...\" why=\"Based on confirmed hypothesis #");
        push_i64(&mut c, hid);
        push_str(&mut c, "\"");
        sugg.push(suggestion("If confirmation warrants a decision", c));
    } else if hs == HypothesisStatus::Refuted {
        let mut c = String::new();
        push_str(&mut c, "pm_add_edge source_type=Hypothesis source_id=");
        push_i64(&mut c, hid);
        push_str(&mut c, " target_type=Hypothesis target_id=? relation=Supersedes");
        sugg.push(suggestion("If refutation warrants a new hypothesis", c));
    } else if hs == HypothesisStatus::Testing {
        let mut c1 = String::new();
        push_str(&mut c1, "pm_log_finding experiment_id=? text=\"...\"");
        sugg.push(suggestion("Log findings from the testing experiment", c1));
        let mut c2 = String::new();
        push_str(&mut c2, "pm_hyp_update hypothesis_id=");
        push_i64(&mut c2, hid);
        push_str(&mut c2, " status=<confirmed|refuted> finding_id=?");
        sugg.push(suggestion("When evidence confirms or refutes", c2));
    }
    proof {
        assert(out@ =~= old(out)@ + principle_note(hs, hid));
        assert(pair_views(sugg@) =~= s0 + hyp_suggestions(hs, hid));
    }
}

/// Moves hypothesis `hid` to the status named `status` ("confirmed",
/// "refuted", "testing"; anything else means proposed), recording the
/// prediction and criteria given, the testing experiment and the
/// resolving finding, and linking them: a test gets a tested-by edge from
/// its experiment, a confirmation a supports edge from its finding, and
/// the refutation of a hypothesis under test a contradicts edge from its
/// finding.  Moving a proposed hypothesis without evidence to testing, and
/// refuting one under test without a finding, are refused; see
/// `hyp_refusal` and `hyp_update_text`.
pub fn tool_hyp_update(store: &mut Store, hid: i64, status: &str, experiment_id: Option<i64>, finding_id: Option<i64>,
    prediction: Option<&str>, criteria: Option<&str>) -> (out: String)
    requires
        old(store).wf(),
    ensures
        final(store).wf(),
        hyp_refusal(old(store)@, hid, status@, finding_id) matches Some(msg) ==> final(store)@ == old(store)@
            && out@ == msg,
        hyp_refusal(old(store)@, hid, status@, finding_id) is None ==> {
            let v = old(store)@;
            let hs = hyp_status_named(status@);
            let cur = v.hypotheses[hid - 1];
            let n = final(store)@.hypotheses[hid - 1];
            &&& updated_hyp(cur, n, hs, experiment_id, finding_id, opt_ref(prediction), opt_ref(criteria))
            &&& final(store)@ == linked(v, hyp_link(refutes(cur, hs), hs, hid, experiment_id, finding_id))
                .with_hypotheses(v.hypotheses.update(hid - 1, n))
            &&& out@ == hyp_update_text(v, hs, hid, experiment_id, finding_id)
        },
{
    let ghost v = store@;
    let hs = status_named(status);
    let mut out = String::new();
    let cur = match store.get_hypothesis(hid) {
        Ok(h) => h,
        Err(e) => {
            push_str(&mut out, "Error fetching hypothesis #");
            push_i64(&mut out, hid);
            push_str(&mut out, ": ");
            push_str(&mut out, error_str(e));
            return out;
        },
    };
    if cur.status == HypothesisStatus::Proposed && hs == HypothesisStatus::Testing {
        if !evidence_exists(store, hid) {
            push_str(&mut out, "\u{274c} Cannot transition to testing: hypothesis #");
            push_i64(&mut out, hid);
            push_str(&mut out, " has no supporting evidence.\n");
            push_str(&mut out, "Add at least one edge (e.g., pm_add_edge source_type=finding source_id=X target_type=hypothesis target_id=");
            push_i64(&mut out, hid);
            push_str(&mut out, " relation=supports)");
            return out;
        }
    }
    let refute = cur.status == HypothesisStatus::Testing && hs == HypothesisStatus::Refuted;
    if refute {
        match finding_id {
            None => {
                push_str(&mut out, "\u{274c} Cannot refute hypothesis #");
                push_i64(&mut out, hid);
                push_str(&mut out, " without a disproving finding.\n");
                push_str(&mut out, "Provide finding_id parameter with the finding that disproves this hypothesis.");
                return out;
            },
            Some(fid) => match store.create_edge(NodeType::Finding, fid, NodeType::Hypothesis, hid, EdgeType::Contradicts) {
                Ok(_) => {},
                Err(e) => {
                    push_str(&mut out, "Error creating contradiction edge: ");
                    push_str(&mut out, error_str(e));
                    return out;
                },
            },
        }
    }
    let ghost v1 = store@;
    if prediction.is_some() || criteria.is_some() {
        match store.update_hypothesis_fields(hid, prediction, criteria) {
            Ok(()) => {},
            Err(e) => {
                push_str(&mut out, "Error updating hypothesis fields: ");
                push_str(&mut out, error_str(e));
                return out;
            },
        }
    }
    let ghost v2 = store@;
    let mut auto: Vec<String> = Vec::new();
    let mut sugg: Vec<(String, String)> = Vec::new();
    if hs == HypothesisStatus::Testing {
        if let Some(eid) = experiment_id {
            let l = (NodeType::Experiment, eid, NodeType::Hypothesis, hid, EdgeType::TestedBy);
            match store.create_edge(l.0, l.1, l.2, l.3, l.4) {
                Ok(_) => auto.push(link_text("Experiment", l)),
                Err(_) => {},
            }
        }
    }
    if hs == HypothesisStatus::Confirmed {
        if let Some(fid) = finding_id {
            let l = (NodeType::Finding, fid, NodeType::Hypothesis, hid, EdgeType::Supports);
            match store.create_edge(l.0, l.1, l.2, l.3, l.4) {
                Ok(_) => auto.push(link_text("Finding", l)),
                Err(_) => {},
            }
        }
    }
    let ghost v3 = store@;
    match store.update_hypothesis(hid, hs, experiment_id, finding_id) {
        Ok(()) => {},
        Err(e) => {
            push_str(&mut out, "Error: ");
            push_str(&mut out, error_str(e));
            return out;
        },
    }
    push_str(&mut out, "Hypothesis #");
    push_i64(&mut out, hid);
    push_str(&mut out, " updated to ");
    push_str(&mut out, hs.name());
    push_next_steps(&mut out, &mut sugg, hs, hid);
    if hs == HypothesisStatus::Refuted {
        if let Some(fid) = finding_id {
            auto.push(link_text("Finding", (NodeType::Finding, fid, NodeType::Hypothesis, hid, EdgeType::Contradicts)));
        }
    }
    proof {
        assert(views(auto@) =~= hyp_auto(v, hs, hid, experiment_id, finding_id));
        assert(pair_views(sugg@) =~= hyp_suggestions(hs, hid));
    }
    push_guidance(&mut out, &auto, &sugg);
    proof {
        let n = store@.hypotheses[hid - 1];
        let w = linked(v, hyp_link(refutes(cur, hs), hs, hid, experiment_id, finding_id));
        assert(v1.hypotheses == v.hypotheses);
        assert(v2.edges == v1.edges);
        assert(v3.hypotheses == v2.hypotheses);
        assert(store@.edges == v3.edges);
        assert(store@.hypotheses =~= v.hypotheses.update(hid - 1, n));
        assert(v3.edges =~= w.edges);
        assert(store@ == w.with_hypotheses(v.hypotheses.update(hid - 1, n)));
        assert(out@ =~= hyp_update_text(v, hs, hid, experiment_id, finding_id));
    }
    out
}

/// A proposed hypothesis with no supporting evidence is not moved to
/// testing: the update is refused with a note saying how to add evidence.
pub proof fn law_testing_needs_evidence(v: StoreView, hid: i64, st: Seq<char>, fid: Option<i64>)
    requires
        v.hypothesis(hid) matches Some(cur) && cur.status == HypothesisStatus::Proposed,
        hyp_status_named(st) == HypothesisStatus::Testing,
        !has_evidence(v, hid),
    ensures
        hyp_refusal(v, hid, st, fid) == Some(no_evidence_text(hid)),
{
}

/// A hypothesis under test is refuted only with a finding, and the
/// refutation adds the edge by which that finding contradicts it.
pub proof fn law_refutation_records_contradiction(v: StoreView, hid: i64, st: Seq<char>, eid: Option<i64>, fid: Option<i64>)
    requires
        v.hypothesis(hid) matches Some(cur) && refutes(cur, hyp_status_named(st)),
        hyp_refusal(v, hid, st, fid) is None,
    ensures
        fid is Some,
        linked(v, hyp_link(true, hyp_status_named(st), hid, eid, fid)).edges
            == v.edges.push(Edge { id: (v.edges.len() + 1) as i64, source_type: NodeType::Finding, source_id: fid.unwrap(),
                target_type: NodeType::Hypothesis, target_id: hid, relation: EdgeType::Contradicts }),
{
}

/// Adding a hypothesis to store `v` made store `w` and answered `out`:
/// - a text under 20 characters is refused with a validation error;
/// - with no project by that name or alias, "Project not found";
/// - with the hypothesis table full, or a phase named that does not
///   exist, the store's error;
/// - otherwise the hypothesis is added, proposed, in the phase named, with
///   the prediction and criteria given; the finding named, if any, is
///   linked to it by a Supports edge (a failure is noted); and the answer
///   gives its id and text (80 characters).
pub open spec fn hypothesis_added(v: StoreView, w: StoreView, out: Seq<char>, project: Seq<char>, text: Seq<char>,
    phase_id: Option<i64>, fid: Option<i64>, prediction: Option<Seq<char>>, criteria: Option<Seq<char>>) -> bool {
    if text.len() < 20 {
        w == v && out == crate::mcp::common::validation_heading() + crate::mcp::common::too_short("text"@, text.len(), 20)
    } else {
        match project_named(v, project) {
            None => w == v && out == "Project not found: "@ + project,
            Some(p) => if !(has_room(v.hypotheses.len()) && (phase_id matches Some(x) ==> v.phase(x) is Some)) {
                w == v && out == "Error: "@ + error_text(if !has_room(v.hypotheses.len()) { StoreError::Capacity } else { StoreError::Constraint })
            } else {
                let hid = (v.hypotheses.len() + 1) as i64;
                let h = w.hypotheses[hid - 1];
                let v1 = v.with_hypotheses(v.hypotheses.push(h));
                &&& w.hypotheses.len() == v.hypotheses.len() + 1
                &&& h.id == hid && h.phase_id == phase_id && h.text@ == text && h.status == HypothesisStatus::Proposed
                &&& h.experiment_id is None && h.finding_id is None
                &&& opt_str(h.prediction) == prediction && opt_str(h.criteria) == criteria
                &&& match fid {
                    None => w == v1 && out == "Hypothesis #"@ + dec_int(hid as int) + " created: "@ + prefix(text, 80),
                    Some(f) => w == try_link(v1, (NodeType::Finding, f, NodeType::Hypothesis, hid, EdgeType::Supports))
                        && out == "Hypothesis #"@ + dec_int(hid as int) + " created: "@ + prefix(text, 80) + if has_room(v.edges.len()) {
                            "\nAuto-created edge: Finding #"@ + dec_int(f as int) + " --Supports--> Hypothesis #"@ + dec_int(hid as int)
                        } else {
                            "\nWarning: failed to create Supports edge from Finding #"@ + dec_int(f as int) + ": "@
                                + error_text(StoreError::Capacity)
                        },
                }
            },
        }
    }
}

/// Adds a hypothesis of a project (named by name or alias), grounded in
/// the finding that informs it; see `hypothesis_added`.
pub fn tool_hyp_add(store: &mut Store, project: &str, text: &str, phase_id: Option<i64>, finding_id: Option<i64>,
    prediction: Option<&str>, criteria: Option<&str>) -> (out: String)
    requires
        old(store).wf(),
    ensures
        final(store).wf(),
        hypothesis_added(old(store)@, final(store)@, out@, project@, text@, phase_id, finding_id, opt_ref(prediction),
            opt_ref(criteria)),
{
    let ghost v = store@;
    let mut out = String::new();
    let n = text.unicode_len();
    if n < 20 {
        push_str(&mut out, "\u{274c} VALIDATION ERROR:\n");
        crate::mcp::common::push_too_short(&mut out, "text", n, 20);
        return out;
    }
    let p = match crate::mcp::common::find_project(store, project) {
        Some(p) => p,
        None => {
            push_str(&mut out, "Project not found: ");
            push_str(&mut out, project);
            return out;
        },
    };
    let h = match store.create_hypothesis(phase_id, text) {
        Ok(h) => h,
        Err(e) => {
            push_str(&mut out, "Error: ");
            push_str(&mut out, error_str(e));
            return out;
        },
    };
    let ghost v0 = store@;
    if prediction.is_some() || criteria.is_some() {
        match store.update_hypothesis_fields(h.id, prediction, criteria) {
            Ok(()) => {},
            Err(_) => { return out; },
        }
    }
    let ghost v1 = store@;
    proof {
        assert(v1.hypotheses =~= v.hypotheses.push(v1.hypotheses[h.id - 1]));
        assert(v1 == v.with_hypotheses(v.hypotheses.push(v1.hypotheses[h.id - 1])));
    }
    push_str(&mut out, "Hypothesis #");
    push_i64(&mut out, h.id);
    push_str(&mut out, " created: ");
    let t = crate::text::take_chars(text, 80);
    push_str(&mut out, t.as_str());
    let ghost o1 = out@;
    proof { assert(o1 =~= "Hypothesis #"@ + dec_int(h.id as int) + " created: "@ + prefix(text@, 80)); }
    if let Some(f) = finding_id {
        match store.create_edge(NodeType::Finding, f, NodeType::Hypothesis, h.id, EdgeType::Supports) {
            Ok(_) => {
                push_str(&mut out, "\nAuto-created edge: Finding #");
                push_i64(&mut out, f);
                push_str(&mut out, " --Supports--> Hypothesis #");
                push_i64(&mut out, h.id);
                proof {
                    assert(out@ =~= o1 + ("\nAuto-created edge: Finding #"@ + dec_int(f as int) + " --Supports--> Hypothesis #"@ + dec_int(h.id as int)));
                }
            },
            Err(e) => {
                push_str(&mut out, "\nWarning: failed to create Supports edge from Finding #");
                push_i64(&mut out, f);
                push_str(&mut out, ": ");
                push_str(&mut out, error_str(e));
                proof {
                    assert(out@ =~= o1 + ("\nWarning: failed to create Supports edge from Finding #"@ + dec_int(f as int) + ": "@
                        + error_text(StoreError::Capacity)));
                }
            },
        }
    }
    out
}

} // verus!
