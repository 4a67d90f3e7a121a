//! Tools over the knowledge graph itself: adding a typed edge, and reading
//! the neighbourhood of a node.
use vstd::prelude::*;
use crate::text::{push_str, push_i64, dec_int, str_eq, prefix, take_chars};
use crate::store::{Store, StoreView, StoreError, Edge, NodeType, EdgeType, has_room, edge_exists, belief_word};
use crate::kg::{KgEngine, KgNode, TraversalResult, node_label, single_hop, far_end, is_node};
use crate::mcp::common::{error_text, error_str};

verus! {

broadcast use vstd::seq_lib::group_seq_properties;

/// The node type that a tool argument names, by its name or its short form.
pub open spec fn node_type_named(s: Seq<char>) -> Option<NodeType> {
    if s == "finding"@ || s == "f"@ { Some(NodeType::Finding) }
    else if s == "experiment"@ || s == "e"@ { Some(NodeType::Experiment) }
    else if s == "decision"@ || s == "d"@ { Some(NodeType::Decision) }
    else if s == "phase"@ || s == "p"@ { Some(NodeType::Phase) }
    else if s == "research"@ || s == "r"@ { Some(NodeType::Research) }
    else if s == "principle"@ || s == "pr"@ { Some(NodeType::Principle) }
    else if s == "hypothesis"@ || s == "h"@ { Some(NodeType::Hypothesis) }
    else if s == "constraint"@ || s == "co"@ { Some(NodeType::Constraint) }
    else if s == "literature"@ || s == "l"@ { Some(NodeType::Literature) }
    else if s == "feedback"@ || s == "fb"@ { Some(NodeType::Feedback) }
    else { None }
}

fn node_type_of(s: &str) -> (r: Option<NodeType>)
    ensures
        r == node_type_named(s@),
{
    if str_eq(s, "finding") || str_eq(s, "f") { Some(NodeType::Finding) }
    else if str_eq(s, "experiment") || str_eq(s, "e") { Some(NodeType::Experiment) }
    else if str_eq(s, "decision") || str_eq(s, "d") { Some(NodeType::Decision) }
    else if str_eq(s, "phase") || str_eq(s, "p") { Some(NodeType::Phase) }
    else if str_eq(s, "research") || str_eq(s, "r") { Some(NodeType::Research) }
    else if str_eq(s, "principle") || str_eq(s, "pr") { Some(NodeType::Principle) }
    else if str_eq(s, "hypothesis") || str_eq(s, "h") { Some(NodeType::Hypothesis) }
    else if str_eq(s, "constraint") || str_eq(s, "co") { Some(NodeType::Constraint) }
    else if str_eq(s, "literature") || str_eq(s, "l") { Some(NodeType::Literature) }
    else if str_eq(s, "feedback") || str_eq(s, "fb") { Some(NodeType::Feedback) }
    else { None }
}

/// The relation that a tool argument names.
pub open spec fn relation_named(s: Seq<char>) -> Option<EdgeType> {
    if s == "supports"@ { Some(EdgeType::Supports) }
    else if s == "contradicts"@ { Some(EdgeType::Contradicts) }
    else if s == "depends"@ { Some(EdgeType::DependsOn) }
    else if s == "informed"@ { Some(EdgeType::Informed) }
    else if s == "supersedes"@ { Some(EdgeType::Supersedes) }
    else if s == "related"@ { Some(EdgeType::RelatedTo) }
    else if s == "produced"@ { Some(EdgeType::ProducedBy) }
    else if s == "cited"@ { Some(EdgeType::CitedIn) }
    else if s == "contains"@ { Some(EdgeType::Contains) }
    else if s == "derived_from"@ { Some(EdgeType::DerivedFrom) }
    else if s == "tested_by"@ { Some(EdgeType::TestedBy) }
    else if s == "violated_by"@ { Some(EdgeType::ViolatedBy) }
    else { None }
}

/// The word by which the edge tools name relation `r`; the branching and
/// converging relations have none.
pub open spec fn relation_word(r: EdgeType) -> Option<Seq<char>> {
    match r {
        EdgeType::Supports => Some("supports"@),
        EdgeType::Contradicts => Some("contradicts"@),
        EdgeType::DependsOn => Some("depends"@),
        EdgeType::Informed => Some("informed"@),
        EdgeType::Supersedes => Some("supersedes"@),
        EdgeType::RelatedTo => Some("related"@),
        EdgeType::ProducedBy => Some("produced"@),
        EdgeType::CitedIn => Some("cited"@),
        EdgeType::Contains => Some("contains"@),
        EdgeType::DerivedFrom => Some("derived_from"@),
        EdgeType::TestedBy => Some("tested_by"@),
        EdgeType::ViolatedBy => Some("violated_by"@),
        EdgeType::BranchesFrom => None,
        EdgeType::ConvergesInto => None,
    }
}

/// Each relation's word names that relation, and a word that names a
/// relation is that relation's word: "contradicts" is Contradicts, never
/// another relation.
pub proof fn law_relation_words_name_their_relation(r: EdgeType, s: Seq<char>)
    ensures
        relation_word(r) matches Some(w) ==> relation_named(w) == Some(r),
        relation_named(s) matches Some(x) ==> relation_word(x) == Some(s),
{
    reveal_strlit("supports");
    reveal_strlit("contradicts");
    reveal_strlit("depends");
    reveal_strlit("informed");
    reveal_strlit("supersedes");
    reveal_strlit("related");
    reveal_strlit("produced");
    reveal_strlit("cited");
    reveal_strlit("contains");
    reveal_strlit("derived_from");
    reveal_strlit("tested_by");
    reveal_strlit("violated_by");
    assert("supports"@.len() != "contradicts"@.len());
    assert("supports"@.len() != "depends"@.len());
    assert("supports"@[0] != "informed"@[0]);
    assert("supports"@.len() != "supersedes"@.len());
    assert("supports"@.len() != "related"@.len());
    assert("supports"@[0] != "produced"@[0]);
    assert("supports"@.len() != "cited"@.len());
    assert("supports"@[0] != "contains"@[0]);
    assert("supports"@.len() != "derived_from"@.len());
    assert("supports"@.len() != "tested_by"@.len());
    assert("supports"@.len() != "violated_by"@.len());
    assert("contradicts"@.len() != "depends"@.len());
    assert("contradicts"@.len() != "informed"@.len());
    assert("contradicts"@.len() != "supersedes"@.len());
    assert("contradicts"@.len() != "related"@.len());
    assert("contradicts"@.len() != "produced"@.len());
    assert("contradicts"@.len() != "cited"@.len());
    assert("contradicts"@.len() != "contains"@.len());
    assert("contradicts"@.len() != "derived_from"@.len());
    assert("contradicts"@.len() != "tested_by"@.len());
    assert("contradicts"@[0] != "violated_by"@[0]);
    assert("depends"@.len() != "informed"@.len());
    assert("depends"@.len() != "supersedes"@.len());
    assert("depends"@[0] != "related"@[0]);
    assert("depends"@.len() != "produced"@.len());
    assert("depends"@.len() != "cited"@.len());
    assert("depends"@.len() != "contains"@.len());
    assert("depends"@.len() != "derived_from"@.len());
    assert("depends"@.len() != "tested_by"@.len());
    assert("depends"@.len() != "violated_by"@.len());
    assert("informed"@.len() != "supersedes"@.len());
    assert("informed"@.len() != "related"@.len());
    assert("informed"@[0] != "produced"@[0]);
    assert("informed"@.len() != "cited"@.len());
    assert("informed"@[0] != "contains"@[0]);
    assert("informed"@.len() != "derived_from"@.len());
    assert("informed"@.len() != "tested_by"@.len());
    assert("informed"@.len() != "violated_by"@.len());
    assert("supersedes"@.len() != "related"@.len());
    assert("supersedes"@.len() != "produced"@.len());
    assert("supersedes"@.len() != "cited"@.len());
    assert("supersedes"@.len() != "contains"@.len());
    assert("supersedes"@.len() != "derived_from"@.len());
    assert("supersedes"@.len() != "tested_by"@.len());
    assert("supersedes"@.len() != "violated_by"@.len());
    assert("related"@.len() != "produced"@.len());
    assert("related"@.len() != "cited"@.len());
    assert("related"@.len() != "contains"@.len());
    assert("related"@.len() != "derived_from"@.len());
    assert("related"@.len() != "tested_by"@.len());
    assert("related"@.len() != "violated_by"@.len());
    assert("produced"@.len() != "cited"@.len());
    assert("produced"@[0] != "contains"@[0]);
    assert("produced"@.len() != "derived_from"@.len());
    assert("produced"@.len() != "tested_by"@.len());
    assert("produced"@.len() != "violated_by"@.len());
    assert("cited"@.len() != "contains"@.len());
    assert("cited"@.len() != "derived_from"@.len());
    assert("cited"@.len() != "tested_by"@.len());
    assert("cited"@.len() != "violated_by"@.len());
    assert("contains"@.len() != "derived_from"@.len());
    assert("contains"@.len() != "tested_by"@.len());
    assert("contains"@.len() != "violated_by"@.len());
    assert("derived_from"@.len() != "tested_by"@.len());
    assert("derived_from"@.len() != "violated_by"@.len());
    assert("tested_by"@.len() != "violated_by"@.len());
}

fn relation_of(s: &str) -> (r: Option<EdgeType>)
    ensures
        r == relation_named(s@),
{
    if str_eq(s, "supports") { Some(EdgeType::Supports) }
    else if str_eq(s, "contradicts") { Some(EdgeType::Contradicts) }
    else if str_eq(s, "depends") { Some(EdgeType::DependsOn) }
    else if str_eq(s, "informed") { Some(EdgeType::Informed) }
    else if str_eq(s, "supersedes") { Some(EdgeType::Supersedes) }
    else if str_eq(s, "related") { Some(EdgeType::RelatedTo) }
    else if str_eq(s, "produced") { Some(EdgeType::ProducedBy) }
    else if str_eq(s, "cited") { Some(EdgeType::CitedIn) }
    else if str_eq(s, "contains") { Some(EdgeType::Contains) }
    else if str_eq(s, "derived_from") { Some(EdgeType::DerivedFrom) }
    else if str_eq(s, "tested_by") { Some(EdgeType::TestedBy) }
    else if str_eq(s, "violated_by") { Some(EdgeType::ViolatedBy) }
    else { None }
}

/// The line that reports edge `e`, added between the given ids.
pub open spec fn edge_added(e: Edge) -> Seq<char> {
    "Edge #"@ + dec_int(e.id as int) + " added: "@ + e.source_type.spec_name() + " #"@ + dec_int(e.source_id as int)
        + " --"@ + e.relation.spec_name() + "--> "@ + e.target_type.spec_name() + " #"@ + dec_int(e.target_id as int)
}

/// The answer to an edge that is already stored.
pub open spec fn duplicate_answer() -> Seq<char> {
    "\u{274c} CONSTRAINT ERROR: an edge with this source, target and relation already exists"@
}

/// What adding an edge answers and does: unknown node types and relations
/// are reported, and so is an edge that is already stored (there is at most
/// one edge per source, target and relation); otherwise the edge is added
/// (when the table has room).
pub open spec fn add_edge_result(v: StoreView, st: Seq<char>, si: i64, tt: Seq<char>, ti: i64, rel: Seq<char>) -> (StoreView, Seq<char>) {
    match node_type_named(st) {
        None => (v, "Unknown source type: "@ + st),
        Some(s) => match node_type_named(tt) {
            None => (v, "Unknown target type: "@ + tt),
            Some(t) => match relation_named(rel) {
                None => (v, "Unknown relation: "@ + rel),
                Some(r) => if edge_exists(v, s, si, t, ti, r) {
                    (v, duplicate_answer())
                } else if has_room(v.edges.len()) {
                    let e = Edge { id: (v.edges.len() + 1) as i64, source_type: s, source_id: si, target_type: t, target_id: ti, relation: r };
                    (v.with_edges(v.edges.push(e)), edge_added(e))
                } else {
                    (v, "Error: "@ + error_text(StoreError::Capacity))
                },
            },
        },
    }
}

/// Adds a typed edge between two nodes named by type and id.
pub fn tool_add_edge(store: &mut Store, st: &str, si: i64, tt: &str, ti: i64, rel: &str) -> (out: String)
    requires
        old(store).wf(),
    ensures
        final(store).wf(),
        (final(store)@, out@) == add_edge_result(old(store)@, st@, si, tt@, ti, rel@),
{
    let mut out = String::new();
    let source_type = match node_type_of(st) {
        Some(x) => x,
        None => {
            push_str(&mut out, "Unknown source type: ");
            push_str(&mut out, st);
            return out;
        },
    };
    let target_type = match node_type_of(tt) {
        Some(x) => x,
        None => {
            push_str(&mut out, "Unknown target type: ");
            push_str(&mut out, tt);
            return out;
        },
    };
    let relation = match relation_of(rel) {
        Some(x) => x,
        None => {
            push_str(&mut out, "Unknown relation: ");
            push_str(&mut out, rel);
            return out;
        },
    };
    if store.has_edge(source_type, si, target_type, ti, relation) {
        push_str(&mut out, "\u{274c} CONSTRAINT ERROR: an edge with this source, target and relation already exists");
        return out;
    }
    match store.create_edge(source_type, si, target_type, ti, relation) {
        Ok(e) => {
            push_str(&mut out, "Edge #");
            push_i64(&mut out, e.id);
            push_str(&mut out, " added: ");
            push_str(&mut out, e.source_type.name());
            push_str(&mut out, " #");
            push_i64(&mut out, si);
            push_str(&mut out, " --");
            push_str(&mut out, e.relation.name());
            push_str(&mut out, "--> ");
            push_str(&mut out, e.target_type.name());
            push_str(&mut out, " #");
            push_i64(&mut out, ti);
            proof {
                assert(out@ =~= edge_added(e));
            }
            out
        },
        Err(e) => {
            push_str(&mut out, "Error: ");
            push_str(&mut out, error_str(e));
            out
        },
    }
}

/// The node types that the traversal tool accepts.
pub open spec fn traversable_named(s: Seq<char>) -> Option<NodeType> {
    match node_type_named(s) {
        Some(t) => if t == NodeType::Finding || t == NodeType::Experiment || t == NodeType::Decision || t == NodeType::Phase
            || t == NodeType::Research || t == NodeType::Principle { Some(t) } else { None },
        None => None,
    }
}

/// One line per edge leaving the root: relation, then the node it reaches.
pub open spec fn out_lines(v: StoreView, es: Seq<Edge>) -> Seq<char>
    decreases es.len(),
{
    if es.len() == 0 {
        Seq::empty()
    } else {
        let e = es.last();
        out_lines(v, es.drop_last()) + "  --"@ + e.relation.spec_name() + "--> "@ + e.target_type.spec_name() + " #"@
            + dec_int(e.target_id as int) + ": "@ + prefix(node_label(v, e.target_type, e.target_id), 80) + "\n"@
    }
}

/// One line per edge entering the root: relation, then the node it comes from.
pub open spec fn in_lines(v: StoreView, es: Seq<Edge>) -> Seq<char>
    decreases es.len(),
{
    if es.len() == 0 {
        Seq::empty()
    } else {
        let e = es.last();
        in_lines(v, es.drop_last()) + "  <--"@ + e.relation.spec_name() + "-- "@ + e.source_type.spec_name() + " #"@
            + dec_int(e.source_id as int) + ": "@ + prefix(node_label(v, e.source_type, e.source_id), 80) + "\n"@
    }
}

/// The answer of the traversal tool for node (`t`, `id`): its label, then
/// each edge leaving it and each edge entering it, labels cut to 100 and 80
/// characters.
pub open spec fn traverse_text(v: StoreView, t: NodeType, id: i64) -> Seq<char> {
    "ROOT: "@ + t.spec_name() + " #"@ + dec_int(id as int) + ": "@ + prefix(node_label(v, t, id), 100) + "\n"@
        + out_lines(v, v.edges_from(t, id)) + in_lines(v, v.edges_to(t, id))
}

/// Appends one hop line: an arrow with the relation, then the node at the
/// far end with its label cut to 80 characters.
fn push_hop_line(out: &mut String, head: &str, rel: EdgeType, mid: &str, nt: NodeType, id: i64, label: &str)
    ensures
        final(out)@ == old(out)@ + head@ + rel.spec_name() + mid@ + nt.spec_name() + " #"@ + dec_int(id as int) + ": "@
            + prefix(label@, 80) + "\n"@,
{
    push_str(out, head);
    push_str(out, rel.name());
    push_str(out, mid);
    push_str(out, nt.name());
    push_str(out, " #");
    push_i64(out, id);
    push_str(out, ": ");
    let l = take_chars(label, 80);
    push_str(out, l.as_str());
    push_str(out, "\n");
    proof {
        assert(final(out)@ =~= old(out)@ + head@ + rel.spec_name() + mid@ + nt.spec_name() + " #"@ + dec_int(id as int)
            + ": "@ + prefix(label@, 80) + "\n"@);
    }
}

/// Shows a node and every edge that touches it.
#[verifier::rlimit(100)]
#[verifier::spinoff_prover]
pub fn tool_kg_traverse(store: &Store, nt_str: &str, nid: i64) -> (out: String)
    requires
        store.wf(),
    ensures
        traversable_named(nt_str@) is None ==> out@ == "Unknown node type: "@ + nt_str@,
        traversable_named(nt_str@) matches Some(t) ==> {
            if t == NodeType::Finding && store@.finding(nid) is None {
                out@ == "Error: "@ + error_text(StoreError::NotFound)
            } else {
                out@ == traverse_text(store@, t, nid)
            }
        },
{
    let mut out = String::new();
    let nt = match node_type_of(nt_str) {
        Some(t) => t,
        None => {
            push_str(&mut out, "Unknown node type: ");
            push_str(&mut out, nt_str);
            return out;
        },
    };
    if !(nt == NodeType::Finding || nt == NodeType::Experiment || nt == NodeType::Decision || nt == NodeType::Phase
        || nt == NodeType::Research || nt == NodeType::Principle) {
        push_str(&mut out, "Unknown node type: ");
        push_str(&mut out, nt_str);
        return out;
    }
    let kg = KgEngine::new(store);
    let result = match kg.traverse(nt, nid) {
        Ok(r) => r,
        Err(e) => {
            push_str(&mut out, "Error: ");
            push_str(&mut out, error_str(e));
            return out;
        },
    };
    let ghost v = store@;
    let n_out = match store.get_edges_from(nt, nid) {
        Ok(x) => x.len(),
        Err(_) => 0,
    };
    let ghost outs = v.edges_from(nt, nid);
    let ghost ins = v.edges_to(nt, nid);
    push_str(&mut out, "ROOT: ");
    push_str(&mut out, result.root.node_type.name());
    push_str(&mut out, " #");
    push_i64(&mut out, result.root.id);
    push_str(&mut out, ": ");
    let l = take_chars(result.root.label.as_str(), 100);
    push_str(&mut out, l.as_str());
    push_str(&mut out, "\n");
    let ghost base = out@;
    let mut k: usize = 0;
    while k < n_out
        invariant
            single_hop(v, result, nt, nid),
            n_out == outs.len(),
            outs == v.edges_from(nt, nid),
            k <= n_out,
            out@ == base + out_lines(v, outs.take(k as int)),
        decreases n_out - k,
    {
        proof {
            assert(far_end(v, result.edges@[k as int], outs[k as int], false));
        }
        let e = result.edges[k].0;
        let node = &result.edges[k].1;
        push_hop_line(&mut out, "  --", e.relation, "--> ", node.node_type, node.id, node.label.as_str());
        proof {
            assert(outs.take(k + 1).drop_last() =~= outs.take(k as int));
            assert(out@ =~= base + out_lines(v, outs.take(k + 1)));
        }
        k = k + 1;
    }
    proof {
        assert(outs.take(k as int) =~= outs);
    }
    let ghost base2 = out@;
    let total = result.edges.len();
    let mut k2: usize = n_out;
    while k2 < total
        invariant
            single_hop(v, result, nt, nid),
            n_out == outs.len(),
            outs == v.edges_from(nt, nid),
            ins == v.edges_to(nt, nid),
            total == result.edges@.len(),
            total == n_out + ins.len(),
            n_out <= k2 <= total,
            out@ == base2 + in_lines(v, ins.take(k2 - n_out)),
        decreases total - k2,
    {
        let j: usize = k2 - n_out;
        proof {
            assert(far_end(v, result.edges@[outs.len() + j], ins[j as int], true));
        }
        let e = result.edges[k2].0;
        let node = &result.edges[k2].1;
        push_hop_line(&mut out, "  <--", e.relation, "-- ", node.node_type, node.id, node.label.as_str());
        proof {
            assert(ins.take(j + 1).drop_last() =~= ins.take(j as int));
            assert(out@ =~= base2 + in_lines(v, ins.take(j + 1)));
        }
        k2 = k2 + 1;
    }
    proof {
        assert(ins.take(k2 - n_out) =~= ins);
        assert(out@ =~= traverse_text(v, nt, nid));
    }
    out
}

/// The name a node type argument stands for: the five evidence-bearing
/// types by their name, capitalised name or short form.
pub open spec fn belief_type_named(s: Seq<char>) -> Option<(NodeType, Seq<char>)> {
    if s == "finding"@ || s == "f"@ || s == "Finding"@ { Some((NodeType::Finding, "Finding"@)) }
    else if s == "decision"@ || s == "d"@ || s == "Decision"@ { Some((NodeType::Decision, "Decision"@)) }
    else if s == "hypothesis"@ || s == "h"@ || s == "Hypothesis"@ { Some((NodeType::Hypothesis, "Hypothesis"@)) }
    else if s == "principle"@ || s == "pr"@ || s == "Principle"@ { Some((NodeType::Principle, "Principle"@)) }
    else if s == "constraint"@ || s == "co"@ || s == "Constraint"@ { Some((NodeType::Constraint, "Constraint"@)) }
    else { None }
}

fn belief_type_of(s: &str) -> (r: Option<(NodeType, &'static str)>)
    ensures
        match r {
            Some(x) => belief_type_named(s@) == Some((x.0, x.1@)),
            None => belief_type_named(s@) is None,
        },
{
    if str_eq(s, "finding") || str_eq(s, "f") || str_eq(s, "Finding") { Some((NodeType::Finding, "Finding")) }
    else if str_eq(s, "decision") || str_eq(s, "d") || str_eq(s, "Decision") { Some((NodeType::Decision, "Decision")) }
    else if str_eq(s, "hypothesis") || str_eq(s, "h") || str_eq(s, "Hypothesis") { Some((NodeType::Hypothesis, "Hypothesis")) }
    else if str_eq(s, "principle") || str_eq(s, "pr") || str_eq(s, "Principle") { Some((NodeType::Principle, "Principle")) }
    else if str_eq(s, "constraint") || str_eq(s, "co") || str_eq(s, "Constraint") { Some((NodeType::Constraint, "Constraint")) }
    else { None }
}

/// Setting a belief status in store `v` made store `w` and answered `out`:
/// a node type other than the five evidence-bearing ones, or a status
/// other than believed, suspended or retracted, is refused as an invalid
/// request; a node that does not exist as not found; otherwise the status
/// is recorded for the node and the answer names it.
pub open spec fn belief_set(v: StoreView, w: StoreView, out: Seq<char>, node_type: Seq<char>, id: i64, status: Seq<char>) -> bool {
    match belief_type_named(node_type) {
        None => w == v && out == "Error: "@ + error_text(StoreError::Invalid),
        Some((nt, name)) => if !belief_word(status) {
            w == v && out == "Error: "@ + error_text(StoreError::Invalid)
        } else if !v.holds_belief(nt, id) {
            w == v && out == "Error: "@ + error_text(StoreError::NotFound)
        } else {
            &&& w.beliefs.drop_last() == v.beliefs
            &&& w.beliefs.len() == v.beliefs.len() + 1
            &&& w == (StoreView { beliefs: w.beliefs, ..v })
            &&& w.belief(nt, id) == Some(status)
            &&& out == "Belief status updated: "@ + name + " #"@ + dec_int(id as int) + " = "@ + status
        },
    }
}

/// Sets the belief status (believed, suspended or retracted) of a finding,
/// decision, hypothesis, principle or constraint; see `belief_set`.
pub fn tool_set_belief(store: &mut Store, node_type: &str, node_id: i64, status: &str) -> (out: String)
    requires
        old(store).wf(),
    ensures
        final(store).wf(),
        belief_set(old(store)@, final(store)@, out@, node_type@, node_id, status@),
{
    let mut out = String::new();
    let (nt, name) = match belief_type_of(node_type) {
        Some(x) => x,
        None => {
            push_str(&mut out, "Error: ");
            push_str(&mut out, error_str(StoreError::Invalid));
            return out;
        },
    };
    match store.update_belief_status(nt, node_id, status) {
        Ok(()) => {
            push_str(&mut out, "Belief status updated: ");
            push_str(&mut out, name);
            push_str(&mut out, " #");
            push_i64(&mut out, node_id);
            push_str(&mut out, " = ");
            push_str(&mut out, status);
            proof {
                let w = store@;
                assert(w.beliefs.last().node_type == nt && w.beliefs.last().node_id == node_id);
                assert(w.belief(nt, node_id) == Some(status@));
            }
            out
        },
        Err(e) => {
            push_str(&mut out, "Error: ");
            push_str(&mut out, error_str(e));
            out
        },
    }
}

} // verus!
