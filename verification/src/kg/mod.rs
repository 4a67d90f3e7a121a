//! The knowledge graph: single-hop and depth-bounded traversal from a node,
//! and the contradiction pairs recorded among findings.
pub mod traversal;

use vstd::prelude::*;
use crate::store::{Store, StoreView, Edge, EdgeType, NodeType, Finding, StoreError};
use crate::text::{dec_int, push_i64, push_str};
use crate::kg::traversal::{traverse_bfs, bfs_result, TraversalConfig, EdgeFilter, Subgraph, route, route_hop, hop, reached, key, keys};

verus! {

broadcast use vstd::seq_lib::group_seq_properties;

/// A node of the graph with a readable label.
#[derive(Debug)]
pub struct KgNode {
    pub node_type: NodeType,
    pub id: i64,
    pub label: String,
}

/// A node together with every edge that touches it.
#[derive(Debug)]
pub struct TraversalResult {
    pub root: KgNode,
    /// Each edge with the node at its other end.
    pub edges: Vec<(Edge, KgNode)>,
}

/// The label of a node: a finding's text (empty when the finding does not
/// exist), otherwise its type and id, as in "Phase #3".
pub open spec fn node_label(v: StoreView, nt: NodeType, id: i64) -> Seq<char> {
    if nt == NodeType::Finding {
        match v.finding(id) {
            Some(f) => f.text@,
            None => Seq::empty(),
        }
    } else {
        nt.spec_name() + " #"@ + dec_int(id as int)
    }
}

/// `n` is node (`nt`, `id`) with its label.
pub open spec fn is_node(v: StoreView, n: KgNode, nt: NodeType, id: i64) -> bool {
    n.node_type == nt && n.id == id && n.label@ == node_label(v, nt, id)
}

/// `entry` pairs edge `e` with its far end as seen from the root: the
/// source of an entering edge, the target of a leaving one.
pub open spec fn far_end(v: StoreView, entry: (Edge, KgNode), e: Edge, incoming: bool) -> bool {
    &&& entry.0 == e
    &&& if incoming {
        is_node(v, entry.1, e.source_type, e.source_id)
    } else {
        is_node(v, entry.1, e.target_type, e.target_id)
    }
}

/// `r` is the single-hop view of node (`nt`, `id`): the node, then every
/// edge leaving it, then every edge entering it, each in creation order.
pub open spec fn single_hop(v: StoreView, r: TraversalResult, nt: NodeType, id: i64) -> bool {
    let out = v.edges_from(nt, id);
    let inc = v.edges_to(nt, id);
    &&& is_node(v, r.root, nt, id)
    &&& r.edges@.len() == out.len() + inc.len()
    &&& forall|k: int| 0 <= k < out.len() ==> far_end(v, #[trigger] r.edges@[k], out[k], false)
    &&& forall|k: int| 0 <= k < inc.len() ==> far_end(v, #[trigger] r.edges@[out.len() + k], inc[k], true)
}

/// Some edge joins (`a`, `ai`) and (`b`, `bi`), in either direction.
pub open spec fn linked(v: StoreView, a: NodeType, ai: i64, b: NodeType, bi: i64) -> bool {
    ||| exists|k: int| 0 <= k < v.edges_from(a, ai).len() && #[trigger] v.edges_from(a, ai)[k].target_type == b
        && v.edges_from(a, ai)[k].target_id == bi
    ||| exists|k: int| 0 <= k < v.edges_to(a, ai).len() && #[trigger] v.edges_to(a, ai)[k].source_type == b
        && v.edges_to(a, ai)[k].source_id == bi
}

/// Step `i` of `p` follows an edge, in either direction.
pub open spec fn step(v: StoreView, p: Seq<(NodeType, i64)>, i: int) -> bool {
    linked(v, p[i].0, p[i].1, p[i + 1].0, p[i + 1].1)
}

/// `p` walks the graph, ignoring edge direction, from `a` to `b`.
pub open spec fn walk_between(v: StoreView, p: Seq<(NodeType, i64)>, a: (NodeType, i64), b: (NodeType, i64)) -> bool {
    &&& p.len() >= 1
    &&& p[0] == a
    &&& p.last() == b
    &&& forall|i: int| 0 <= i < p.len() - 1 ==> #[trigger] step(v, p, i)
}

/// Node `b` is at most `d` edges away from node `a`.
pub open spec fn within(v: StoreView, a: (NodeType, i64), b: (NodeType, i64), d: nat) -> bool {
    exists|p: Seq<(NodeType, i64)>| #[trigger] walk_between(v, p, a, b) && p.len() <= d + 1
}

/// Every node that the graph can name: `start` and both ends of every edge.
pub(crate) open spec fn endpoints(v: StoreView, start: (NodeType, i64)) -> Seq<(NodeType, i64)> {
    seq![start] + v.edges.map_values(|e: Edge| (e.source_type, e.source_id))
        + v.edges.map_values(|e: Edge| (e.target_type, e.target_id))
}

pub(crate) proof fn lemma_distinct_bound(s: Seq<(NodeType, i64)>, c: Seq<(NodeType, i64)>)
    requires
        s.no_duplicates(),
        forall|i: int| 0 <= i < s.len() ==> c.contains(#[trigger] s[i]),
    ensures
        s.len() <= c.len(),
{
    s.unique_seq_to_set();
    c.lemma_cardinality_of_set();
    assert(s.to_set().subset_of(c.to_set())) by {
        assert forall|x: (NodeType, i64)| s.to_set().contains(x) implies c.to_set().contains(x) by {
            let i = choose|i: int| 0 <= i < s.len() && s[i] == x;
            assert(c.contains(s[i]));
        }
    }
    vstd::set_lib::lemma_len_subset(s.to_set(), c.to_set());
}

/// The contradiction pairs that start at finding `f`: for each edge of `es`
/// whose relation is Contradicts and whose target is an existing finding,
/// the pair of `f` and that finding, in the order of `es`.
pub open spec fn contradictions_from(v: StoreView, f: Finding, es: Seq<Edge>) -> Seq<(Finding, Finding)>
    decreases es.len(),
{
    if es.len() == 0 {
        Seq::empty()
    } else {
        let rest = contradictions_from(v, f, es.drop_last());
        let e = es.last();
        match v.finding(e.target_id) {
            Some(t) => if e.relation == EdgeType::Contradicts && e.target_type == NodeType::Finding {
                rest.push((f, t))
            } else {
                rest
            },
            None => rest,
        }
    }
}

/// The contradiction pairs among `fs`: those of each finding, over the
/// edges that leave it, finding after finding.
pub open spec fn contradictions_among(v: StoreView, fs: Seq<Finding>) -> Seq<(Finding, Finding)>
    decreases fs.len(),
{
    if fs.len() == 0 {
        Seq::empty()
    } else {
        contradictions_among(v, fs.drop_last())
            + contradictions_from(v, fs.last(), v.edges_from(NodeType::Finding, fs.last().id))
    }
}

/// Edge `e` contradicts an existing finding: its relation is Contradicts
/// and its target is a finding of the store.
pub open spec fn contradicting(v: StoreView, e: Edge) -> bool {
    e.relation == EdgeType::Contradicts && e.target_type == NodeType::Finding && v.finding(e.target_id) is Some
}

/// Pair `x` is finding `f` with the finding that edge `e` targets.
pub open spec fn yields(v: StoreView, f: Finding, e: Edge, x: (Finding, Finding)) -> bool {
    x == (f, v.finding(e.target_id).unwrap())
}

/// Pair `x` comes from a contradicting edge of `es` leaving finding `f`.
pub open spec fn from_edge(v: StoreView, f: Finding, es: Seq<Edge>, x: (Finding, Finding)) -> bool {
    exists|k: int| 0 <= k < es.len() && contradicting(v, #[trigger] es[k]) && yields(v, f, es[k], x)
}

proof fn lemma_contradictions_from(v: StoreView, f: Finding, es: Seq<Edge>)
    ensures
        contradictions_from(v, f, es).len() == es.filter(|e: Edge| contradicting(v, e)).len(),
        forall|k: int| 0 <= k < es.len() && contradicting(v, #[trigger] es[k])
            ==> contradictions_from(v, f, es).contains((f, v.finding(es[k].target_id).unwrap())),
        forall|j: int| 0 <= j < contradictions_from(v, f, es).len()
            ==> from_edge(v, f, es, #[trigger] contradictions_from(v, f, es)[j]),
    decreases es.len(),
{
    reveal(Seq::filter);
    if es.len() > 0 {
        let d = es.drop_last();
        lemma_contradictions_from(v, f, d);
        let r = contradictions_from(v, f, d);
        let c = contradictions_from(v, f, es);
        let e = es.last();
        assert(es.filter(|e: Edge| contradicting(v, e)) == if contradicting(v, e) {
            d.filter(|e: Edge| contradicting(v, e)).push(e)
        } else {
            d.filter(|e: Edge| contradicting(v, e))
        });
        assert forall|k: int| 0 <= k < es.len() && contradicting(v, #[trigger] es[k])
            implies c.contains((f, v.finding(es[k].target_id).unwrap())) by {
            if k < es.len() - 1 {
                assert(d[k] == es[k]);
                let j = choose|j: int| 0 <= j < r.len() && yields(v, f, d[k], r[j]);
                assert(c[j] == r[j]);
            } else {
                assert(yields(v, f, es[k], c[c.len() - 1]));
            }
        }
        assert forall|j: int| 0 <= j < c.len() implies from_edge(v, f, es, #[trigger] c[j]) by {
            if j < r.len() {
                assert(c[j] == r[j]);
                assert(from_edge(v, f, d, r[j]));
                let k = choose|k: int| 0 <= k < d.len() && contradicting(v, #[trigger] d[k]) && yields(v, f, d[k], r[j]);
                assert(es[k] == d[k]);
                assert(contradicting(v, es[k]) && yields(v, f, es[k], c[j]));
            } else {
                assert(es[es.len() - 1] == e);
                assert(contradicting(v, es[es.len() - 1]));
                assert(c.len() == r.len() + 1);
                assert(yields(v, f, es[es.len() - 1], c[j]));
            }
        }
        assert(c == contradictions_from(v, f, es));
    } else {
        assert(contradictions_from(v, f, es).len() == 0);
    }
}

/// Pair `x` comes from a contradicting edge leaving one of the findings `fs`.
pub open spec fn from_listed(v: StoreView, fs: Seq<Finding>, x: (Finding, Finding)) -> bool {
    exists|i: int, k: int| 0 <= i < fs.len() && 0 <= k < v.edges_from(NodeType::Finding, fs[i].id).len()
        && contradicting(v, #[trigger] v.edges_from(NodeType::Finding, fs[i].id)[k])
        && yields(v, fs[i], v.edges_from(NodeType::Finding, fs[i].id)[k], x)
}

/// Every Contradicts edge that leaves a listed finding for an existing
/// finding yields that pair, each pair comes from such an edge, and a
/// finding has as many pairs as it has such edges.
pub proof fn law_every_contradiction_is_listed(v: StoreView, fs: Seq<Finding>)
    ensures
        forall|i: int, k: int| 0 <= i < fs.len() && 0 <= k < v.edges_from(NodeType::Finding, fs[i].id).len()
            && contradicting(v, #[trigger] v.edges_from(NodeType::Finding, fs[i].id)[k])
            ==> contradictions_among(v, fs).contains((fs[i], v.finding(v.edges_from(NodeType::Finding, fs[i].id)[k].target_id).unwrap())),
        forall|j: int| 0 <= j < contradictions_among(v, fs).len()
            ==> from_listed(v, fs, #[trigger] contradictions_among(v, fs)[j]),
        forall|f: Finding| #[trigger] contradictions_from(v, f, v.edges_from(NodeType::Finding, f.id)).len()
            == v.edges_from(NodeType::Finding, f.id).filter(|e: Edge| contradicting(v, e)).len(),
    decreases fs.len(),
{
    assert forall|f: Finding| #[trigger] contradictions_from(v, f, v.edges_from(NodeType::Finding, f.id)).len()
        == v.edges_from(NodeType::Finding, f.id).filter(|e: Edge| contradicting(v, e)).len() by {
        lemma_contradictions_from(v, f, v.edges_from(NodeType::Finding, f.id));
    }
    if fs.len() > 0 {
        let d = fs.drop_last();
        law_every_contradiction_is_listed(v, d);
        let f = fs.last();
        let es = v.edges_from(NodeType::Finding, f.id);
        lemma_contradictions_from(v, f, es);
        let a = contradictions_among(v, d);
        let b = contradictions_from(v, f, es);
        let c = contradictions_among(v, fs);
        assert(c == a + b);
        assert forall|i: int, k: int| 0 <= i < fs.len() && 0 <= k < v.edges_from(NodeType::Finding, fs[i].id).len()
            && contradicting(v, #[trigger] v.edges_from(NodeType::Finding, fs[i].id)[k])
            implies c.contains((fs[i], v.finding(v.edges_from(NodeType::Finding, fs[i].id)[k].target_id).unwrap())) by {
            let x = (fs[i], v.finding(v.edges_from(NodeType::Finding, fs[i].id)[k].target_id).unwrap());
            if i < fs.len() - 1 {
                assert(d[i] == fs[i]);
                let j = choose|j: int| 0 <= j < a.len() && a[j] == x;
                assert(c[j] == a[j]);
                assert(c.contains(x));
            } else {
                assert(es[k] == v.edges_from(NodeType::Finding, fs[i].id)[k]);
                let j = choose|j: int| 0 <= j < b.len() && b[j] == x;
                assert(c[a.len() + j] == b[j]);
                assert(c.contains(x));
            }
        }
        assert forall|j: int| 0 <= j < c.len() implies from_listed(v, fs, #[trigger] c[j]) by {
            if j < a.len() {
                assert(c[j] == a[j]);
                assert(from_listed(v, d, a[j]));
                let (i, k) = choose|i: int, k: int| 0 <= i < d.len()
                    && 0 <= k < v.edges_from(NodeType::Finding, d[i].id).len()
                    && contradicting(v, #[trigger] v.edges_from(NodeType::Finding, d[i].id)[k])
                    && yields(v, d[i], v.edges_from(NodeType::Finding, d[i].id)[k], a[j]);
                assert(fs[i] == d[i]);
                assert(contradicting(v, v.edges_from(NodeType::Finding, fs[i].id)[k]));
                assert(yields(v, fs[i], v.edges_from(NodeType::Finding, fs[i].id)[k], c[j]));
            } else {
                assert(c[j] == b[j - a.len()]);
                assert(from_edge(v, f, es, b[j - a.len()]));
                let k = choose|k: int| 0 <= k < es.len() && contradicting(v, #[trigger] es[k])
                    && yields(v, f, es[k], b[j - a.len()]);
                assert(fs[fs.len() - 1] == f);
                assert(contradicting(v, v.edges_from(NodeType::Finding, fs[fs.len() - 1].id)[k]));
                assert(yields(v, fs[fs.len() - 1], v.edges_from(NodeType::Finding, fs[fs.len() - 1].id)[k], c[j]));
            }
        }
    }
}

/// The label of node (`nt`, `id`).
fn label_of(store: &Store, nt: NodeType, id: i64) -> (s: String)
    requires
        store.wf(),
    ensures
        s@ == node_label(store@, nt, id),
{
    if nt == NodeType::Finding {
        match store.get_finding(id) {
            Ok(f) => f.text,
            Err(_) => String::new(),
        }
    } else {
        let mut s = String::new();
        push_str(&mut s, nt.name());
        push_str(&mut s, " #");
        push_i64(&mut s, id);
        proof { assert(Seq::<char>::empty() + nt.spec_name() + " #"@ + dec_int(id as int) =~= node_label(store@, nt, id)); }
        s
    }
}

/// A route that a traversal may follow is a walk of the graph.
proof fn lemma_route_walk(v: StoreView, c: TraversalConfig, p: Seq<(NodeType, i64)>, rs: Seq<EdgeType>,
    a: (NodeType, i64), b: (NodeType, i64))
    requires
        route(v, c, p, rs, a, b),
    ensures
        walk_between(v, p, a, b),
{
    assert forall|i: int| 0 <= i < p.len() - 1 implies #[trigger] step(v, p, i) by {
        assert(route_hop(v, c, p, rs, i));
        let x = p[i];
        let y = p[i + 1];
        if exists|k: int| 0 <= k < v.edges_from(x.0, x.1).len()
            && (#[trigger] v.edges_from(x.0, x.1)[k]).target_type == y.0
            && v.edges_from(x.0, x.1)[k].target_id == y.1 && v.edges_from(x.0, x.1)[k].relation == rs[i] {
            let k = choose|k: int| 0 <= k < v.edges_from(x.0, x.1).len()
                && (#[trigger] v.edges_from(x.0, x.1)[k]).target_type == y.0
                && v.edges_from(x.0, x.1)[k].target_id == y.1 && v.edges_from(x.0, x.1)[k].relation == rs[i];
            assert(v.edges_from(x.0, x.1)[k].target_type == y.0);
        } else {
            let k = choose|k: int| 0 <= k < v.edges_to(x.0, x.1).len()
                && (#[trigger] v.edges_to(x.0, x.1)[k]).source_type == y.0
                && v.edges_to(x.0, x.1)[k].source_id == y.1 && v.edges_to(x.0, x.1)[k].relation == rs[i];
            assert(v.edges_to(x.0, x.1)[k].source_type == y.0);
        }
    }
}

/// A walk of the graph is a route of an undirected traversal along every
/// relation.
proof fn lemma_walk_route(v: StoreView, c: TraversalConfig, p: Seq<(NodeType, i64)>, a: (NodeType, i64), b: (NodeType, i64))
        -> (rs: Seq<EdgeType>)
    requires
        walk_between(v, p, a, b),
        c.edge_filter is All,
        c.bidirectional,
    ensures
        rs.len() == p.len() - 1,
        route(v, c, p, rs, a, b),
{
    let rs = Seq::new((p.len() - 1) as nat, |i: int| choose|r: EdgeType| #[trigger] hop(v, c.edge_filter, c.bidirectional, p[i], p[i + 1], r));
    assert forall|i: int| 0 <= i < rs.len() implies #[trigger] route_hop(v, c, p, rs, i) by {
        assert(step(v, p, i));
        let x = p[i];
        let y = p[i + 1];
        if exists|k: int| 0 <= k < v.edges_from(x.0, x.1).len() && #[trigger] v.edges_from(x.0, x.1)[k].target_type == y.0
            && v.edges_from(x.0, x.1)[k].target_id == y.1 {
            let k = choose|k: int| 0 <= k < v.edges_from(x.0, x.1).len() && #[trigger] v.edges_from(x.0, x.1)[k].target_type == y.0
                && v.edges_from(x.0, x.1)[k].target_id == y.1;
            assert(hop(v, c.edge_filter, c.bidirectional, x, y, v.edges_from(x.0, x.1)[k].relation));
        } else {
            let k = choose|k: int| 0 <= k < v.edges_to(x.0, x.1).len() && #[trigger] v.edges_to(x.0, x.1)[k].source_type == y.0
                && v.edges_to(x.0, x.1)[k].source_id == y.1;
            assert(hop(v, c.edge_filter, c.bidirectional, x, y, v.edges_to(x.0, x.1)[k].relation));
        }
    }
    rs
}

/// Under an undirected traversal along every relation that keeps its
/// origin, every node within `d` edges of the origin is listed.
proof fn lemma_within_listed(v: StoreView, c: TraversalConfig, o: (NodeType, i64), sg: Subgraph, x: (NodeType, i64), d: usize)
    requires
        bfs_result(v, c, o, sg),
        c.edge_filter is All,
        c.bidirectional,
        c.include_origin,
        c.max_depth == d,
        within(v, o, x, d as nat),
    ensures
        keys(sg.nodes@).contains(x),
{
    let p = choose|p: Seq<(NodeType, i64)>| #[trigger] walk_between(v, p, o, x) && p.len() <= d + 1;
    let rs = lemma_walk_route(v, c, p, o, x);
    assert(route(v, c, p, rs, o, x));
    let ks = seq![o] + keys(sg.nodes@);
    assert(ks.contains(x));
    if x == o {
        assert(keys(sg.nodes@)[0] == o);
    } else {
        let j = choose|j: int| 0 <= j < ks.len() && ks[j] == x;
        assert(keys(sg.nodes@)[j - 1] == x);
    }
}

/// A listed node of a traversal along every relation lies within its
/// distance of the origin.
proof fn lemma_listed_within(v: StoreView, c: TraversalConfig, o: (NodeType, i64), sg: Subgraph, i: int)
    requires
        bfs_result(v, c, o, sg),
        0 <= i < sg.nodes@.len(),
    ensures
        within(v, o, key(sg.nodes@[i]), c.max_depth as nat),
{
    let n = sg.nodes@[i];
    assert(reached(v, c, o, n));
    let p = choose|p: Seq<(NodeType, i64)>| #[trigger] route(v, c, p, n.path_edge_types@, o, key(n));
    lemma_route_walk(v, c, p, n.path_edge_types@, o, key(n));
    assert(walk_between(v, p, o, key(n)) && p.len() <= c.max_depth + 1);
}

/// The knowledge-graph engine over a store.
pub struct KgEngine<'a> {
    store: &'a Store,
}

impl<'a> KgEngine<'a> {
    /// The store the engine reads.
    pub closed spec fn store_view(&self) -> StoreView {
        self.store@
    }

    /// Whether the store the engine reads is well formed.
    pub closed spec fn wf(&self) -> bool {
        self.store.wf()
    }

    pub fn new(store: &'a Store) -> (k: Self)
        requires
            store.wf(),
        ensures
            k.store_view() == store@,
            k.wf(),
    {
        Self { store }
    }

    /// Single-hop traversal: the node and every edge that touches it. A
    /// finding root must exist; other roots are labelled by type and id.
    pub fn traverse(&self, node_type: NodeType, node_id: i64) -> (res: crate::store::Result<TraversalResult>)
        requires
            self.wf(),
        ensures
            (res is Ok) == (node_type != NodeType::Finding || self.store_view().finding(node_id) is Some),
            res matches Ok(r) ==> single_hop(self.store_view(), r, node_type, node_id),
            res matches Err(e) ==> e == StoreError::NotFound,
    {
        let v = Ghost(self.store@);
        if node_type == NodeType::Finding {
            if let Err(e) = self.store.get_finding(node_id) {
                return Err(e);
            }
        }
        let label = label_of(self.store, node_type, node_id);
        let root = KgNode { node_type, id: node_id, label };
        let outgoing = match self.store.get_edges_from(node_type, node_id) {
            Ok(x) => x,
            Err(e) => return Err(e),
        };
        let incoming = match self.store.get_edges_to(node_type, node_id) {
            Ok(x) => x,
            Err(e) => return Err(e),
        };
        let mut edges: Vec<(Edge, KgNode)> = Vec::new();
        let mut k: usize = 0;
        while k < outgoing.len()
            invariant
                self.store.wf(),
                v@ == self.store@,
                outgoing@ == v@.edges_from(node_type, node_id),
                k <= outgoing@.len(),
                edges@.len() == k,
                forall|j: int| 0 <= j < k ==> far_end(v@, #[trigger] edges@[j], outgoing@[j], false),
            decreases outgoing@.len() - k,
        {
            let e = outgoing[k];
            let label = label_of(self.store, e.target_type, e.target_id);
            edges.push((e, KgNode { node_type: e.target_type, id: e.target_id, label }));
            k = k + 1;
        }
        let mut k: usize = 0;
        while k < incoming.len()
            invariant
                self.store.wf(),
                v@ == self.store@,
                outgoing@ == v@.edges_from(node_type, node_id),
                incoming@ == v@.edges_to(node_type, node_id),
                k <= incoming@.len(),
                edges@.len() == outgoing@.len() + k,
                forall|j: int| 0 <= j < outgoing@.len() ==> far_end(v@, #[trigger] edges@[j], outgoing@[j], false),
                forall|j: int| 0 <= j < k ==> far_end(v@, #[trigger] edges@[outgoing@.len() + j], incoming@[j], true),
            decreases incoming@.len() - k,
        {
            let e = incoming[k];
            let label = label_of(self.store, e.source_type, e.source_id);
            let ghost before = edges@;
            edges.push((e, KgNode { node_type: e.source_type, id: e.source_id, label }));
            proof {
                assert forall|j: int| 0 <= j < outgoing@.len() implies far_end(v@, #[trigger] edges@[j], outgoing@[j], false) by {
                    assert(edges@[j] == before[j]);
                }
                assert forall|j: int| 0 <= j < k + 1 implies far_end(v@, #[trigger] edges@[outgoing@.len() + j], incoming@[j], true) by {
                    if j < k {
                        assert(edges@[outgoing@.len() + j] == before[outgoing@.len() + j]);
                    }
                }
            }
            k = k + 1;
        }
        Ok(TraversalResult { root, edges })
    }

    /// Multi-hop traversal: a single-hop view of every node within
    /// `max_depth` edges of the start (edges followed in either direction),
    /// each node once, the start first, in breadth-first order. A finding
    /// that does not exist, once reached, stops the traversal with
    /// `NotFound`.
    pub fn traverse_deep(&self, node_type: NodeType, node_id: i64, max_depth: usize) -> (res: crate::store::Result<Vec<TraversalResult>>)
        requires
            self.wf(),
        ensures
            (res is Ok) <==> !exists|id: i64| #[trigger] within(self.store_view(), (node_type, node_id), (NodeType::Finding, id), max_depth as nat)
                && self.store_view().finding(id) is None,
            res matches Ok(rs) ==> {
                &&& rs@.len() >= 1
                &&& rs@[0].root.node_type == node_type && rs@[0].root.id == node_id
                &&& forall|k: int| 0 <= k < rs@.len() ==> {
                    &&& single_hop(self.store_view(), #[trigger] rs@[k], rs@[k].root.node_type, rs@[k].root.id)
                    &&& within(self.store_view(), (node_type, node_id), (rs@[k].root.node_type, rs@[k].root.id), max_depth as nat)
                }
                &&& forall|j: int, k: int| 0 <= j < k < rs@.len() ==>
                    (#[trigger] rs@[j].root.node_type, rs@[j].root.id) != (#[trigger] rs@[k].root.node_type, rs@[k].root.id)
                &&& forall|x: (NodeType, i64)| #[trigger] within(self.store_view(), (node_type, node_id), x, max_depth as nat)
                    ==> exists|k: int| 0 <= k < rs@.len() && (rs@[k].root.node_type, rs@[k].root.id) == x
            },
            res matches Err(e) ==> e == StoreError::NotFound,
    {
        let ghost v = self.store@;
        let ghost start = (node_type, node_id);
        let config = TraversalConfig { max_depth, edge_filter: EdgeFilter::All, bidirectional: true, include_origin: true };
        let sg = traverse_bfs(self.store, node_type, node_id, &config);
        let ghost ns = sg.nodes@;
        let mut results: Vec<TraversalResult> = Vec::new();
        let mut i: usize = 0;
        while i < sg.nodes.len()
            invariant
                self.store.wf(),
                v == self.store@,
                start == (node_type, node_id),
                config.max_depth == max_depth && config.edge_filter is All && config.bidirectional && config.include_origin,
                bfs_result(v, config, start, sg),
                ns == sg.nodes@,
                i <= ns.len(),
                results@.len() == i,
                forall|k: int| 0 <= k < i ==> {
                    &&& (#[trigger] results@[k]).root.node_type == ns[k].node_type
                    &&& results@[k].root.id == ns[k].node_id
                    &&& single_hop(v, results@[k], ns[k].node_type, ns[k].node_id)
                },
                forall|k: int| 0 <= k < i ==> (#[trigger] ns[k]).node_type != NodeType::Finding || v.finding(ns[k].node_id) is Some,
            decreases ns.len() - i,
        {
            let nt = sg.nodes[i].node_type;
            let nid = sg.nodes[i].node_id;
            let r = match self.traverse(nt, nid) {
                Ok(r) => r,
                Err(e) => {
                    proof {
                        lemma_listed_within(v, config, start, sg, i as int);
                        assert(within(v, start, (NodeType::Finding, nid), max_depth as nat));
                    }
                    return Err(e);
                },
            };
            results.push(r);
            i = i + 1;
        }
        proof {
            assert(ns.len() >= 1 && key(ns[0]) == start);
            assert forall|k: int| 0 <= k < results@.len() implies
                within(v, start, (results@[k].root.node_type, results@[k].root.id), max_depth as nat) by {
                lemma_listed_within(v, config, start, sg, k);
            }
            assert forall|j: int, k: int| 0 <= j < k < results@.len() implies
                (#[trigger] results@[j].root.node_type, results@[j].root.id) != (#[trigger] results@[k].root.node_type, results@[k].root.id) by {
                assert(keys(ns)[j] == key(ns[j]) && keys(ns)[k] == key(ns[k]));
            }
            assert forall|x: (NodeType, i64)| #[trigger] within(v, start, x, max_depth as nat)
                implies exists|k: int| 0 <= k < results@.len() && (results@[k].root.node_type, results@[k].root.id) == x by {
                lemma_within_listed(v, config, start, sg, x, max_depth);
                let k = choose|k: int| 0 <= k < keys(ns).len() && keys(ns)[k] == x;
                assert(key(ns[k]) == x);
                assert(results@[k].root.node_type == ns[k].node_type);
                assert((results@[k].root.node_type, results@[k].root.id) == x);
            }
            if exists|id: i64| #[trigger] within(v, start, (NodeType::Finding, id), max_depth as nat) && v.finding(id) is None {
                let id = choose|id: i64| #[trigger] within(v, start, (NodeType::Finding, id), max_depth as nat) && v.finding(id) is None;
                lemma_within_listed(v, config, start, sg, (NodeType::Finding, id), max_depth);
                let k = choose|k: int| 0 <= k < keys(ns).len() && keys(ns)[k] == (NodeType::Finding, id);
                assert(key(ns[k]) == (NodeType::Finding, id));
                assert(false);
            }
        }
        Ok(results)
    }

    /// The contradiction pairs among the given findings: for each finding,
    /// each Contradicts edge leaving it whose target id names a finding.
    pub fn find_contradictions(&self, project_findings: &[Finding]) -> (res: crate::store::Result<Vec<(Finding, Finding)>>)
        requires
            self.wf(),
        ensures
            res matches Ok(c) && c@ == contradictions_among(self.store_view(), project_findings@),
    {
        let ghost v = self.store@;
        let mut out: Vec<(Finding, Finding)> = Vec::new();
        let mut i: usize = 0;
        while i < project_findings.len()
            invariant
                self.store.wf(),
                v == self.store@,
                i <= project_findings@.len(),
                out@ == contradictions_among(v, project_findings@.take(i as int)),
            decreases project_findings@.len() - i,
        {
            let f = &project_findings[i];
            let edges = match self.store.get_edges_from(NodeType::Finding, f.id) {
                Ok(x) => x,
                Err(e) => { return Err(e); },
            };
            let ghost base = out@;
            let mut j: usize = 0;
            while j < edges.len()
                invariant
                    self.store.wf(),
                    v == self.store@,
                    edges@ == v.edges_from(NodeType::Finding, f.id),
                    j <= edges@.len(),
                    out@ == base + contradictions_from(v, *f, edges@.take(j as int)),
                decreases edges@.len() - j,
            {
                let edge = edges[j];
                proof {
                    assert(edges@.take(j + 1).drop_last() =~= edges@.take(j as int));
                }
                if edge.relation == EdgeType::Contradicts && edge.target_type == NodeType::Finding {
                    if let Ok(target) = self.store.get_finding(edge.target_id) {
                        out.push((f.dup(), target));
                    }
                } else {
                    proof {
                        if v.finding(edge.target_id) is Some {
                        }
                    }
                }
                j = j + 1;
            }
            proof {
                assert(edges@.take(j as int) =~= edges@);
                assert(project_findings@.take(i + 1).drop_last() =~= project_findings@.take(i as int));
            }
            i = i + 1;
        }
        proof { assert(project_findings@.take(i as int) =~= project_findings@); }
        Ok(out)
    }
}

} // verus!
