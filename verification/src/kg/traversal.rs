//! Breadth-first traversal of the knowledge graph with depth bounds, edge
//! filters and distance metadata, and the subgraph queries built on it.
use vstd::prelude::*;
use std::collections::HashMap;
use crate::store::{Store, StoreView, Edge, EdgeType, NodeType, edge_from, edge_to};
use crate::kg::{endpoints, lemma_distinct_bound};

verus! {

broadcast use vstd::seq_lib::group_seq_properties;

/// A node reached by a traversal, with its hop count from the origin and
/// the relations of the edges followed to reach it.
#[derive(Debug)]
pub struct ProximityNode {
    pub node_type: NodeType,
    pub node_id: i64,
    pub distance: usize,
    pub path_edge_types: Vec<EdgeType>,
}

/// The nodes and edges that a traversal collected around an origin.
#[derive(Debug)]
pub struct Subgraph {
    pub origin: (NodeType, i64),
    pub nodes: Vec<ProximityNode>,
    pub edges: Vec<Edge>,
}

/// Which relations a traversal may follow.
#[derive(Debug, Clone)]
pub enum EdgeFilter {
    /// Every relation.
    All,
    /// Only the listed relations.
    Only(Vec<EdgeType>),
    /// Every relation but the listed ones.
    Except(Vec<EdgeType>),
}

impl EdgeFilter {
    /// Whether the filter lets a traversal follow relation `t`.
    pub open spec fn permits(self, t: EdgeType) -> bool {
        match self {
            EdgeFilter::All => true,
            EdgeFilter::Only(a) => a@.contains(t),
            EdgeFilter::Except(a) => !a@.contains(t),
        }
    }

    fn allows(&self, edge_type: &EdgeType) -> (b: bool)
        ensures
            b == self.permits(*edge_type),
    {
        match self {
            EdgeFilter::All => true,
            EdgeFilter::Only(allowed) => has_relation(allowed, *edge_type),
            EdgeFilter::Except(excluded) => !has_relation(excluded, *edge_type),
        }
    }
}

fn has_relation(list: &Vec<EdgeType>, t: EdgeType) -> (b: bool)
    ensures
        b == list@.contains(t),
{
    let mut i: usize = 0;
    while i < list.len()
        invariant
            i <= list@.len(),
            forall|j: int| 0 <= j < i ==> list@[j] != t,
        decreases list@.len() - i,
    {
        if list[i] == t {
            return true;
        }
        i = i + 1;
    }
    false
}

/// How far and along which edges a traversal goes.
#[derive(Debug, Clone)]
pub struct TraversalConfig {
    pub max_depth: usize,
    pub edge_filter: EdgeFilter,
    /// Follow edges against their direction too.
    pub bidirectional: bool,
    /// List the starting node among the results.
    pub include_origin: bool,
}

impl Default for TraversalConfig {
    /// Three hops, every relation, both directions, origin included.
    fn default() -> (c: Self)
        ensures
            c.max_depth == 3,
            c.edge_filter is All,
            c.bidirectional,
            c.include_origin,
    {
        TraversalConfig { max_depth: 3, edge_filter: EdgeFilter::All, bidirectional: true, include_origin: true }
    }
}

/// The node that a proximity node stands for.
pub open spec fn key(n: ProximityNode) -> (NodeType, i64) {
    (n.node_type, n.node_id)
}

/// The nodes that a sequence of proximity nodes stands for.
pub open spec fn keys(ns: Seq<ProximityNode>) -> Seq<(NodeType, i64)> {
    ns.map_values(|n: ProximityNode| key(n))
}

/// One hop: an edge of relation `r` that filter `f` permits, from `a` to
/// `b`, or, when `both` holds, from `b` to `a`.
pub open spec fn hop(v: StoreView, f: EdgeFilter, both: bool, a: (NodeType, i64), b: (NodeType, i64), r: EdgeType) -> bool {
    &&& f.permits(r)
    &&& {
        ||| exists|k: int| 0 <= k < v.edges_from(a.0, a.1).len()
            && (#[trigger] v.edges_from(a.0, a.1)[k]).target_type == b.0
            && v.edges_from(a.0, a.1)[k].target_id == b.1 && v.edges_from(a.0, a.1)[k].relation == r
        ||| both && exists|k: int| 0 <= k < v.edges_to(a.0, a.1).len()
            && (#[trigger] v.edges_to(a.0, a.1)[k]).source_type == b.0
            && v.edges_to(a.0, a.1)[k].source_id == b.1 && v.edges_to(a.0, a.1)[k].relation == r
    }
}

/// Hop `i` of route `p` over relations `rs`.
pub open spec fn route_hop(v: StoreView, c: TraversalConfig, p: Seq<(NodeType, i64)>, rs: Seq<EdgeType>, i: int) -> bool {
    hop(v, c.edge_filter, c.bidirectional, p[i], p[i + 1], rs[i])
}

/// `p` leads from `a` to `b` by hops that `c` allows, over relations `rs`.
pub open spec fn route(v: StoreView, c: TraversalConfig, p: Seq<(NodeType, i64)>, rs: Seq<EdgeType>, a: (NodeType, i64), b: (NodeType, i64)) -> bool {
    &&& p.len() == rs.len() + 1
    &&& p[0] == a
    &&& p.last() == b
    &&& forall|i: int| 0 <= i < rs.len() ==> #[trigger] route_hop(v, c, p, rs, i)
}

/// `n` lies `n.distance` allowed hops from `o`, along the relations that it
/// records.
pub open spec fn reached(v: StoreView, c: TraversalConfig, o: (NodeType, i64), n: ProximityNode) -> bool {
    &&& n.path_edge_types@.len() == n.distance
    &&& exists|p: Seq<(NodeType, i64)>| #[trigger] route(v, c, p, n.path_edge_types@, o, key(n))
}

/// Every edge that `c` lets a traversal follow out of node `a` is in `es`,
/// with its far end in `ks`.
pub open spec fn closed_at(v: StoreView, c: TraversalConfig, ks: Seq<(NodeType, i64)>, es: Seq<Edge>, a: (NodeType, i64)) -> bool {
    &&& forall|k: int| 0 <= k < v.edges_from(a.0, a.1).len() && c.edge_filter.permits(#[trigger] v.edges_from(a.0, a.1)[k].relation)
        ==> ks.contains((v.edges_from(a.0, a.1)[k].target_type, v.edges_from(a.0, a.1)[k].target_id))
            && es.contains(v.edges_from(a.0, a.1)[k])
    &&& c.bidirectional ==> forall|k: int| 0 <= k < v.edges_to(a.0, a.1).len() && c.edge_filter.permits(#[trigger] v.edges_to(a.0, a.1)[k].relation)
        ==> ks.contains((v.edges_to(a.0, a.1)[k].source_type, v.edges_to(a.0, a.1)[k].source_id))
            && es.contains(v.edges_to(a.0, a.1)[k])
}

/// Some node of `q` stands for `x` at distance at most `d`.
pub open spec fn listed_within(q: Seq<ProximityNode>, x: (NodeType, i64), d: int) -> bool {
    exists|i: int| 0 <= i < q.len() && key(#[trigger] q[i]) == x && q[i].distance <= d
}

/// Every edge that `c` lets a traversal follow out of node `a`, lying `d`
/// hops out, is in `es`, with its far end listed in `q` at most `d + 1`
/// hops out.
pub open spec fn closed_near(v: StoreView, c: TraversalConfig, q: Seq<ProximityNode>, es: Seq<Edge>, a: (NodeType, i64), d: int) -> bool {
    &&& forall|k: int| 0 <= k < v.edges_from(a.0, a.1).len() && c.edge_filter.permits(#[trigger] v.edges_from(a.0, a.1)[k].relation)
        ==> listed_within(q, (v.edges_from(a.0, a.1)[k].target_type, v.edges_from(a.0, a.1)[k].target_id), d + 1)
            && es.contains(v.edges_from(a.0, a.1)[k])
    &&& c.bidirectional ==> forall|k: int| 0 <= k < v.edges_to(a.0, a.1).len() && c.edge_filter.permits(#[trigger] v.edges_to(a.0, a.1)[k].relation)
        ==> listed_within(q, (v.edges_to(a.0, a.1)[k].source_type, v.edges_to(a.0, a.1)[k].source_id), d + 1)
            && es.contains(v.edges_to(a.0, a.1)[k])
}

/// Node `x` lies fewer than `c.max_depth` hops from `o`: it is `o` (with a
/// positive depth limit) or a node of `ns` that close.
pub open spec fn near(c: TraversalConfig, o: (NodeType, i64), ns: Seq<ProximityNode>, x: (NodeType, i64)) -> bool {
    ||| x == o && 0 < c.max_depth
    ||| exists|i: int| 0 <= i < ns.len() && key(#[trigger] ns[i]) == x && ns[i].distance < c.max_depth
}

/// Some node of `q` fewer than `m` hops out is an end of edge `e`.
pub open spec fn near_edge(q: Seq<ProximityNode>, m: usize, e: Edge) -> bool {
    exists|i: int| 0 <= i < q.len() && (#[trigger] q[i]).distance < m
        && (key(q[i]) == (e.source_type, e.source_id) || key(q[i]) == (e.target_type, e.target_id))
}

/// `sg` is what a breadth-first traversal from `o` under `c` collects:
/// - the origin is `o`, listed first with distance 0 exactly when `c` asks;
/// - no node is listed twice, and each lies `distance` allowed hops from
///   `o` along the relations it records, with `distance` at most
///   `c.max_depth`;
/// - every node less than `c.max_depth` hops out (the origin among them)
///   has every edge that `c` allows out of it collected, with its far end
///   listed (or the origin);
/// - the edges are distinct store edges that `c` allows, with both ends
///   listed (or the origin), and one end fewer than `c.max_depth` hops out;
/// - each node's distance is its shortest: no allowed route from `o` to it
///   is shorter;
/// - every node that some allowed route of at most `c.max_depth` hops
///   reaches from `o` is listed (or is the origin).
pub open spec fn bfs_result(v: StoreView, c: TraversalConfig, o: (NodeType, i64), sg: Subgraph) -> bool {
    let ns = sg.nodes@;
    let es = sg.edges@;
    let ks = seq![o] + keys(ns);
    &&& sg.origin == o
    &&& c.include_origin ==> ns.len() >= 1 && key(ns[0]) == o && ns[0].distance == 0
    &&& !c.include_origin ==> !keys(ns).contains(o)
    &&& keys(ns).no_duplicates()
    &&& forall|i: int| 0 <= i < ns.len() ==> reached(v, c, o, #[trigger] ns[i]) && ns[i].distance <= c.max_depth
    &&& 0 < c.max_depth ==> closed_at(v, c, ks, es, o)
    &&& forall|i: int| 0 <= i < ns.len() && (#[trigger] ns[i]).distance < c.max_depth ==> closed_at(v, c, ks, es, key(ns[i]))
    &&& forall|j: int| 0 <= j < es.len() ==> {
        &&& v.edges.contains(#[trigger] es[j])
        &&& c.edge_filter.permits(es[j].relation)
        &&& ks.contains((es[j].source_type, es[j].source_id))
        &&& ks.contains((es[j].target_type, es[j].target_id))
        &&& near(c, o, ns, (es[j].source_type, es[j].source_id)) || near(c, o, ns, (es[j].target_type, es[j].target_id))
    }
    &&& forall|i: int, j: int| 0 <= i < j < es.len() ==> (#[trigger] es[i]).id != (#[trigger] es[j]).id
    &&& forall|i: int, p: Seq<(NodeType, i64)>, rs: Seq<EdgeType>|
        0 <= i < ns.len() && #[trigger] route(v, c, p, rs, o, key(ns[i])) ==> ns[i].distance <= rs.len()
    &&& forall|p: Seq<(NodeType, i64)>, rs: Seq<EdgeType>, x: (NodeType, i64)|
        #[trigger] route(v, c, p, rs, o, x) && rs.len() <= c.max_depth ==> ks.contains(x)
}

proof fn lemma_route_step(v: StoreView, c: TraversalConfig, o: (NodeType, i64), n: ProximityNode, m: ProximityNode)
    requires
        reached(v, c, o, n),
        m.distance == n.distance + 1,
        m.path_edge_types@ == n.path_edge_types@.push(m.path_edge_types@.last()),
        hop(v, c.edge_filter, c.bidirectional, key(n), key(m), m.path_edge_types@.last()),
    ensures
        reached(v, c, o, m),
{
    let rs = n.path_edge_types@;
    let p = choose|p: Seq<(NodeType, i64)>| #[trigger] route(v, c, p, rs, o, key(n));
    let q = p.push(key(m));
    let qs = m.path_edge_types@;
    assert forall|i: int| 0 <= i < qs.len() implies #[trigger] route_hop(v, c, q, qs, i) by {
        if i < rs.len() {
            assert(route_hop(v, c, p, rs, i));
            assert(q[i] == p[i] && q[i + 1] == p[i + 1] && qs[i] == rs[i]);
        }
    }
    assert(route(v, c, q, qs, o, key(m)));
}

proof fn lemma_same_id(v: StoreView, a: Edge, b: Edge)
    requires
        v.wf(),
        v.edges.contains(a),
        v.edges.contains(b),
        a.id == b.id,
    ensures
        a == b,
{
    let i = choose|i: int| 0 <= i < v.edges.len() && v.edges[i] == a;
    let j = choose|j: int| 0 <= j < v.edges.len() && v.edges[j] == b;
    assert(v.edges[i].id == i + 1 && v.edges[j].id == j + 1);
}

proof fn lemma_endpoint_cands(v: StoreView, o: (NodeType, i64), e: Edge)
    requires
        v.edges.contains(e),
    ensures
        endpoints(v, o).contains((e.source_type, e.source_id)),
        endpoints(v, o).contains((e.target_type, e.target_id)),
{
    let n = v.edges.len();
    let i = choose|i: int| 0 <= i < n && v.edges[i] == e;
    assert(endpoints(v, o)[1 + i] == (e.source_type, e.source_id));
    assert(endpoints(v, o)[1 + n + i] == (e.target_type, e.target_id));
}

fn copy_path(p: &Vec<EdgeType>) -> (r: Vec<EdgeType>)
    ensures
        r@ == p@,
{
    let mut r: Vec<EdgeType> = Vec::new();
    let mut i: usize = 0;
    while i < p.len()
        invariant
            i <= p@.len(),
            r@ == p@.take(i as int),
        decreases p@.len() - i,
    {
        proof { assert(p@.take(i + 1) =~= p@.take(i as int).push(p@[i as int])); }
        r.push(p[i]);
        i = i + 1;
    }
    proof { assert(p@.take(i as int) =~= p@); }
    r
}

fn find_edge_id(es: &Vec<Edge>, id: i64) -> (r: Option<usize>)
    ensures
        r matches Some(j) ==> j < es@.len() && es@[j as int].id == id,
        r is None ==> forall|j: int| 0 <= j < es@.len() ==> es@[j].id != id,
{
    let mut i: usize = 0;
    while i < es.len()
        invariant
            i <= es@.len(),
            forall|j: int| 0 <= j < i ==> es@[j].id != id,
        decreases es@.len() - i,
    {
        if es[i].id == id {
            return Some(i);
        }
        i = i + 1;
    }
    None
}

fn seen_contains(seen: &Vec<(NodeType, i64)>, nt: NodeType, id: i64) -> (b: bool)
    ensures
        b == seen@.contains((nt, id)),
{
    let mut i: usize = 0;
    while i < seen.len()
        invariant
            i <= seen@.len(),
            forall|j: int| 0 <= j < i ==> seen@[j] != (nt, id),
        decreases seen@.len() - i,
    {
        if seen[i].0 == nt && seen[i].1 == id {
            return true;
        }
        i = i + 1;
    }
    false
}

/// The state of a breadth-first traversal from `o`: the queue of nodes
/// reached so far (the origin first), the nodes they stand for, and the
/// edges collected.
spec fn bfs_state(v: StoreView, c: TraversalConfig, o: (NodeType, i64), cands: Seq<(NodeType, i64)>,
    q: Seq<ProximityNode>, seen: Seq<(NodeType, i64)>, es: Seq<Edge>) -> bool {
    &&& q.len() >= 1
    &&& key(q[0]) == o
    &&& q[0].distance == 0
    &&& seen == keys(q)
    &&& seen.no_duplicates()
    &&& forall|i: int| 0 <= i < q.len() ==> reached(v, c, o, #[trigger] q[i]) && q[i].distance <= c.max_depth
    &&& forall|i: int| 0 <= i < seen.len() ==> cands.contains(#[trigger] seen[i])
    &&& forall|j: int| 0 <= j < es.len() ==> {
        &&& v.edges.contains(#[trigger] es[j])
        &&& c.edge_filter.permits(es[j].relation)
        &&& seen.contains((es[j].source_type, es[j].source_id))
        &&& seen.contains((es[j].target_type, es[j].target_id))
        &&& near_edge(q, c.max_depth, es[j])
    }
    &&& forall|i: int, j: int| 0 <= i < j < es.len() ==> (#[trigger] es[i]).id != (#[trigger] es[j]).id
    &&& forall|i: int, j: int| 0 <= i <= j < q.len() ==> (#[trigger] q[i]).distance <= (#[trigger] q[j]).distance
}

proof fn lemma_closed_mono(v: StoreView, c: TraversalConfig, ks1: Seq<(NodeType, i64)>, es1: Seq<Edge>,
    ks2: Seq<(NodeType, i64)>, es2: Seq<Edge>, a: (NodeType, i64))
    requires
        closed_at(v, c, ks1, es1, a),
        forall|x: (NodeType, i64)| ks1.contains(x) ==> ks2.contains(x),
        forall|e: Edge| es1.contains(e) ==> es2.contains(e),
    ensures
        closed_at(v, c, ks2, es2, a),
{
}

proof fn lemma_listed_grow(q1: Seq<ProximityNode>, q2: Seq<ProximityNode>, x: (NodeType, i64), d: int)
    requires
        listed_within(q1, x, d),
        q1.len() <= q2.len(),
        forall|i: int| 0 <= i < q1.len() ==> #[trigger] q2[i] == q1[i],
    ensures
        listed_within(q2, x, d),
{
    let i = choose|i: int| 0 <= i < q1.len() && key(#[trigger] q1[i]) == x && q1[i].distance <= d;
    assert(q2[i] == q1[i]);
}

proof fn lemma_near_edge_grow(q1: Seq<ProximityNode>, q2: Seq<ProximityNode>, m: usize, e: Edge)
    requires
        near_edge(q1, m, e),
        q1.len() <= q2.len(),
        forall|i: int| 0 <= i < q1.len() ==> #[trigger] q2[i] == q1[i],
    ensures
        near_edge(q2, m, e),
{
    let i = choose|i: int| 0 <= i < q1.len() && (#[trigger] q1[i]).distance < m
        && (key(q1[i]) == (e.source_type, e.source_id) || key(q1[i]) == (e.target_type, e.target_id));
    assert(q2[i] == q1[i]);
}

proof fn lemma_closed_near_grow(v: StoreView, c: TraversalConfig, q1: Seq<ProximityNode>, es1: Seq<Edge>,
    q2: Seq<ProximityNode>, es2: Seq<Edge>, a: (NodeType, i64), d: int)
    requires
        closed_near(v, c, q1, es1, a, d),
        q1.len() <= q2.len(),
        forall|i: int| 0 <= i < q1.len() ==> #[trigger] q2[i] == q1[i],
        forall|e: Edge| es1.contains(e) ==> es2.contains(e),
    ensures
        closed_near(v, c, q2, es2, a, d),
{
    assert forall|k: int| 0 <= k < v.edges_from(a.0, a.1).len() && c.edge_filter.permits(#[trigger] v.edges_from(a.0, a.1)[k].relation)
        implies listed_within(q2, (v.edges_from(a.0, a.1)[k].target_type, v.edges_from(a.0, a.1)[k].target_id), d + 1)
            && es2.contains(v.edges_from(a.0, a.1)[k]) by {
        lemma_listed_grow(q1, q2, (v.edges_from(a.0, a.1)[k].target_type, v.edges_from(a.0, a.1)[k].target_id), d + 1);
    }
    if c.bidirectional {
        assert forall|k: int| 0 <= k < v.edges_to(a.0, a.1).len() && c.edge_filter.permits(#[trigger] v.edges_to(a.0, a.1)[k].relation)
            implies listed_within(q2, (v.edges_to(a.0, a.1)[k].source_type, v.edges_to(a.0, a.1)[k].source_id), d + 1)
                && es2.contains(v.edges_to(a.0, a.1)[k]) by {
            lemma_listed_grow(q1, q2, (v.edges_to(a.0, a.1)[k].source_type, v.edges_to(a.0, a.1)[k].source_id), d + 1);
        }
    }
}

/// Follows `edges`, the edges leaving (or, when `incoming`, entering) the
/// node at index `h` of the queue, queueing each far end not seen before
/// (one hop further out) and collecting each edge not collected before,
/// where the filter allows.
#[verifier::rlimit(100)]
#[verifier::spinoff_prover]
fn follow_edges(config: &TraversalConfig, edges: &Vec<Edge>, incoming: bool, cur_type: NodeType, cur_id: i64,
    cur_depth: usize, path: &Vec<EdgeType>, queue: &mut Vec<ProximityNode>, seen: &mut Vec<(NodeType, i64)>,
    found: &mut Vec<Edge>, Ghost(v): Ghost<StoreView>, Ghost(o): Ghost<(NodeType, i64)>, Ghost(h): Ghost<int>)
    requires
        v.wf(),
        bfs_state(v, *config, o, endpoints(v, o), old(queue)@, old(seen)@, old(found)@),
        0 <= h < old(queue)@.len(),
        key(old(queue)@[h]) == (cur_type, cur_id),
        old(queue)@[h].distance == cur_depth,
        forall|j: int| 0 <= j < old(queue)@.len() ==> #[trigger] old(queue)@[j].distance <= cur_depth + 1,
        cur_depth < config.max_depth,
        reached(v, *config, o, (ProximityNode { node_type: cur_type, node_id: cur_id, distance: cur_depth, path_edge_types: *path })),
        incoming ==> edges@ == v.edges_to(cur_type, cur_id),
        !incoming ==> edges@ == v.edges_from(cur_type, cur_id),
        incoming ==> config.bidirectional,
    ensures
        bfs_state(v, *config, o, endpoints(v, o), final(queue)@, final(seen)@, final(found)@),
        final(queue)@.len() >= old(queue)@.len(),
        forall|i: int| 0 <= i < old(queue)@.len() ==> #[trigger] final(queue)@[i] == old(queue)@[i],
        forall|j: int| 0 <= j < final(queue)@.len() ==> #[trigger] final(queue)@[j].distance <= cur_depth + 1,
        forall|x: (NodeType, i64)| old(seen)@.contains(x) ==> final(seen)@.contains(x),
        forall|e: Edge| old(found)@.contains(e) ==> final(found)@.contains(e),
        forall|k: int| 0 <= k < edges@.len() && config.edge_filter.permits(#[trigger] edges@[k].relation) ==> {
            &&& final(found)@.contains(edges@[k])
            &&& incoming ==> final(seen)@.contains((edges@[k].source_type, edges@[k].source_id))
                && listed_within(final(queue)@, (edges@[k].source_type, edges@[k].source_id), cur_depth + 1)
            &&& !incoming ==> final(seen)@.contains((edges@[k].target_type, edges@[k].target_id))
                && listed_within(final(queue)@, (edges@[k].target_type, edges@[k].target_id), cur_depth + 1)
        },
{
    let ghost c = *config;
    let ghost cands = endpoints(v, o);
    let ghost cur = ProximityNode { node_type: cur_type, node_id: cur_id, distance: cur_depth, path_edge_types: *path };
    let ghost q0 = queue@;
    let ghost s0 = seen@;
    let ghost f0 = found@;
    proof {
        assert(keys(queue@)[h] == key(queue@[h]));
        assert(seen@[h] == (cur_type, cur_id));
    }
    let mut k: usize = 0;
    while k < edges.len()
        invariant
            v.wf(),
            c == *config,
            cands == endpoints(v, o),
            cur == (ProximityNode { node_type: cur_type, node_id: cur_id, distance: cur_depth, path_edge_types: *path }),
            reached(v, c, o, cur),
            cur_depth < c.max_depth,
            0 <= h < q0.len(),
            key(q0[h]) == (cur_type, cur_id),
            q0[h].distance == cur_depth,
            incoming ==> edges@ == v.edges_to(cur_type, cur_id),
            !incoming ==> edges@ == v.edges_from(cur_type, cur_id),
            incoming ==> c.bidirectional,
            k <= edges@.len(),
            bfs_state(v, c, o, cands, queue@, seen@, found@),
            seen@.contains((cur_type, cur_id)),
            queue@.len() >= q0.len(),
            forall|i: int| 0 <= i < q0.len() ==> #[trigger] queue@[i] == q0[i],
            forall|j: int| 0 <= j < queue@.len() ==> #[trigger] queue@[j].distance <= cur_depth + 1,
            forall|x: (NodeType, i64)| s0.contains(x) ==> seen@.contains(x),
            forall|e: Edge| f0.contains(e) ==> found@.contains(e),
            forall|j: int| 0 <= j < k && c.edge_filter.permits(#[trigger] edges@[j].relation) ==> {
                &&& found@.contains(edges@[j])
                &&& incoming ==> seen@.contains((edges@[j].source_type, edges@[j].source_id))
                    && listed_within(queue@, (edges@[j].source_type, edges@[j].source_id), cur_depth + 1)
                &&& !incoming ==> seen@.contains((edges@[j].target_type, edges@[j].target_id))
                    && listed_within(queue@, (edges@[j].target_type, edges@[j].target_id), cur_depth + 1)
            },
        decreases edges@.len() - k,
    {
        let edge = edges[k];
        let ghost qb = queue@;
        let ghost sb = seen@;
        let ghost fb = found@;
        proof {
            assert(queue@[h] == q0[h]);
            if incoming {
                assert(v.edges_to(cur_type, cur_id).contains(edge));
                v.edges.lemma_filter_contains_rev(edge_to(cur_type, cur_id), edge);
            } else {
                assert(v.edges_from(cur_type, cur_id).contains(edge));
                v.edges.lemma_filter_contains_rev(edge_from(cur_type, cur_id), edge);
            }
            lemma_endpoint_cands(v, o, edge);
        }
        if config.edge_filter.allows(&edge.relation) {
            let (far_type, far_id) = if incoming {
                (edge.source_type, edge.source_id)
            } else {
                (edge.target_type, edge.target_id)
            };
            if !seen_contains(seen, far_type, far_id) {
                let mut new_path = copy_path(path);
                new_path.push(edge.relation);
                let node = ProximityNode { node_type: far_type, node_id: far_id, distance: cur_depth + 1, path_edge_types: new_path };
                proof {
                    let r = edge.relation;
                    if incoming {
                        assert(v.edges_to(cur_type, cur_id)[k as int] == edge);
                    } else {
                        assert(v.edges_from(cur_type, cur_id)[k as int] == edge);
                    }
                    assert(hop(v, c.edge_filter, c.bidirectional, key(cur), key(node), r));
                    assert(node.path_edge_types@ == cur.path_edge_types@.push(node.path_edge_types@.last()));
                    lemma_route_step(v, c, o, cur, node);
                }
                queue.push(node);
                seen.push((far_type, far_id));
                proof {
                    assert(keys(queue@) =~= keys(qb).push(key(node)));
                    assert forall|i: int| 0 <= i < qb.len() implies #[trigger] queue@[i] == qb[i] by {}
                    assert forall|i: int| 0 <= i < queue@.len() implies reached(v, c, o, #[trigger] queue@[i]) && queue@[i].distance <= c.max_depth by {
                        if i < qb.len() {
                            assert(queue@[i] == qb[i]);
                        }
                    }
                    assert forall|i: int| 0 <= i < seen@.len() implies cands.contains(#[trigger] seen@[i]) by {
                        if i < sb.len() {
                            assert(seen@[i] == sb[i]);
                        }
                    }
                    assert forall|i: int, j: int| 0 <= i <= j < queue@.len() implies (#[trigger] queue@[i]).distance <= (#[trigger] queue@[j]).distance by {
                        if j < qb.len() {
                            assert(queue@[i] == qb[i] && queue@[j] == qb[j]);
                        } else if i < qb.len() {
                            assert(queue@[i] == qb[i]);
                        }
                    }
                    assert forall|j: int| 0 <= j < queue@.len() implies #[trigger] queue@[j].distance <= cur_depth + 1 by {
                        if j < qb.len() {
                            assert(queue@[j] == qb[j]);
                        }
                    }
                    assert forall|j: int| 0 <= j < found@.len() implies near_edge(queue@, c.max_depth, #[trigger] found@[j]) by {
                        lemma_near_edge_grow(qb, queue@, c.max_depth, found@[j]);
                    }
                    assert forall|j: int| 0 <= j < k && c.edge_filter.permits(#[trigger] edges@[j].relation) implies {
                        &&& incoming ==> listed_within(queue@, (edges@[j].source_type, edges@[j].source_id), cur_depth + 1)
                        &&& !incoming ==> listed_within(queue@, (edges@[j].target_type, edges@[j].target_id), cur_depth + 1)
                    } by {
                        if incoming {
                            lemma_listed_grow(qb, queue@, (edges@[j].source_type, edges@[j].source_id), cur_depth + 1);
                        } else {
                            lemma_listed_grow(qb, queue@, (edges@[j].target_type, edges@[j].target_id), cur_depth + 1);
                        }
                    }
                    let last = queue@.len() - 1;
                    assert(key(queue@[last]) == (far_type, far_id));
                    assert(listed_within(queue@, (far_type, far_id), cur_depth + 1));
                }
            } else {
                proof {
                    assert(keys(queue@).contains((far_type, far_id)));
                    let i = choose|i: int| 0 <= i < keys(queue@).len() && keys(queue@)[i] == (far_type, far_id);
                    assert(key(queue@[i]) == (far_type, far_id));
                    assert(queue@[i].distance <= cur_depth + 1);
                    assert(listed_within(queue@, (far_type, far_id), cur_depth + 1));
                }
            }
            let ghost qa = queue@;
            proof {
                assert(queue@[h] == q0[h]);
                assert(near_edge(queue@, c.max_depth, edge));
            }
            match find_edge_id(found, edge.id) {
                Some(j) => {
                    proof {
                        lemma_same_id(v, found@[j as int], edge);
                    }
                },
                None => {
                    found.push(edge);
                    proof {
                        assert forall|i: int, j: int| 0 <= i < j < found@.len() implies (#[trigger] found@[i]).id != (#[trigger] found@[j]).id by {
                            if j < fb.len() {
                                assert(found@[i] == fb[i] && found@[j] == fb[j]);
                            } else {
                                assert(found@[i] == fb[i]);
                            }
                        }
                        assert forall|j: int| 0 <= j < found@.len() implies {
                            &&& v.edges.contains(#[trigger] found@[j])
                            &&& c.edge_filter.permits(found@[j].relation)
                            &&& seen@.contains((found@[j].source_type, found@[j].source_id))
                            &&& seen@.contains((found@[j].target_type, found@[j].target_id))
                            &&& near_edge(queue@, c.max_depth, found@[j])
                        } by {
                            if j < fb.len() {
                                assert(found@[j] == fb[j]);
                            }
                        }
                    }
                },
            }
        }
        proof {
            assert forall|j: int| 0 <= j < found@.len() implies {
                &&& v.edges.contains(#[trigger] found@[j])
                &&& c.edge_filter.permits(found@[j].relation)
                &&& seen@.contains((found@[j].source_type, found@[j].source_id))
                &&& seen@.contains((found@[j].target_type, found@[j].target_id))
                &&& near_edge(queue@, c.max_depth, found@[j])
            } by {
                if fb.contains(found@[j]) {
                    let i = choose|i: int| 0 <= i < fb.len() && fb[i] == found@[j];
                    assert(sb.contains((fb[i].source_type, fb[i].source_id)));
                    lemma_near_edge_grow(qb, queue@, c.max_depth, fb[i]);
                }
            }
        }
        k = k + 1;
    }
}

/// A route of at most `c.max_depth` hops from `o` ends at a node listed in
/// `q` no further out than the route is long, when every node of `q` that
/// lies closer than `c.max_depth` has had its edges followed.
proof fn lemma_route_listed(v: StoreView, c: TraversalConfig, o: (NodeType, i64), q: Seq<ProximityNode>, es: Seq<Edge>,
    p: Seq<(NodeType, i64)>, rs: Seq<EdgeType>, x: (NodeType, i64))
    requires
        q.len() >= 1,
        key(q[0]) == o,
        q[0].distance == 0,
        forall|i: int| 0 <= i < q.len() && (#[trigger] q[i]).distance < c.max_depth
            ==> closed_near(v, c, q, es, key(q[i]), q[i].distance as int),
        route(v, c, p, rs, o, x),
        rs.len() <= c.max_depth,
    ensures
        listed_within(q, x, rs.len() as int),
    decreases rs.len(),
{
    let n = rs.len() as int;
    if n == 0 {
        assert(key(q[0]) == x);
    } else {
        let p2 = p.take(n);
        let rs2 = rs.take(n - 1);
        let y = p[n - 1];
        assert forall|i: int| 0 <= i < rs2.len() implies #[trigger] route_hop(v, c, p2, rs2, i) by {
            assert(route_hop(v, c, p, rs, i));
        }
        assert(route(v, c, p2, rs2, o, y));
        lemma_route_listed(v, c, o, q, es, p2, rs2, y);
        let i = choose|i: int| 0 <= i < q.len() && key(#[trigger] q[i]) == y && q[i].distance <= n - 1;
        assert(q[i].distance < c.max_depth);
        assert(closed_near(v, c, q, es, y, q[i].distance as int));
        assert(route_hop(v, c, p, rs, n - 1));
        let r = rs[n - 1];
        assert(hop(v, c.edge_filter, c.bidirectional, y, x, r));
        if exists|k: int| 0 <= k < v.edges_from(y.0, y.1).len()
            && (#[trigger] v.edges_from(y.0, y.1)[k]).target_type == x.0
            && v.edges_from(y.0, y.1)[k].target_id == x.1 && v.edges_from(y.0, y.1)[k].relation == r {
            let k = choose|k: int| 0 <= k < v.edges_from(y.0, y.1).len()
                && (#[trigger] v.edges_from(y.0, y.1)[k]).target_type == x.0
                && v.edges_from(y.0, y.1)[k].target_id == x.1 && v.edges_from(y.0, y.1)[k].relation == r;
            assert(c.edge_filter.permits(v.edges_from(y.0, y.1)[k].relation));
            assert(listed_within(q, x, q[i].distance + 1));
        } else {
            let k = choose|k: int| 0 <= k < v.edges_to(y.0, y.1).len()
                && (#[trigger] v.edges_to(y.0, y.1)[k]).source_type == x.0
                && v.edges_to(y.0, y.1)[k].source_id == x.1 && v.edges_to(y.0, y.1)[k].relation == r;
            assert(c.edge_filter.permits(v.edges_to(y.0, y.1)[k].relation));
            assert(listed_within(q, x, q[i].distance + 1));
        }
        let j = choose|j: int| 0 <= j < q.len() && key(#[trigger] q[j]) == x && q[j].distance <= q[i].distance + 1;
        assert(q[j].distance <= n);
    }
}

/// Breadth-first traversal from (`start_type`, `start_id`) under `config`:
/// each node is queued once, when first seen, and nodes `max_depth` hops
/// out are not expanded. See `bfs_result` for what is collected.
pub fn traverse_bfs(store: &Store, start_type: NodeType, start_id: i64, config: &TraversalConfig) -> (sg: Subgraph)
    requires
        store.wf(),
    ensures
        bfs_result(store@, *config, (start_type, start_id), sg),
{
    let ghost v = store@;
    let ghost o = (start_type, start_id);
    let ghost c = *config;
    let ghost cands = endpoints(v, o);
    let mut queue: Vec<ProximityNode> = Vec::new();
    let mut seen: Vec<(NodeType, i64)> = Vec::new();
    let mut found: Vec<Edge> = Vec::new();
    let origin = ProximityNode { node_type: start_type, node_id: start_id, distance: 0, path_edge_types: Vec::new() };
    proof {
        let p = seq![o];
        assert(route(v, c, p, origin.path_edge_types@, o, key(origin)));
    }
    queue.push(origin);
    seen.push((start_type, start_id));
    proof {
        assert(keys(queue@) =~= seen@);
        assert(cands[0] == o);
    }
    let mut head: usize = 0;
    while head < queue.len()
        invariant
            store.wf(),
            v == store@,
            o == (start_type, start_id),
            c == *config,
            cands == endpoints(v, o),
            head <= queue@.len(),
            bfs_state(v, c, o, cands, queue@, seen@, found@),
            head < queue@.len() ==> forall|j: int| 0 <= j < queue@.len() ==> #[trigger] queue@[j].distance <= queue@[head as int].distance + 1,
            forall|i: int| 0 <= i < head && (#[trigger] queue@[i]).distance < c.max_depth
                ==> closed_at(v, c, seen@, found@, key(queue@[i])),
            forall|i: int| 0 <= i < head && (#[trigger] queue@[i]).distance < c.max_depth
                ==> closed_near(v, c, queue@, found@, key(queue@[i]), queue@[i].distance as int),
        decreases cands.len() - head,
    {
        let cur_depth = queue[head].distance;
        let cur_type = queue[head].node_type;
        let cur_id = queue[head].node_id;
        let ghost h = head as int;
        let ghost cur = queue@[h];
        let ghost q0 = queue@;
        let ghost s0 = seen@;
        let ghost f0 = found@;
        if cur_depth < config.max_depth {
            let path = copy_path(&queue[head].path_edge_types);
            proof {
                assert(keys(queue@)[h] == key(cur));
                assert(cur == (ProximityNode { node_type: cur_type, node_id: cur_id, distance: cur_depth, path_edge_types: cur.path_edge_types }));
                assert(reached(v, c, o, cur));
                let cur2 = ProximityNode { node_type: cur_type, node_id: cur_id, distance: cur_depth, path_edge_types: path };
                let p = choose|p: Seq<(NodeType, i64)>| #[trigger] route(v, c, p, cur.path_edge_types@, o, key(cur));
                assert(route(v, c, p, cur2.path_edge_types@, o, key(cur2)));
                assert(reached(v, c, o, cur2));
            }
            let outgoing = match store.get_edges_from(cur_type, cur_id) {
                Ok(x) => x,
                Err(_) => Vec::new(),
            };
            follow_edges(config, &outgoing, false, cur_type, cur_id, cur_depth, &path, &mut queue, &mut seen, &mut found,
                Ghost(v), Ghost(o), Ghost(h));
            let ghost q1 = queue@;
            let ghost s1 = seen@;
            let ghost f1 = found@;
            if config.bidirectional {
                let incoming = match store.get_edges_to(cur_type, cur_id) {
                    Ok(x) => x,
                    Err(_) => Vec::new(),
                };
                follow_edges(config, &incoming, true, cur_type, cur_id, cur_depth, &path, &mut queue, &mut seen, &mut found,
                    Ghost(v), Ghost(o), Ghost(h));
                proof {
                    let qn = queue@;
                    assert forall|k: int| 0 <= k < v.edges_from(cur_type, cur_id).len()
                        && c.edge_filter.permits(#[trigger] v.edges_from(cur_type, cur_id)[k].relation)
                        implies listed_within(qn, (v.edges_from(cur_type, cur_id)[k].target_type, v.edges_from(cur_type, cur_id)[k].target_id), cur_depth + 1)
                            && found@.contains(v.edges_from(cur_type, cur_id)[k]) by {
                        assert(outgoing@[k] == v.edges_from(cur_type, cur_id)[k]);
                        lemma_listed_grow(q1, qn, (outgoing@[k].target_type, outgoing@[k].target_id), cur_depth + 1);
                    }
                }
            }
            proof {
                assert(queue@[h] == cur);
                assert(closed_near(v, c, queue@, found@, key(cur), cur_depth as int));
                assert forall|i: int| 0 <= i < h + 1 && (#[trigger] queue@[i]).distance < c.max_depth
                    implies closed_at(v, c, seen@, found@, key(queue@[i])) by {
                    if i < h {
                        assert(queue@[i] == q0[i]);
                        lemma_closed_mono(v, c, s0, f0, seen@, found@, key(queue@[i]));
                    }
                }
                assert forall|i: int| 0 <= i < h + 1 && (#[trigger] queue@[i]).distance < c.max_depth
                    implies closed_near(v, c, queue@, found@, key(queue@[i]), queue@[i].distance as int) by {
                    if i < h {
                        assert(queue@[i] == q0[i]);
                        lemma_closed_near_grow(v, c, q0, f0, queue@, found@, key(queue@[i]), queue@[i].distance as int);
                    }
                }
            }
        }
        proof {
            assert(queue@[h] == cur);
            if h + 1 < queue@.len() {
                assert(queue@[h].distance <= queue@[h + 1].distance);
                assert forall|j: int| 0 <= j < queue@.len() implies #[trigger] queue@[j].distance <= queue@[h + 1].distance + 1 by {
                    if j < q0.len() {
                        assert(queue@[j] == q0[j]);
                    }
                }
            }
        }
        head = head + 1;
        proof {
            lemma_distinct_bound(seen@, cands);
        }
    }
    let ghost qf = queue@;
    let ghost sf = seen@;
    if !config.include_origin {
        queue.remove(0);
    }
    let sg = Subgraph { origin: (start_type, start_id), nodes: queue, edges: found };
    proof {
        let ns = sg.nodes@;
        let ks = seq![o] + keys(ns);
        let shift: int = if c.include_origin { 0 } else { 1 };
        assert(ns.len() == qf.len() - shift);
        assert forall|i: int| 0 <= i < ns.len() implies #[trigger] ns[i] == qf[i + shift] by {}
        assert forall|x: (NodeType, i64)| sf.contains(x) implies ks.contains(x) by {
            let i = choose|i: int| 0 <= i < sf.len() && sf[i] == x;
            if i == 0 {
                assert(ks[0] == o);
            } else {
                assert(ks[1 + i - shift] == key(ns[i - shift]));
                assert(ns[i - shift] == qf[i]);
            }
        }
        if 0 < c.max_depth {
            assert(qf[0].distance < c.max_depth);
            assert(key(qf[0]) == o);
            lemma_closed_mono(v, c, sf, found@, ks, found@, o);
        }
        assert forall|i: int| 0 <= i < ns.len() && (#[trigger] ns[i]).distance < c.max_depth implies closed_at(v, c, ks, found@, key(ns[i])) by {
            assert(ns[i] == qf[i + shift]);
            lemma_closed_mono(v, c, sf, found@, ks, found@, key(ns[i]));
        }
        assert forall|i: int| 0 <= i < ns.len() implies reached(v, c, o, #[trigger] ns[i]) && ns[i].distance <= c.max_depth by {
            assert(ns[i] == qf[i + shift]);
        }
        if c.include_origin {
            assert(keys(ns) =~= sf);
        } else {
            assert(keys(ns) =~= sf.subrange(1, sf.len() as int));
            assert forall|i: int| 0 <= i < keys(ns).len() implies keys(ns)[i] != o by {
                assert(keys(ns)[i] == sf[i + 1]);
                assert(sf[0] == o);
            }
        }
        assert forall|j: int| 0 <= j < found@.len() implies {
            &&& v.edges.contains(#[trigger] found@[j])
            &&& c.edge_filter.permits(found@[j].relation)
            &&& ks.contains((found@[j].source_type, found@[j].source_id))
            &&& ks.contains((found@[j].target_type, found@[j].target_id))
            &&& near(c, o, ns, (found@[j].source_type, found@[j].source_id)) || near(c, o, ns, (found@[j].target_type, found@[j].target_id))
        } by {
            assert(sf.contains((found@[j].source_type, found@[j].source_id)));
            assert(sf.contains((found@[j].target_type, found@[j].target_id)));
            let e = found@[j];
            assert(near_edge(qf, c.max_depth, e));
            let i = choose|i: int| 0 <= i < qf.len() && (#[trigger] qf[i]).distance < c.max_depth
                && (key(qf[i]) == (e.source_type, e.source_id) || key(qf[i]) == (e.target_type, e.target_id));
            if i == 0 {
                assert(key(qf[0]) == o);
            } else if i - shift >= 0 {
                assert(ns[i - shift] == qf[i]);
            } else {
                assert(key(qf[0]) == o);
            }
        }
        // every node of the queue closer than the limit has had its edges followed
        assert forall|i: int| 0 <= i < qf.len() && (#[trigger] qf[i]).distance < c.max_depth
            implies closed_near(v, c, qf, found@, key(qf[i]), qf[i].distance as int) by {}
        assert forall|p: Seq<(NodeType, i64)>, rs: Seq<EdgeType>, x: (NodeType, i64)|
            #[trigger] route(v, c, p, rs, o, x) && rs.len() <= c.max_depth implies ks.contains(x) by {
            lemma_route_listed(v, c, o, qf, found@, p, rs, x);
            let i = choose|i: int| 0 <= i < qf.len() && key(#[trigger] qf[i]) == x && qf[i].distance <= rs.len();
            assert(sf[i] == x);
        }
        assert forall|i: int, p: Seq<(NodeType, i64)>, rs: Seq<EdgeType>|
            0 <= i < ns.len() && #[trigger] route(v, c, p, rs, o, key(ns[i])) implies ns[i].distance <= rs.len() by {
            assert(ns[i] == qf[i + shift]);
            if rs.len() < ns[i].distance {
                lemma_route_listed(v, c, o, qf, found@, p, rs, key(ns[i]));
                let j = choose|j: int| 0 <= j < qf.len() && key(#[trigger] qf[j]) == key(ns[i]) && qf[j].distance <= rs.len();
                assert(sf[j] == sf[i + shift]);
            }
        }
    }
    sg
}

/// Picks out the nodes at hop count `d`.
pub open spec fn at_distance(d: usize) -> spec_fn(ProximityNode) -> bool {
    |n: ProximityNode| n.distance == d
}

/// Picks out the nodes of type `t`.
pub open spec fn of_type(t: NodeType) -> spec_fn(ProximityNode) -> bool {
    |n: ProximityNode| n.node_type == t
}

/// `m` groups `ns` by hop count, keeping their order: a count is a key
/// exactly when some node has it.
pub open spec fn grouped(m: Map<usize, Vec<ProximityNode>>, ns: Seq<ProximityNode>) -> bool {
    &&& forall|d: usize| #[trigger] m.contains_key(d) <==> ns.filter(at_distance(d)).len() > 0
    &&& forall|d: usize| #[trigger] m.contains_key(d) ==> m[d]@ == ns.filter(at_distance(d))
}

/// The configuration of an undirected traversal that leaves the origin out.
pub open spec fn around(max_depth: usize, edge_filter: EdgeFilter) -> TraversalConfig {
    TraversalConfig { max_depth, edge_filter, bidirectional: true, include_origin: false }
}

/// The configuration of a phase's subgraph: undirected, origin included,
/// along the relations that tie work to a phase.
pub open spec fn phase_config(c: TraversalConfig, max_depth: usize) -> bool {
    &&& c.max_depth == max_depth
    &&& c.bidirectional
    &&& c.include_origin
    &&& c.edge_filter matches EdgeFilter::Only(a) && a@ == seq![EdgeType::Contains, EdgeType::ProducedBy,
        EdgeType::Informed, EdgeType::Supports, EdgeType::Contradicts]
}

/// The nodes around a start, up to `max_depth` hops along edges that
/// `edge_filter` allows in either direction, grouped by hop count.
pub fn neighborhood(store: &Store, start_type: NodeType, start_id: i64, max_depth: usize, edge_filter: EdgeFilter) -> (m: HashMap<usize, Vec<ProximityNode>>)
    requires
        store.wf(),
    ensures
        exists|sg: Subgraph| #[trigger] bfs_result(store@, around(max_depth, edge_filter), (start_type, start_id), sg)
            && grouped(m@, sg.nodes@),
{
    broadcast use vstd::std_specs::hash::group_hash_axioms;
    let ghost filter = edge_filter;
    let config = TraversalConfig { max_depth, edge_filter, bidirectional: true, include_origin: false };
    let sg = traverse_bfs(store, start_type, start_id, &config);
    let ghost ns = sg.nodes@;
    let ghost whole = sg;
    let Subgraph { origin: _, nodes, edges: _ } = sg;
    let mut nodes = nodes;
    let total = nodes.len();
    let mut m: HashMap<usize, Vec<ProximityNode>> = HashMap::new();
    let mut i: usize = 0;
    proof {
        assert forall|d: usize| #[trigger] m@.contains_key(d) <==> ns.take(0).filter(at_distance(d)).len() > 0 by {
            assert(ns.take(0).filter(at_distance(d)) =~= Seq::<ProximityNode>::empty());
        }
    }
    while nodes.len() > 0
        invariant
            i + nodes@.len() == ns.len(),
            ns.len() == total,
            nodes@ == ns.subrange(i as int, ns.len() as int),
            grouped(m@, ns.take(i as int)),
        decreases nodes@.len(),
    {
        let n = nodes.remove(0);
        let d = n.distance;
        proof {
            assert(n == ns[i as int]);
            assert(ns.take(i + 1) =~= ns.take(i as int).push(n));
            assert forall|e: usize| #![auto] ns.take(i + 1).filter(at_distance(e)) == if e == d {
                ns.take(i as int).filter(at_distance(e)).push(n)
            } else {
                ns.take(i as int).filter(at_distance(e))
            } by {
                ns.take(i as int).lemma_filter_push(n, at_distance(e));
            }
        }
        let group = match m.remove(&d) {
            Some(g) => g,
            None => Vec::new(),
        };
        let mut group = group;
        group.push(n);
        m.insert(d, group);
        i = i + 1;
    }
    proof {
        assert(ns.take(i as int) =~= ns);
        assert(bfs_result(store@, around(max_depth, filter), (start_type, start_id), whole));
    }
    m
}

/// The nodes of type `target_type` up to `max_depth` hops from a start,
/// along any edge in either direction, in the order the traversal met them.
pub fn find_nearby(store: &Store, start_type: NodeType, start_id: i64, target_type: NodeType, max_depth: usize) -> (r: Vec<ProximityNode>)
    requires
        store.wf(),
    ensures
        exists|sg: Subgraph| #[trigger] bfs_result(store@, around(max_depth, EdgeFilter::All), (start_type, start_id), sg)
            && r@ == sg.nodes@.filter(of_type(target_type)),
{
    let config = TraversalConfig { max_depth, edge_filter: EdgeFilter::All, bidirectional: true, include_origin: false };
    let sg = traverse_bfs(store, start_type, start_id, &config);
    let ghost ns = sg.nodes@;
    let ghost whole = sg;
    let Subgraph { origin: _, nodes, edges: _ } = sg;
    let mut nodes = nodes;
    let total = nodes.len();
    let mut out: Vec<ProximityNode> = Vec::new();
    let mut i: usize = 0;
    while nodes.len() > 0
        invariant
            i + nodes@.len() == ns.len(),
            ns.len() == total,
            nodes@ == ns.subrange(i as int, ns.len() as int),
            out@ == ns.take(i as int).filter(of_type(target_type)),
        decreases nodes@.len(),
    {
        let n = nodes.remove(0);
        proof {
            assert(n == ns[i as int]);
            assert(ns.take(i + 1) =~= ns.take(i as int).push(n));
            ns.take(i as int).lemma_filter_push(n, of_type(target_type));
        }
        if n.node_type == target_type {
            out.push(n);
        }
        i = i + 1;
    }
    proof {
        assert(ns.take(i as int) =~= ns);
        assert(bfs_result(store@, around(max_depth, EdgeFilter::All), (start_type, start_id), whole));
    }
    out
}

/// The subgraph of a phase: the phase and every node up to `max_depth`
/// hops from it, in either direction, along Contains, ProducedBy,
/// Informed, Supports and Contradicts edges.
pub fn phase_subgraph(store: &Store, phase_id: i64, max_depth: usize) -> (sg: Subgraph)
    requires
        store.wf(),
    ensures
        exists|c: TraversalConfig| #[trigger] phase_config(c, max_depth) && bfs_result(store@, c, (NodeType::Phase, phase_id), sg),
{
    let mut relations: Vec<EdgeType> = Vec::new();
    relations.push(EdgeType::Contains);
    relations.push(EdgeType::ProducedBy);
    relations.push(EdgeType::Informed);
    relations.push(EdgeType::Supports);
    relations.push(EdgeType::Contradicts);
    proof {
        assert(relations@ =~= seq![EdgeType::Contains, EdgeType::ProducedBy, EdgeType::Informed, EdgeType::Supports,
            EdgeType::Contradicts]);
    }
    let config = TraversalConfig { max_depth, edge_filter: EdgeFilter::Only(relations), bidirectional: true, include_origin: true };
    let sg = traverse_bfs(store, NodeType::Phase, phase_id, &config);
    proof {
        assert(phase_config(config, max_depth));
    }
    sg
}

/// The findings up to `max_depth` hops from a finding, along any edge in
/// either direction.
pub fn finding_neighborhood(store: &Store, finding_id: i64, max_depth: usize) -> (r: Vec<ProximityNode>)
    requires
        store.wf(),
    ensures
        exists|sg: Subgraph| #[trigger] bfs_result(store@, around(max_depth, EdgeFilter::All), (NodeType::Finding, finding_id), sg)
            && r@ == sg.nodes@.filter(of_type(NodeType::Finding)),
{
    find_nearby(store, NodeType::Finding, finding_id, NodeType::Finding, max_depth)
}

} // verus!
