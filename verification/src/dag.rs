//! The phase DAG of a project: topological order, the actionable phases
//! ranked by impact, and stagnation detection over experiment outcomes.
use vstd::prelude::*;
use crate::store::{Store, StoreView, Phase, PhaseView, PhaseStatus, Experiment, ExperimentStatus};

verus! {

broadcast use vstd::seq_lib::group_seq_properties;

// ------------------------------------------------------------ dependency graph

/// The position of the first phase of `ps` with id `id`, or -1.
pub open spec fn first_index(ps: Seq<PhaseView>, id: i64) -> int
    decreases ps.len(),
{
    if ps.len() == 0 {
        -1
    } else {
        let k = first_index(ps.drop_last(), id);
        if k >= 0 {
            k
        } else if ps.last().id == id {
            ps.len() - 1
        } else {
            -1
        }
    }
}

/// Phase `a` of `ps` depends on phase `b` of `ps`: one of `a`'s dependency ids
/// names `b` (the first phase of `ps` with that id).
pub open spec fn depends(ps: Seq<PhaseView>, a: int, b: int) -> bool {
    &&& 0 <= a < ps.len()
    &&& 0 <= b
    &&& exists|d: int| 0 <= d < ps[a].depends_on.len() && first_index(ps, ps[a].depends_on[d]) == b
}

/// Each position of `w` depends on the next one.
pub open spec fn is_walk(ps: Seq<PhaseView>, w: Seq<int>) -> bool {
    forall|t: int| 0 <= t < w.len() - 1 ==> #[trigger] depends(ps, w[t], w[t + 1])
}

/// No phase reaches itself by following dependencies.
pub open spec fn acyclic(ps: Seq<PhaseView>) -> bool {
    forall|w: Seq<int>| w.len() >= 2 && #[trigger] is_walk(ps, w) ==> w[0] != w[w.len() - 1]
}

/// `perm` lists each of the positions `0..n` exactly once.
pub open spec fn is_permutation(perm: Seq<int>, n: nat) -> bool {
    &&& forall|x: int| 0 <= x < n ==> #[trigger] perm.contains(x)
    &&& forall|q: int| 0 <= q < perm.len() ==> 0 <= #[trigger] perm[q] < n
    &&& forall|q: int, r: int| 0 <= q < r < perm.len() ==> perm[q] != perm[r]
}

/// Every phase listed in `order` comes after all the phases it depends on.
pub open spec fn deps_first(ps: Seq<PhaseView>, order: Seq<int>) -> bool {
    forall|q: int, b: int| 0 <= q < order.len() && #[trigger] depends(ps, order[q], b)
        ==> exists|r: int| 0 <= r < q && order[r] == b
}

/// Number of `true` entries.
pub open spec fn count_true(s: Seq<bool>) -> nat
    decreases s.len(),
{
    if s.len() == 0 {
        0
    } else {
        count_true(s.drop_last()) + (if s.last() { 1nat } else { 0nat })
    }
}

proof fn lemma_count_le_len(s: Seq<bool>)
    ensures
        count_true(s) <= s.len(),
    decreases s.len(),
{
    if s.len() > 0 {
        lemma_count_le_len(s.drop_last());
    }
}

proof fn lemma_count_mono(a: Seq<bool>, b: Seq<bool>)
    requires
        a.len() == b.len(),
        forall|x: int| 0 <= x < a.len() && a[x] ==> b[x],
    ensures
        count_true(a) <= count_true(b),
    decreases a.len(),
{
    if a.len() > 0 {
        lemma_count_mono(a.drop_last(), b.drop_last());
    }
}

proof fn lemma_count_set(s: Seq<bool>, i: int)
    requires
        0 <= i < s.len(),
        !s[i],
    ensures
        count_true(s.update(i, true)) == count_true(s) + 1,
    decreases s.len(),
{
    if i < s.len() - 1 {
        lemma_count_set(s.drop_last(), i);
        assert(s.update(i, true).drop_last() =~= s.drop_last().update(i, true));
    } else {
        assert(s.update(i, true).drop_last() =~= s.drop_last());
    }
}

proof fn lemma_first_index_prefix(ps: Seq<PhaseView>, id: i64, m: int)
    requires
        0 <= m <= ps.len(),
        first_index(ps.take(m), id) >= 0,
    ensures
        first_index(ps, id) == first_index(ps.take(m), id),
    decreases ps.len() - m,
{
    if m < ps.len() {
        assert(ps.take(m + 1).drop_last() =~= ps.take(m));
        lemma_first_index_prefix(ps, id, m + 1);
    } else {
        assert(ps.take(m) =~= ps);
    }
}

proof fn lemma_first_index_none(ps: Seq<PhaseView>, id: i64)
    requires
        forall|k: int| 0 <= k < ps.len() ==> ps[k].id != id,
    ensures
        first_index(ps, id) == -1,
    decreases ps.len(),
{
    if ps.len() > 0 {
        lemma_first_index_none(ps.drop_last(), id);
    }
}

proof fn lemma_first_index_range(ps: Seq<PhaseView>, id: i64)
    ensures
        -1 <= first_index(ps, id) < ps.len(),
        first_index(ps, id) >= 0 ==> ps[first_index(ps, id)].id == id,
    decreases ps.len(),
{
    if ps.len() > 0 {
        lemma_first_index_range(ps.drop_last(), id);
    }
}

/// A closed walk through the dependencies contradicts acyclicity.
proof fn lemma_cycle(ps: Seq<PhaseView>, stack: Seq<int>, t: int, b: int)
    requires
        is_walk(ps, stack),
        0 <= t < stack.len(),
        stack[t] == b,
        depends(ps, stack.last(), b),
    ensures
        !acyclic(ps),
{
    let w = stack.subrange(t, stack.len() as int).push(b);
    assert forall|k: int| 0 <= k < w.len() - 1 implies #[trigger] depends(ps, w[k], w[k + 1]) by {
        if k < w.len() - 2 {
            assert(w[k] == stack[t + k]);
            assert(w[k + 1] == stack[t + k + 1]);
            assert(depends(ps, stack[t + k], stack[t + k + 1]));
        } else {
            assert(w[k] == stack.last());
        }
    }
    assert(is_walk(ps, w));
    assert(w[0] == w[w.len() - 1]);
}

/// The view of a list of phases.
pub open spec fn views(v: Seq<Phase>) -> Seq<PhaseView> {
    v.map_values(|p: Phase| p@)
}

/// The position of the first phase of `ps` with id `id`.
fn find_index(ps: &Vec<Phase>, id: i64) -> (res: Option<usize>)
    ensures
        match res {
            Some(k) => k as int == first_index(views(ps@), id),
            None => first_index(views(ps@), id) == -1,
        },
{
    let ghost pv = views(ps@);
    let mut k: usize = 0;
    while k < ps.len()
        invariant
            pv == views(ps@),
            k <= ps@.len(),
            forall|m: int| 0 <= m < k ==> pv[m].id != id,
        decreases ps@.len() - k,
    {
        if ps[k].id == id {
            proof {
                lemma_first_index_none(pv.take(k as int), id);
                assert(pv.take(k + 1).drop_last() =~= pv.take(k as int));
                lemma_first_index_prefix(pv, id, k + 1);
            }
            return Some(k);
        }
        k = k + 1;
    }
    proof { lemma_first_index_none(pv, id); }
    None
}

/// The bookkeeping of the depth-first walk: `vis` marks the phases entered,
/// `sorted` lists those finished, and `stack` the chain of phases still open.
spec fn dfs_inv(ps: Seq<PhaseView>, vis: Seq<bool>, sorted: Seq<usize>, stack: Seq<int>) -> bool {
    &&& vis.len() == ps.len()
    &&& forall|r: int| 0 <= r < sorted.len() ==> (#[trigger] sorted[r] as int) < ps.len() && vis[sorted[r] as int]
    &&& forall|r1: int, r2: int| 0 <= r1 < r2 < sorted.len() ==> sorted[r1] != sorted[r2]
    &&& forall|x: int| 0 <= x < ps.len() && #[trigger] vis[x] && !sorted.contains(x as usize) ==> stack.contains(x)
    &&& forall|t: int| 0 <= t < stack.len() ==> 0 <= #[trigger] stack[t] < ps.len() && vis[stack[t]]
        && !sorted.contains(stack[t] as usize)
    &&& is_walk(ps, stack)
    &&& acyclic(ps) ==> deps_first(ps, sorted.map_values(|x: usize| x as int))
}

fn visit(ps: &Vec<Phase>, i: usize, visited: &mut Vec<bool>, sorted: &mut Vec<usize>, Ghost(stack): Ghost<Seq<int>>, Ghost(budget): Ghost<int>)
    requires
        budget == ps@.len() - count_true(old(visited)@),
        i < ps@.len(),
        !old(visited)@[i as int],
        dfs_inv(views(ps@), old(visited)@, old(sorted)@, stack),
        stack.len() > 0 ==> depends(views(ps@), stack.last(), i as int),
    ensures
        final(visited)@.len() == old(visited)@.len(),
        final(visited)@[i as int],
        forall|x: int| 0 <= x < old(visited)@.len() && old(visited)@[x] ==> final(visited)@[x],
        old(sorted)@.len() <= final(sorted)@.len(),
        final(sorted)@.take(old(sorted)@.len() as int) == old(sorted)@,
        dfs_inv(views(ps@), final(visited)@, final(sorted)@, stack),
    decreases budget,
{
    let ghost pv = views(ps@);
    let n = ps.len();
    let ghost v0 = visited@;
    let ghost s0 = sorted@;
    proof {
        lemma_count_le_len(v0);
        lemma_count_set(v0, i as int);
        lemma_count_le_len(v0.update(i as int, true));
    }
    visited.set(i, true);
    let ghost st2 = stack.push(i as int);
    proof {
        assert(!s0.contains(i)) by {
            if s0.contains(i) {
                let r = choose|r: int| 0 <= r < s0.len() && s0[r] == i;
                assert(v0[s0[r] as int]);
            }
        }
        assert forall|t: int| 0 <= t < st2.len() - 1 implies #[trigger] depends(pv, st2[t], st2[t + 1]) by {
            if t < st2.len() - 2 {
                assert(depends(pv, stack[t], stack[t + 1]));
            }
        }
        assert forall|x: int| 0 <= x < pv.len() && #[trigger] visited@[x] && !sorted@.contains(x as usize) implies st2.contains(x) by {
            if x != i {
                assert(v0[x]);
                assert(stack.contains(x));
                let t = choose|t: int| 0 <= t < stack.len() && stack[t] == x;
                assert(st2[t] == x);
            } else {
                assert(st2[st2.len() - 1] == x);
            }
        }
        assert(dfs_inv(pv, visited@, sorted@, st2));
    }
    let n_deps = ps[i].depends_on.len();
    let mut d: usize = 0;
    while d < n_deps
        invariant
            pv == views(ps@),
            n == ps@.len(),
            i < ps@.len(),
            n_deps == pv[i as int].depends_on.len(),
            d <= n_deps,
            st2 == stack.push(i as int),
            visited@.len() == v0.len(),
            visited@[i as int],
            forall|x: int| 0 <= x < v0.len() && v0[x] ==> visited@[x],
            s0.len() <= sorted@.len(),
            sorted@.take(s0.len() as int) == s0,
            !sorted@.contains(i),
            dfs_inv(pv, visited@, sorted@, st2),
            forall|dd: int| 0 <= dd < d ==> {
                let b = #[trigger] first_index(pv, pv[i as int].depends_on[dd]);
                b >= 0 ==> visited@[b]
            },
            count_true(v0) + 1 <= count_true(visited@),
            budget == ps@.len() - count_true(v0),
            count_true(visited@) <= ps@.len(),
        decreases n_deps - d,
    {
        let dep = ps[i].depends_on[d];
        let ghost v_iter = visited@;
        proof { assert(dep == pv[i as int].depends_on[d as int]); }
        match find_index(ps, dep) {
            Some(j) => {
                proof { lemma_first_index_range(pv, dep); }
                if !visited[j] {
                    proof {
                        assert(depends(pv, i as int, j as int));
                        assert(st2.last() == i);
                    }
                    let ghost s1 = sorted@;
                    let ghost v1 = visited@;
                    visit(ps, j, visited, sorted, Ghost(st2), Ghost(ps@.len() - count_true(visited@)));
                    proof {
                        assert(sorted@.take(s0.len() as int) =~= s1.take(s0.len() as int));
                        assert(!sorted@.contains(i)) by {
                            assert(st2[st2.len() - 1] == i as int);
                        }
                        lemma_count_mono(v1, visited@);
                        lemma_count_le_len(visited@);
                    }
                }
            }
            None => {}
        }
        proof {
            assert forall|dd: int| 0 <= dd < d + 1 implies {
                let b = #[trigger] first_index(pv, pv[i as int].depends_on[dd]);
                b >= 0 ==> visited@[b]
            } by {
                lemma_first_index_range(pv, pv[i as int].depends_on[dd]);
                let b = first_index(pv, pv[i as int].depends_on[dd]);
                if dd < d && b >= 0 {
                    assert(v_iter[b]);
                }
            }
        }
        d = d + 1;
    }
    let ghost s_before = sorted@;
    sorted.push(i);
    proof {
        let sv = sorted@;
        assert(sv.take(s0.len() as int) =~= s0);
        // the stack, without `i`, still accounts for the open phases
        assert forall|t: int| 0 <= t < stack.len() implies 0 <= #[trigger] stack[t] < pv.len() && visited@[stack[t]]
            && !sv.contains(stack[t] as usize) by {
            assert(st2[t] == stack[t]);
            assert(v0[stack[t]]);
            assert(stack[t] != i);
            assert(0 <= stack[t] < n);
            assert(!s_before.contains(st2[t] as usize));
            if sv.contains(stack[t] as usize) {
                let r = choose|r: int| 0 <= r < sv.len() && sv[r] == stack[t] as usize;
                if r < s_before.len() {
                    assert(s_before[r] == sv[r]);
                    assert(s_before.contains(stack[t] as usize));
                } else {
                    assert(sv[r] == i);
                }
            }
        }
        assert forall|x: int| 0 <= x < pv.len() && #[trigger] visited@[x] && !sv.contains(x as usize) implies stack.contains(x) by {
            assert(!s_before.contains(x as usize)) by {
                if s_before.contains(x as usize) {
                    let r = choose|r: int| 0 <= r < s_before.len() && s_before[r] == x as usize;
                    assert(sv[r] == x as usize);
                }
            }
            assert(st2.contains(x));
            let t = choose|t: int| 0 <= t < st2.len() && st2[t] == x;
            assert(x != i) by {
                assert(sv[sv.len() - 1] == i);
            }
            assert(t < stack.len());
            assert(stack[t] == x);
        }
        assert forall|r1: int, r2: int| 0 <= r1 < r2 < sv.len() implies sv[r1] != sv[r2] by {
            if r2 == sv.len() - 1 {
                assert(s_before[r1] == sv[r1]);
                assert(s_before.contains(sv[r1]));
            }
        }
        if acyclic(pv) {
            let ov = sv.map_values(|x: usize| x as int);
            let ob = s_before.map_values(|x: usize| x as int);
            assert forall|q: int, b: int| 0 <= q < ov.len() && #[trigger] depends(pv, ov[q], b)
                implies exists|r: int| 0 <= r < q && ov[r] == b by {
                if q < ov.len() - 1 {
                    assert(ob[q] == ov[q]);
                    assert(depends(pv, ob[q], b));
                    let r = choose|r: int| 0 <= r < q && ob[r] == b;
                    assert(ov[r] == b);
                } else {
                    assert(ov[q] == i as int);
                    let dd = choose|dd: int| 0 <= dd < pv[i as int].depends_on.len()
                        && first_index(pv, pv[i as int].depends_on[dd]) == b;
                    assert(visited@[b]);
                    lemma_first_index_range(pv, pv[i as int].depends_on[dd]);
                    assert(0 <= b < n);
                    if s_before.contains(b as usize) {
                        let r = choose|r: int| 0 <= r < s_before.len() && s_before[r] == b as usize;
                        assert(sv[r] == s_before[r]);
                        assert(ov[r] == b);
                    } else {
                        assert(st2.contains(b));
                        let t = choose|t: int| 0 <= t < st2.len() && st2[t] == b;
                        assert(st2.last() == i as int);
                        lemma_cycle(pv, st2, t, b);
                    }
                }
            }
        }
    }
}

/// Some phase of `ps` with id `id` is complete.
pub open spec fn completed_in(ps: Seq<PhaseView>, id: i64) -> bool {
    exists|q: int| 0 <= q < ps.len() && ps[q].id == id && ps[q].status == PhaseStatus::Complete
}

/// Every dependency of `p` names a completed phase of `ps`.
pub open spec fn deps_satisfied(ps: Seq<PhaseView>, p: PhaseView) -> bool {
    forall|d: int| 0 <= d < p.depends_on.len() ==> #[trigger] completed_in(ps, p.depends_on[d])
}

/// A phase can be worked on: it is neither complete nor deprioritized, and
/// all of its dependencies are complete.
pub open spec fn actionable(ps: Seq<PhaseView>) -> spec_fn(PhaseView) -> bool {
    |p: PhaseView| p.status != PhaseStatus::Complete && p.status != PhaseStatus::Deprioritized
        && deps_satisfied(ps, p)
}

/// `a` ranks no lower than `b`: higher impact first, then earlier creation.
pub open spec fn ranks_le(a: PhaseView, b: PhaseView) -> bool {
    a.impact > b.impact || (a.impact == b.impact && a.id <= b.id)
}

/// `a` ranks strictly above `b`.
pub open spec fn ranks_lt(a: PhaseView, b: PhaseView) -> bool {
    a.impact > b.impact || (a.impact == b.impact && a.id < b.id)
}

/// The phases are listed by impact, highest first, ties in creation order.
pub open spec fn impact_ranked(s: Seq<PhaseView>) -> bool {
    forall|i: int, j: int| 0 <= i < j < s.len() ==> ranks_le(#[trigger] s[i], #[trigger] s[j])
}

/// `out` is the actionable phases of `ps`, ranked by impact.
pub open spec fn next_phases_of(ps: Seq<PhaseView>, out: Seq<PhaseView>) -> bool {
    &&& out.to_multiset() == ps.filter(actionable(ps)).to_multiset()
    &&& impact_ranked(out)
}

/// Whether every dependency of `p` is a completed phase of `ps`.
fn deps_done(ps: &Vec<Phase>, p: &Phase) -> (res: bool)
    ensures
        res == deps_satisfied(views(ps@), p@),
{
    let ghost pv = views(ps@);
    let mut d: usize = 0;
    while d < p.depends_on.len()
        invariant
            pv == views(ps@),
            d <= p.depends_on@.len(),
            forall|dd: int| 0 <= dd < d ==> #[trigger] completed_in(pv, p.depends_on@[dd]),
        decreases p.depends_on@.len() - d,
    {
        let dep = p.depends_on[d];
        let mut found = false;
        let mut q: usize = 0;
        while q < ps.len() && !found
            invariant
                pv == views(ps@),
                q <= ps@.len(),
                found ==> exists|qq: int| 0 <= qq < pv.len() && pv[qq].id == dep && pv[qq].status == PhaseStatus::Complete,
                !found ==> forall|qq: int| 0 <= qq < q ==> !(pv[qq].id == dep && pv[qq].status == PhaseStatus::Complete),
            decreases ps@.len() - q,
        {
            if ps[q].id == dep && ps[q].status == PhaseStatus::Complete {
                proof { assert(pv[q as int].id == dep); }
                found = true;
            }
            q = q + 1;
        }
        if !found {
            proof {
                assert(p@.depends_on[d as int] == dep);
                assert(!completed_in(pv, dep));
            }
            return false;
        }
        proof {
            assert(completed_in(pv, p.depends_on@[d as int]));
        }
        d = d + 1;
    }
    true
}

/// Inserts `x` into the ranked list `out` just before the first phase it
/// ranks strictly above.
fn insert_ranked(out: &mut Vec<Phase>, x: Phase)
    requires
        impact_ranked(views(old(out)@)),
    ensures
        impact_ranked(views(final(out)@)),
        views(final(out)@).to_multiset() == views(old(out)@).to_multiset().insert(x@),
{
    let ghost o = views(out@);
    let mut pos: usize = 0;
    let mut stop = false;
    while pos < out.len() && !stop
        invariant
            o == views(out@),
            pos <= out@.len(),
            stop ==> pos < out@.len() && ranks_lt(x@, o[pos as int]),
            forall|k: int| 0 <= k < pos ==> !ranks_lt(x@, #[trigger] o[k]),
        decreases (out@.len() - pos) * 2 + (if stop { 0int } else { 1int }),
    {
        if x.impact > out[pos].impact || (x.impact == out[pos].impact && x.id < out[pos].id) {
            proof { assert(ranks_lt(x@, o[pos as int])); }
            stop = true;
        } else {
            pos = pos + 1;
        }
    }
    let ghost xv = x@;
    out.insert(pos, x);
    proof {
        let nv = views(out@);
        assert(nv =~= o.insert(pos as int, xv));
        vstd::seq_lib::to_multiset_insert(o, pos as int, xv);
        assert forall|i: int, j: int| 0 <= i < j < nv.len() implies ranks_le(#[trigger] nv[i], #[trigger] nv[j]) by {
            if j < pos {
                assert(nv[i] == o[i] && nv[j] == o[j]);
            } else if j == pos {
                assert(nv[i] == o[i]);
                assert(!ranks_lt(xv, o[i]));
            } else if i == pos {
                assert(nv[j] == o[j - 1]);
                assert(nv[i] == xv);
                assert(stop);
                if j - 1 > pos {
                    assert(ranks_le(o[pos as int], o[j - 1]));
                }
            } else if i < pos {
                assert(nv[i] == o[i] && nv[j] == o[j - 1]);
            } else {
                assert(nv[i] == o[i - 1] && nv[j] == o[j - 1]);
            }
        }
    }
}

/// The run of failed or inconclusive experiments at the newest end of `es`
/// (creation order), passing over pending ones and stopped by a pass.
pub open spec fn fail_streak(es: Seq<Experiment>) -> nat
    decreases es.len(),
{
    if es.len() == 0 {
        0
    } else {
        match es.last().status {
            ExperimentStatus::Fail | ExperimentStatus::Inconclusive => fail_streak(es.drop_last()) + 1,
            ExperimentStatus::Pending => fail_streak(es.drop_last()),
            ExperimentStatus::Pass => 0,
        }
    }
}

/// `out` lists the phases `ps`, each exactly once, and (when no phase
/// reaches itself through its dependencies) every phase after the phases it
/// depends on.
pub open spec fn topologically_sorted(ps: Seq<PhaseView>, out: Seq<PhaseView>) -> bool {
    exists|perm: Seq<int>| #![trigger is_permutation(perm, ps.len())] {
        &&& is_permutation(perm, ps.len())
        &&& out == perm.map_values(|k: int| ps[k])
        &&& (acyclic(ps) ==> deps_first(ps, perm))
    }
}

/// The DAG engine over the phases of one project of a store.
pub struct DagEngine<'a> {
    store: &'a Store,
    project_id: i64,
}

impl<'a> DagEngine<'a> {
    /// The store the engine reads.
    pub closed spec fn store_view(&self) -> StoreView {
        self.store@
    }

    /// The project whose phases the engine orders.
    pub closed spec fn project(&self) -> i64 {
        self.project_id
    }

    /// The phases of the engine's project, in creation order.
    pub open spec fn phases(&self) -> Seq<PhaseView> {
        self.store_view().phases_of(self.project())
    }

    pub fn new(store: &'a Store, project_id: i64) -> (d: Self)
        ensures
            d.store_view() == store@,
            d.project() == project_id,
    {
        Self { store, project_id }
    }

    /// The actionable phases (neither complete nor deprioritized, every
    /// dependency complete), highest impact first.
    pub fn next_phases(&self) -> (res: crate::store::Result<Vec<Phase>>)
        ensures
            res matches Ok(v) && next_phases_of(self.phases(), views(v@)),
    {
        let ps = match self.store.list_phases(self.project_id) {
            Ok(v) => v,
            Err(e) => return Err(e),
        };
        let ghost pv = views(ps@);
        let ghost pred = actionable(pv);
        let mut out: Vec<Phase> = Vec::new();
        let mut i: usize = 0;
        while i < ps.len()
            invariant
                pv == views(ps@),
                pred == actionable(pv),
                i <= ps@.len(),
                impact_ranked(views(out@)),
                views(out@).to_multiset() == pv.take(i as int).filter(pred).to_multiset(),
            decreases ps@.len() - i,
        {
            proof {
                assert(pv.take(i + 1) =~= pv.take(i as int).push(pv[i as int]));
                pv.take(i as int).lemma_filter_push(pv[i as int], pred);
            }
            let p = &ps[i];
            if p.status != PhaseStatus::Complete && p.status != PhaseStatus::Deprioritized && deps_done(&ps, p) {
                let ghost before = views(out@);
                insert_ranked(&mut out, p.dup());
                proof {
                    vstd::seq_lib::to_multiset_build(pv.take(i as int).filter(pred), pv[i as int]);
                }
            }
            i = i + 1;
        }
        proof {
            assert(pv.take(i as int) =~= pv);
            assert(pv == self.phases());
        }
        Ok(out)
    }

    /// The experiments of the engine's project, in creation order.
    pub open spec fn experiments(&self) -> Seq<Experiment> {
        self.store_view().experiments.filter(crate::store::experiment_of_project(self.store_view(), self.project()))
    }

    /// Stagnation: the number of consecutive failed or inconclusive
    /// experiments, newest first and passing over pending ones, when it
    /// reaches `threshold`.
    pub fn stagnation_check(&self, threshold: usize) -> (res: crate::store::Result<Option<usize>>)
        ensures
            res matches Ok(r) && r == (if fail_streak(self.experiments()) >= threshold {
                Some(fail_streak(self.experiments()) as usize)
            } else {
                None::<usize>
            }),
    {
        let es = match self.store.list_project_experiments(self.project_id) {
            Ok(v) => v,
            Err(e) => return Err(e),
        };
        let mut consecutive_fails: usize = 0;
        let n = es.len();
        let mut i = n;
        let mut stopped = false;
        while i > 0 && !stopped
            invariant
                n == es@.len(),
                i <= es@.len(),
                consecutive_fails <= es@.len() - i,
                stopped ==> fail_streak(es@) == consecutive_fails,
                !stopped ==> fail_streak(es@) == consecutive_fails + fail_streak(es@.take(i as int)),
            decreases i,
        {
            proof { assert(es@.take(i as int).drop_last() =~= es@.take(i - 1)); }
            match es[i - 1].status {
                ExperimentStatus::Fail | ExperimentStatus::Inconclusive => {
                    consecutive_fails = consecutive_fails + 1;
                }
                ExperimentStatus::Pending => {}
                ExperimentStatus::Pass => {
                    stopped = true;
                }
            }
            i = i - 1;
        }
        proof {
            if !stopped {
                assert(es@.take(0) =~= Seq::<Experiment>::empty());
            }
        }
        if consecutive_fails >= threshold {
            Ok(Some(consecutive_fails))
        } else {
            Ok(None)
        }
    }

    /// The phases in topological order (dependencies before dependents),
    /// found by a depth-first walk from each phase in creation order.
    pub fn topological_sort(&self) -> (res: crate::store::Result<Vec<Phase>>)
        ensures
            res matches Ok(v) && topologically_sorted(self.phases(), views(v@)),
    {
        let ps = match self.store.list_phases(self.project_id) {
            Ok(v) => v,
            Err(e) => return Err(e),
        };
        let ghost pv = views(ps@);
        let n = ps.len();
        let mut visited: Vec<bool> = Vec::new();
        let mut k: usize = 0;
        while k < n
            invariant
                n == ps@.len(),
                k <= n,
                visited@.len() == k,
                forall|x: int| 0 <= x < k ==> !visited@[x],
            decreases n - k,
        {
            visited.push(false);
            k = k + 1;
        }
        let mut sorted: Vec<usize> = Vec::new();
        proof {
            assert forall|x: int| 0 <= x < pv.len() && #[trigger] visited@[x] && !sorted@.contains(x as usize)
                implies Seq::<int>::empty().contains(x) by {}
            assert(sorted@.map_values(|x: usize| x as int) =~= Seq::<int>::empty());
        }
        let mut i: usize = 0;
        while i < n
            invariant
                pv == views(ps@),
                n == ps@.len(),
                i <= n,
                dfs_inv(pv, visited@, sorted@, Seq::<int>::empty()),
                forall|x: int| 0 <= x < i ==> visited@[x],
            decreases n - i,
        {
            if !visited[i] {
                let ghost v1 = visited@;
                proof { lemma_count_le_len(visited@); }
                visit(&ps, i, &mut visited, &mut sorted, Ghost(Seq::<int>::empty()), Ghost(ps@.len() - count_true(v1)));
                proof {
                    assert forall|x: int| 0 <= x < i + 1 implies visited@[x] by {
                        if x < i {
                            assert(v1[x]);
                        }
                    }
                }
            }
            i = i + 1;
        }
        let mut out: Vec<Phase> = Vec::new();
        let mut q: usize = 0;
        let ghost perm = sorted@.map_values(|x: usize| x as int);
        while q < sorted.len()
            invariant
                pv == views(ps@),
                n == ps@.len(),
                q <= sorted@.len(),
                perm == sorted@.map_values(|x: usize| x as int),
                dfs_inv(pv, visited@, sorted@, Seq::<int>::empty()),
                views(out@) == perm.take(q as int).map_values(|k: int| pv[k]),
            decreases sorted@.len() - q,
        {
            let k = sorted[q];
            let r = ps[k].dup();
            let ghost before = out@;
            out.push(r);
            proof {
                assert(views(out@) =~= views(before).push(r@));
                assert(perm.take(q + 1) =~= perm.take(q as int).push(perm[q as int]));
                assert(perm.take(q + 1).map_values(|k: int| pv[k]) =~= perm.take(q as int).map_values(|k: int| pv[k]).push(pv[perm[q as int]]));
            }
            q = q + 1;
        }
        proof {
            assert(perm.take(q as int) =~= perm);
            assert forall|x: int| 0 <= x < pv.len() implies #[trigger] perm.contains(x) by {
                assert(visited@[x]);
                if !sorted@.contains(x as usize) {
                    assert(Seq::<int>::empty().contains(x));
                }
                let r = choose|r: int| 0 <= r < sorted@.len() && sorted@[r] == x as usize;
                assert(perm[r] == x);
            }
            assert(views(ps@) == self.phases());
            assert(is_permutation(perm, pv.len()));
            assert(views(out@) == perm.map_values(|k: int| pv[k]));
            let ph = self.phases();
            assert(views(out@) =~= perm.map_values(|k: int| ph[k]));
            assert(acyclic(ph) ==> deps_first(ph, perm));
            assert(is_permutation(perm, ph.len()));
            assert(topologically_sorted(self.phases(), views(out@)));
        }
        Ok(out)
    }
}


/// Every phase that the next-phase ranking lists can be worked on: it is
/// neither complete nor deprioritized, and each of its dependencies is a
/// completed phase.
pub proof fn law_next_phases_are_actionable(ps: Seq<PhaseView>, out: Seq<PhaseView>, i: int)
    requires
        next_phases_of(ps, out),
        0 <= i < out.len(),
    ensures
        out[i].status != PhaseStatus::Complete,
        out[i].status != PhaseStatus::Deprioritized,
        deps_satisfied(ps, out[i]),
{
    broadcast use vstd::seq_lib::group_to_multiset_ensures;
    let f = ps.filter(actionable(ps));
    assert(out.contains(out[i]));
    assert(out.to_multiset().count(out[i]) > 0);
    assert(f.to_multiset().count(out[i]) > 0);
    assert(f.contains(out[i]));
    let k = choose|k: int| 0 <= k < f.len() && f[k] == out[i];
    ps.filter_lemma(actionable(ps));
    assert(actionable(ps)(f[k]));
}

/// The stagnation streak grows by one with every newer experiment that
/// failed or was inconclusive, stays as it was over a pending one, and a
/// passed experiment ends it.
pub proof fn law_streak_counts_failed_and_inconclusive(es: Seq<Experiment>, e: Experiment)
    ensures
        e.status == ExperimentStatus::Fail ==> fail_streak(es.push(e)) == fail_streak(es) + 1,
        e.status == ExperimentStatus::Inconclusive ==> fail_streak(es.push(e)) == fail_streak(es) + 1,
        e.status == ExperimentStatus::Pending ==> fail_streak(es.push(e)) == fail_streak(es),
        e.status == ExperimentStatus::Pass ==> fail_streak(es.push(e)) == 0,
{
    assert(es.push(e).drop_last() =~= es);
}

/// Experiments that all failed or were inconclusive form one streak as long
/// as the list.
pub proof fn law_streak_of_unbroken_failures(es: Seq<Experiment>)
    requires
        forall|i: int| 0 <= i < es.len() ==> (#[trigger] es[i]).status == ExperimentStatus::Fail
            || es[i].status == ExperimentStatus::Inconclusive,
    ensures
        fail_streak(es) == es.len(),
    decreases es.len(),
{
    if es.len() > 0 {
        law_streak_of_unbroken_failures(es.drop_last());
        law_streak_counts_failed_and_inconclusive(es.drop_last(), es.last());
        assert(es.drop_last().push(es.last()) =~= es);
    }
}

} // verus!
