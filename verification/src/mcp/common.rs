//! What the tools share: resolving a project by name or alias, rendering
//! store errors, the validation messages, and the causal-links section.
use vstd::prelude::*;
use crate::store::{Store, StoreView, StoreError, Project, Edge, NodeType, EdgeType, has_room};
use crate::text::{seq_contains, occurs_at, str_eq, push_str, push_usize, push_i64, dec_nat, dec_int, prefix, take_chars};

verus! {

broadcast use vstd::seq_lib::group_seq_properties;

/// How a store error reads in a tool's answer.
pub open spec fn error_text(e: StoreError) -> Seq<char> {
    match e {
        StoreError::NotFound => "Query returned no rows"@,
        StoreError::Constraint => "FOREIGN KEY constraint failed"@,
        StoreError::Capacity => "table is full"@,
        StoreError::Invalid => "invalid request"@,
    }
}

/// How a store error reads in a tool's answer.
pub fn error_str(e: StoreError) -> (s: &'static str)
    ensures
        s@ == error_text(e),
{
    match e {
        StoreError::NotFound => "Query returned no rows",
        StoreError::Constraint => "FOREIGN KEY constraint failed",
        StoreError::Capacity => "table is full",
        StoreError::Invalid => "invalid request",
    }
}

/// Project `p` answers to `name`, by its name or by its alias.
pub open spec fn answers_to(p: Project, name: Seq<char>) -> bool {
    p.name@ == name || (p.alias matches Some(a) && a@ == name)
}

/// The first of `ps` that answers to `name`.
pub open spec fn first_named(ps: Seq<Project>, name: Seq<char>) -> Option<Project>
    decreases ps.len(),
{
    if ps.len() == 0 {
        None
    } else if answers_to(ps[0], name) {
        Some(ps[0])
    } else {
        first_named(ps.drop_first(), name)
    }
}

/// The project that answers to `name` in store `v`: the first one, in
/// creation order.
pub open spec fn project_named(v: StoreView, name: Seq<char>) -> Option<Project> {
    first_named(v.projects, name)
}

proof fn lemma_first_named_split(ps: Seq<Project>, name: Seq<char>, i: int)
    requires
        0 <= i <= ps.len(),
        forall|k: int| 0 <= k < i ==> !answers_to(#[trigger] ps[k], name),
    ensures
        first_named(ps, name) == first_named(ps.subrange(i, ps.len() as int), name),
    decreases i,
{
    if i > 0 {
        assert(!answers_to(ps[0], name));
        assert forall|k: int| 0 <= k < i - 1 implies !answers_to(#[trigger] ps.drop_first()[k], name) by {
            assert(ps.drop_first()[k] == ps[k + 1]);
        }
        lemma_first_named_split(ps.drop_first(), name, i - 1);
        assert(ps.drop_first().subrange(i - 1, ps.len() - 1) =~= ps.subrange(i, ps.len() as int));
    } else {
        assert(ps.subrange(0, ps.len() as int) =~= ps);
    }
}

/// The project that answers to `name`, if any.
pub fn find_project(store: &Store, name: &str) -> (r: Option<Project>)
    requires
        store.wf(),
    ensures
        r == project_named(store@, name@),
        r matches Some(p) ==> store@.project(p.id) == Some(p),
{
    let ps = match store.list_projects() {
        Ok(ps) => ps,
        Err(_) => Vec::new(),
    };
    let ghost v = store@;
    let mut i: usize = 0;
    while i < ps.len()
        invariant
            ps@ == v.projects,
            v == store@,
            v.wf(),
            i <= ps@.len(),
            forall|k: int| 0 <= k < i ==> !answers_to(#[trigger] ps@[k], name@),
        decreases ps@.len() - i,
    {
        let hit = str_eq(ps[i].name.as_str(), name) || match &ps[i].alias {
            Some(a) => str_eq(a.as_str(), name),
            None => false,
        };
        if hit {
            proof {
                lemma_first_named_split(ps@, name@, i as int);
                assert(ps@.subrange(i as int, ps@.len() as int)[0] == ps@[i as int]);
                assert(v.projects[i as int].id == i + 1);
            }
            return Some(ps[i].dup());
        }
        i = i + 1;
    }
    proof {
        lemma_first_named_split(ps@, name@, i as int);
        assert(ps@.subrange(i as int, ps@.len() as int) =~= Seq::<Project>::empty());
    }
    None
}

/// The heading of every validation error.
pub open spec fn validation_heading() -> Seq<char> {
    "\u{274c} VALIDATION ERROR:\n"@
}

/// The line that reports a field shorter than its minimum.
pub open spec fn too_short(field: Seq<char>, n: nat, min: nat) -> Seq<char> {
    "  - "@ + field + ": "@ + dec_nat(n) + " chars ("@ + dec_nat(min) + " required)\n"@
}

/// Appends the line that reports a field shorter than its minimum.
pub fn push_too_short(out: &mut String, field: &str, n: usize, min: usize)
    ensures
        final(out)@ == old(out)@ + too_short(field@, n as nat, min as nat),
{
    push_str(out, "  - ");
    push_str(out, field);
    push_str(out, ": ");
    push_usize(out, n);
    push_str(out, " chars (");
    push_usize(out, min);
    push_str(out, " required)\n");
    proof {
        assert(final(out)@ =~= old(out)@ + too_short(field@, n as nat, min as nat));
    }
}

/// The lines of a list of auto-created links.
pub open spec fn created_lines(items: Seq<Seq<char>>) -> Seq<char>
    decreases items.len(),
{
    if items.len() == 0 {
        Seq::empty()
    } else {
        created_lines(items.drop_last()) + "  + "@ + items.last() + "\n"@
    }
}

/// The lines of a list of suggested links, each a description and a command.
pub open spec fn suggestion_lines(items: Seq<(Seq<char>, Seq<char>)>) -> Seq<char>
    decreases items.len(),
{
    if items.len() == 0 {
        Seq::empty()
    } else {
        suggestion_lines(items.drop_last()) + "  \u{2192} "@ + items.last().0 + ": "@ + items.last().1 + "\n"@
    }
}

/// The causal-links section: nothing when there is nothing to list,
/// otherwise a heading, the links made, and the links suggested.
pub open spec fn guidance(auto: Seq<Seq<char>>, sugg: Seq<(Seq<char>, Seq<char>)>) -> Seq<char> {
    if auto.len() == 0 && sugg.len() == 0 {
        Seq::empty()
    } else {
        "\n\n=== Causal Links ===\n"@
            + (if auto.len() > 0 { "Auto-created:\n"@ + created_lines(auto) } else { Seq::empty() })
            + (if sugg.len() > 0 { "Suggested (specify if applicable):\n"@ + suggestion_lines(sugg) } else { Seq::empty() })
    }
}

/// The views of a list of strings.
pub open spec fn views(v: Seq<String>) -> Seq<Seq<char>> {
    v.map_values(|s: String| s@)
}

/// The views of a list of pairs of strings.
pub open spec fn pair_views(v: Seq<(String, String)>) -> Seq<(Seq<char>, Seq<char>)> {
    v.map_values(|p: (String, String)| (p.0@, p.1@))
}

/// Appends the causal-links section to `out`.
pub fn push_guidance(out: &mut String, auto: &Vec<String>, sugg: &Vec<(String, String)>)
    ensures
        final(out)@ == old(out)@ + guidance(views(auto@), pair_views(sugg@)),
{
    let ghost a = views(auto@);
    let ghost g = pair_views(sugg@);
    if auto.len() == 0 && sugg.len() == 0 {
        proof { assert(old(out)@ + guidance(a, g) =~= old(out)@); }
        return;
    }
    push_str(out, "\n\n=== Causal Links ===\n");
    let ghost mid = out@;
    if auto.len() > 0 {
        push_str(out, "Auto-created:\n");
        let ghost base = out@;
        let mut i: usize = 0;
        while i < auto.len()
            invariant
                i <= auto@.len(),
                a == views(auto@),
                out@ == base + created_lines(a.take(i as int)),
            decreases auto@.len() - i,
        {
            push_str(out, "  + ");
            push_str(out, auto[i].as_str());
            push_str(out, "\n");
            proof {
                assert(a.take(i + 1).drop_last() =~= a.take(i as int));
                assert(out@ =~= base + created_lines(a.take(i + 1)));
            }
            i = i + 1;
        }
        proof { assert(a.take(i as int) =~= a); }
    }
    let ghost mid2 = out@;
    if sugg.len() > 0 {
        push_str(out, "Suggested (specify if applicable):\n");
        let ghost base = out@;
        let mut i: usize = 0;
        while i < sugg.len()
            invariant
                i <= sugg@.len(),
                g == pair_views(sugg@),
                out@ == base + suggestion_lines(g.take(i as int)),
            decreases sugg@.len() - i,
        {
            push_str(out, "  \u{2192} ");
            push_str(out, sugg[i].0.as_str());
            push_str(out, ": ");
            push_str(out, sugg[i].1.as_str());
            push_str(out, "\n");
            proof {
                assert(g.take(i + 1).drop_last() =~= g.take(i as int));
                assert(out@ =~= base + suggestion_lines(g.take(i + 1)));
            }
            i = i + 1;
        }
        proof { assert(g.take(i as int) =~= g); }
    }
    proof {
        assert(out@ =~= old(out)@ + guidance(a, g));
    }
}

/// The edge that link `l` adds as the next edge of store `v`.
pub open spec fn link_edge(v: StoreView, l: (NodeType, i64, NodeType, i64, EdgeType)) -> Edge {
    Edge { id: (v.edges.len() + 1) as i64, source_type: l.0, source_id: l.1, target_type: l.2, target_id: l.3, relation: l.4 }
}

/// Store `v` after an attempt to add the edge of link `l`: the store adds
/// it unless its edge table is full.
pub open spec fn try_link(v: StoreView, l: (NodeType, i64, NodeType, i64, EdgeType)) -> StoreView {
    if has_room(v.edges.len()) {
        v.with_edges(v.edges.push(link_edge(v, l)))
    } else {
        v
    }
}

/// Store `v` after attempts to add the edges of `ls`, in order.
pub open spec fn try_links(v: StoreView, ls: Seq<(NodeType, i64, NodeType, i64, EdgeType)>) -> StoreView
    decreases ls.len(),
{
    if ls.len() == 0 {
        v
    } else {
        try_link(try_links(v, ls.drop_last()), ls.last())
    }
}

/// The line that reports the edge of link `l`, its source written as
/// `src` (its type's name, or an abbreviation).
pub open spec fn link_line(src: Seq<char>, l: (NodeType, i64, NodeType, i64, EdgeType)) -> Seq<char> {
    src + "#"@ + dec_int(l.1 as int) + " --"@ + l.4.spec_name() + "--> "@ + l.2.spec_name() + "#"@ + dec_int(l.3 as int)
}

/// Adds the edge of link `l` to the store; on success its line (with the
/// source written as `src`) joins `auto`, and on refusal `out` gets a note
/// made of `open`, the error and `close`.
pub fn link(store: &mut Store, l: (NodeType, i64, NodeType, i64, EdgeType), src: &str, auto: &mut Vec<String>,
    out: &mut String, open: &str, close: &str)
    requires
        old(store).wf(),
    ensures
        final(store).wf(),
        final(store)@ == try_link(old(store)@, l),
        has_room(old(store)@.edges.len()) ==> views(final(auto)@) == views(old(auto)@).push(link_line(src@, l))
            && final(out)@ == old(out)@,
        !has_room(old(store)@.edges.len()) ==> views(final(auto)@) == views(old(auto)@)
            && final(out)@ == old(out)@ + open@ + error_text(StoreError::Capacity) + close@,
{
    match store.create_edge(l.0, l.1, l.2, l.3, l.4) {
        Ok(e) => {
            let mut line = String::new();
            push_str(&mut line, src);
            push_str(&mut line, "#");
            push_i64(&mut line, l.1);
            push_str(&mut line, " --");
            push_str(&mut line, l.4.name());
            push_str(&mut line, "--> ");
            push_str(&mut line, l.2.name());
            push_str(&mut line, "#");
            push_i64(&mut line, l.3);
            proof {
                assert(line@ =~= link_line(src@, l));
                assert(e == link_edge(old(store)@, l));
            }
            let ghost before = auto@;
            auto.push(line);
            proof {
                assert(views(auto@) =~= views(before).push(link_line(src@, l)));
            }
        },
        Err(e) => {
            push_str(out, open);
            push_str(out, error_str(e));
            push_str(out, close);
        },
    }
}

/// Attempting the links of `a` and then those of `b` is attempting those
/// of `a + b`.
pub proof fn lemma_try_links_append(v: StoreView, a: Seq<(NodeType, i64, NodeType, i64, EdgeType)>,
    b: Seq<(NodeType, i64, NodeType, i64, EdgeType)>)
    ensures
        try_links(v, a + b) == try_links(try_links(v, a), b),
    decreases b.len(),
{
    if b.len() == 0 {
        assert(a + b =~= a);
    } else {
        assert((a + b).drop_last() =~= a + b.drop_last());
        lemma_try_links_append(v, a, b.drop_last());
    }
}

/// Attempting one link.
pub proof fn lemma_try_links_one(v: StoreView, l: (NodeType, i64, NodeType, i64, EdgeType))
    ensures
        try_links(v, seq![l]) == try_link(v, l),
{
    let one = seq![l];
    assert(one.drop_last() =~= Seq::<(NodeType, i64, NodeType, i64, EdgeType)>::empty());
    assert(one.last() == l);
    assert(try_links(v, one.drop_last()) == v);
}

/// Attempting one more link.
pub proof fn lemma_try_links_push(v: StoreView, ls: Seq<(NodeType, i64, NodeType, i64, EdgeType)>,
    l: (NodeType, i64, NodeType, i64, EdgeType))
    ensures
        try_links(v, ls.push(l)) == try_link(try_links(v, ls), l),
{
    assert(ls.push(l).drop_last() =~= ls);
}

/// Attempting links changes nothing but the edges, and adds at most one
/// edge per link; with room for them all, it adds exactly one per link.
pub proof fn lemma_try_links_len(v: StoreView, ls: Seq<(NodeType, i64, NodeType, i64, EdgeType)>)
    ensures
        try_links(v, ls).edges.len() <= v.edges.len() + ls.len(),
        try_links(v, ls) == v.with_edges(try_links(v, ls).edges),
        has_room(v.edges.len() + ls.len()) ==> try_links(v, ls).edges.len() == v.edges.len() + ls.len(),
    decreases ls.len(),
{
    if ls.len() > 0 {
        lemma_try_links_len(v, ls.drop_last());
    }
}

/// One line per item: `tag`, its id, and the first `n` characters of its
/// text.
pub open spec fn ref_lines(tag: Seq<char>, items: Seq<(i64, Seq<char>)>, n: int) -> Seq<char>
    decreases items.len(),
{
    if items.len() == 0 {
        Seq::empty()
    } else {
        ref_lines(tag, items.drop_last(), n) + tag + dec_int(items.last().0 as int) + ": "@ + prefix(items.last().1, n) + "\n"@
    }
}

/// A titled list of items; nothing when there are no items.
pub open spec fn section(title: Seq<char>, tag: Seq<char>, items: Seq<(i64, Seq<char>)>, n: int) -> Seq<char> {
    if items.len() == 0 { Seq::empty() } else { title + ref_lines(tag, items, n) }
}

/// The views of a list of (id, text) pairs.
pub open spec fn item_views(items: Seq<(i64, String)>) -> Seq<(i64, Seq<char>)> {
    items.map_values(|p: (i64, String)| (p.0, p.1@))
}

/// Appends a titled list of items (nothing when there are none).
pub fn push_section(out: &mut String, title: &str, tag: &str, items: &Vec<(i64, String)>, n: usize)
    ensures
        final(out)@ == old(out)@ + section(title@, tag@, item_views(items@), n as int),
{
    let ghost m = item_views(items@);
    if items.len() == 0 {
        proof { assert(old(out)@ + section(title@, tag@, m, n as int) =~= old(out)@); }
        return;
    }
    push_str(out, title);
    let ghost base = out@;
    let mut i: usize = 0;
    while i < items.len()
        invariant
            i <= items@.len(),
            m == item_views(items@),
            out@ == base + ref_lines(tag@, m.take(i as int), n as int),
        decreases items@.len() - i,
    {
        push_str(out, tag);
        push_i64(out, items[i].0);
        push_str(out, ": ");
        let t = take_chars(items[i].1.as_str(), n);
        push_str(out, t.as_str());
        push_str(out, "\n");
        proof {
            assert(m.take(i + 1).drop_last() =~= m.take(i as int));
            assert(out@ =~= base + ref_lines(tag@, m.take(i + 1), n as int));
        }
        i = i + 1;
    }
    proof {
        assert(m.take(i as int) =~= m);
        assert(out@ =~= old(out)@ + section(title@, tag@, m, n as int));
    }
}

/// Where links go depends on the edges alone.
pub proof fn lemma_try_links_edges(v: StoreView, w: StoreView, ls: Seq<(NodeType, i64, NodeType, i64, EdgeType)>)
    requires
        v.edges == w.edges,
    ensures
        try_links(v, ls).edges == try_links(w, ls).edges,
    decreases ls.len(),
{
    if ls.len() > 0 {
        lemma_try_links_edges(v, w, ls.drop_last());
    }
}

} // verus!
