//! Adding a literature entry: it starts unread, and the answer points at
//! the phases whose names share a key word with its title.
use vstd::prelude::*;
use crate::text::{push_str, push_i64, push_u64, dec_int, dec_nat, chars_of};
use crate::store::{Store, StoreView, StoreError, Literature, Phase, PhaseView, has_room, opt_ref, opt_str, literature_of};
use crate::mcp::common::{error_text, error_str, find_project, project_named};
use crate::mcp::constraint::{key_words, shares_word, key_words_exec, shares_word_exec};
use crate::analysis::numbers::char_views;
use crate::dag::views as phase_views;

verus! {

/// The suggestions to mark the phases of `ps` whose names share a key word
/// with title words `tw` as informed by literature entry `lid`.
pub open spec fn lit_suggestions(ps: Seq<PhaseView>, lid: i64, tw: Seq<Seq<char>>) -> Seq<char>
    decreases ps.len(),
{
    if ps.len() == 0 {
        Seq::empty()
    } else {
        let p = ps.last();
        lit_suggestions(ps.drop_last(), lid, tw) + if shares_word(tw, key_words(p.name)) {
            "\nSuggest: pm_add_edge source_type=literature source_id="@ + dec_int(lid as int) + " target_type=phase target_id="@
                + dec_int(p.id as int) + " relation=informed"@
        } else {
            Seq::empty()
        }
    }
}

/// Entry `l` holds what it was added with, and is unread.
pub open spec fn lit_holds(l: Literature, title: Seq<char>, arxiv: Option<Seq<char>>, relevance: Option<Seq<char>>,
    key_findings: Option<Seq<char>>, authors: Option<Seq<char>>, venue: Option<Seq<char>>, year: Option<i32>,
    url: Option<Seq<char>>, code_url: Option<Seq<char>>, summary: Option<Seq<char>>) -> bool {
    &&& l.title@ == title && opt_str(l.arxiv_id) == arxiv && opt_str(l.relevance) == relevance
    &&& opt_str(l.key_findings) == key_findings && opt_str(l.authors) == authors && opt_str(l.venue) == venue
    &&& l.year == year && opt_str(l.url) == url && opt_str(l.code_url) == code_url && opt_str(l.summary) == summary
    &&& opt_str(l.status) == Some("unread"@)
}

/// Adding a literature entry to store `v` made store `w` and answered
/// `out`: with no project by that name or alias, "Project not found"; with
/// the table full, the store's error; otherwise the entry is added, unread,
/// and the answer gives its number in the project and globally, its title,
/// and a suggested edge to each phase whose name shares a key word with
/// the title.
pub open spec fn literature_added(v: StoreView, w: StoreView, out: Seq<char>, project: Seq<char>, title: Seq<char>,
    arxiv: Option<Seq<char>>, relevance: Option<Seq<char>>, key_findings: Option<Seq<char>>, authors: Option<Seq<char>>,
    venue: Option<Seq<char>>, year: Option<i32>, url: Option<Seq<char>>, code_url: Option<Seq<char>>,
    summary: Option<Seq<char>>) -> bool {
    match project_named(v, project) {
        None => w == v && out == "Project not found: "@ + project,
        Some(p) => if !has_room(v.literature.len()) {
            w == v && out == "Error: "@ + error_text(StoreError::Capacity)
        } else {
            let lid = (v.literature.len() + 1) as i64;
            let l = w.literature.last();
            &&& w.literature.len() == v.literature.len() + 1
            &&& w == v.with_literature(v.literature.push(l))
            &&& l.id == lid && l.project_id == p.id
            &&& lit_holds(l, title, arxiv, relevance, key_findings, authors, venue, year, url, code_url, summary)
            &&& out == "Literature #"@ + dec_nat(v.literature.filter(literature_of(p.id)).len() + 1) + " added (global #"@
                + dec_int(lid as int) + "): "@ + title + lit_suggestions(v.phases_of(p.id), lid, key_words(title))
        },
    }
}

fn push_lit_suggestions(out: &mut String, phases: &Vec<Phase>, lid: i64, tw: &Vec<Vec<char>>)
    ensures
        final(out)@ == old(out)@ + lit_suggestions(phase_views(phases@), lid, char_views(tw@)),
{
    let ghost ps = phase_views(phases@);
    let ghost base = out@;
    let mut i: usize = 0;
    while i < phases.len()
        invariant
            ps == phase_views(phases@),
            i <= phases@.len(),
            out@ == base + lit_suggestions(ps.take(i as int), lid, char_views(tw@)),
        decreases phases@.len() - i,
    {
        let p = &phases[i];
        proof {
            assert(ps.take(i + 1).drop_last() =~= ps.take(i as int));
            assert(ps[i as int] == p@);
        }
        let pcs = chars_of(p.name.as_str());
        let pw = key_words_exec(&pcs);
        let ghost o0 = out@;
        if shares_word_exec(tw, &pw) {
            push_str(out, "\nSuggest: pm_add_edge source_type=literature source_id=");
            push_i64(out, lid);
            push_str(out, " target_type=phase target_id=");
            push_i64(out, p.id);
            push_str(out, " relation=informed");
        }
        proof {
            assert(out@ =~= base + lit_suggestions(ps.take(i + 1), lid, char_views(tw@)));
        }
        i = i + 1;
    }
    proof { assert(ps.take(i as int) =~= ps); }
}

/// Adds a literature entry of a project (named by name or alias); see
/// `literature_added`.
pub fn tool_lit_add(store: &mut Store, project: &str, title: &str, arxiv_id: Option<&str>, relevance: Option<&str>,
    key_findings: Option<&str>, authors: Option<&str>, venue: Option<&str>, year: Option<i32>, url: Option<&str>,
    code_url: Option<&str>, summary: Option<&str>) -> (out: String)
    requires
        old(store).wf(),
    ensures
        final(store).wf(),
        literature_added(old(store)@, final(store)@, out@, project@, title@, opt_ref(arxiv_id), opt_ref(relevance),
            opt_ref(key_findings), opt_ref(authors), opt_ref(venue), year, opt_ref(url), opt_ref(code_url), opt_ref(summary)),
{
    let ghost v = store@;
    let mut out = String::new();
    let p = match find_project(store, project) {
        Some(p) => p,
        None => {
            push_str(&mut out, "Project not found: ");
            push_str(&mut out, project);
            return out;
        },
    };
    let existing = match store.list_literature(p.id) {
        Ok(x) => x.len(),
        Err(_) => 0,
    };
    let l = match store.create_literature(p.id, title, arxiv_id, relevance, key_findings, authors, venue, year, url,
        code_url, summary) {
        Ok(l) => l,
        Err(e) => {
            push_str(&mut out, "Error: ");
            push_str(&mut out, error_str(e));
            return out;
        },
    };
    proof {
        v.literature.lemma_filter_len(literature_of(p.id));
        assert(existing <= v.literature.len());
    }
    push_str(&mut out, "Literature #");
    push_u64(&mut out, existing as u64 + 1);
    push_str(&mut out, " added (global #");
    push_i64(&mut out, l.id);
    push_str(&mut out, "): ");
    push_str(&mut out, title);
    let phases = match store.list_phases(p.id) { Ok(x) => x, Err(_) => Vec::new() };
    proof {
        assert(phase_views(phases@) == store@.phases_of(p.id));
        assert(store@.phases == v.phases);
    }
    let tcs = chars_of(title);
    let tw = key_words_exec(&tcs);
    push_lit_suggestions(&mut out, &phases, l.id, &tw);
    proof {
        assert(store@.literature.last() == l);
        reveal_strlit("unread");
        assert("unread"@ =~= seq!['u', 'n', 'r', 'e', 'a', 'd']);
    }
    out
}

} // verus!
