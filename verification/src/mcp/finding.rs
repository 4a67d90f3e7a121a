//! The finding tool: a finding is recorded with the experiment that
//! produced it (or the experiment of the current session), tied to that
//! experiment and its phase, and answered with the related findings,
//! siblings, recent literature and active principles worth linking, and
//! with the project's findings that it may contradict.
use vstd::prelude::*;
use crate::text::{push_str, push_i64, push_usize, dec_int, dec_nat, prefix, seq_contains, chars_of, contains_chars, take_chars};
use crate::store::{Store, StoreView, StoreError, Finding, Literature, Principle, PrincipleStatus, NodeType, EdgeType, has_room,
    current_session, finding_in, literature_of, principle_of};
use crate::mcp::common::{error_text, error_str, validation_heading, too_short, push_too_short,
    try_links, link, link_line, guidance, views, pair_views, push_guidance, lemma_try_links_one, lemma_try_links_push,
    lemma_try_links_len, section, item_views, push_section};
use crate::analysis::contradictions::{CandidateView, ContradictionCandidate, Layer1Result, pair_score, pair_signals,
    ranked, insert_ranked_exec, candidate_views, layer1_report, score_pair, generate_nli_prompt, format_layer1_results};
use crate::analysis::numbers::{utf8_len, utf8_len_at_least, utf8_len_below};
use crate::mcp::repair::{exp_findings, phase_exps, collect, lemma_collect_step, collect_experiments, collect_findings};
use crate::dag::views as phase_views;

verus! {

broadcast use vstd::seq_lib::group_seq_properties;

/// The first `n` items of `s` (all of them when there are fewer).
pub open spec fn first_n<A>(s: Seq<A>, n: int) -> Seq<A> {
    if s.len() <= n { s } else { s.take(n) }
}

/// The problems with a finding's text: it needs 100 characters.
pub open spec fn finding_problems(text: Seq<char>) -> Seq<char> {
    if text.len() < 100 { too_short("text"@, text.len(), 100) } else { Seq::empty() }
}

/// The experiment a new finding belongs to: the one named (a positive id),
/// or else the active experiment of the current session, if any.
pub open spec fn finding_exp(v: StoreView, eid: i64) -> Option<i64> {
    if eid > 0 {
        Some(eid)
    } else {
        match current_session(v.sessions) {
            Some(s) => s.active_experiment_id,
            None => None,
        }
    }
}

/// The phase of experiment `e`, if it exists and has one.
pub open spec fn exp_phase(v: StoreView, e: i64) -> Option<i64> {
    match v.experiment(e) {
        Some(x) => x.phase_id,
        None => None,
    }
}

/// The project of experiment `e`, through its phase.
pub open spec fn exp_project(v: StoreView, e: i64) -> Option<i64> {
    match exp_phase(v, e) {
        Some(ph) => match v.phase(ph) {
            Some(p) => Some(p.project_id),
            None => None,
        },
        None => None,
    }
}

/// The links of new finding `fid` of experiment `e`: produced by the
/// experiment, and contained in its phase when it has one.
pub open spec fn finding_links(v: StoreView, e: Option<i64>, fid: i64) -> Seq<(NodeType, i64, NodeType, i64, EdgeType)> {
    match e {
        None => Seq::empty(),
        Some(x) => seq![(NodeType::Experiment, x, NodeType::Finding, fid, EdgeType::ProducedBy)]
            + match exp_phase(v, x) {
                Some(ph) => seq![(NodeType::Phase, ph, NodeType::Finding, fid, EdgeType::Contains)],
                None => Seq::empty(),
            },
    }
}

/// The lines that report the links of a new finding.
pub open spec fn finding_link_lines(v: StoreView, e: Option<i64>, fid: i64) -> Seq<Seq<char>> {
    match e {
        None => Seq::empty(),
        Some(x) => seq![link_line("Experiment"@, (NodeType::Experiment, x, NodeType::Finding, fid, EdgeType::ProducedBy))]
            + match exp_phase(v, x) {
                Some(ph) => seq![link_line("Phase"@, (NodeType::Phase, ph, NodeType::Finding, fid, EdgeType::Contains))],
                None => Seq::empty(),
            },
    }
}

/// Findings as (id, text) items.
pub open spec fn finding_items(fs: Seq<Finding>) -> Seq<(i64, Seq<char>)> {
    fs.map_values(|f: Finding| (f.id, f.text@))
}

/// Picks out the findings whose text holds `q`.
pub open spec fn mentions(q: Seq<char>) -> spec_fn(Finding) -> bool {
    |f: Finding| seq_contains(f.text@, q)
}

/// The findings related to new text `text`: the first three earlier
/// findings whose text holds the first 100 characters of it.
pub open spec fn related_findings(v: StoreView, text: Seq<char>) -> Seq<Finding> {
    first_n(v.findings.filter(mentions(prefix(text, 100))), 3)
}

/// The first five earlier findings of experiment `e`.
pub open spec fn sibling_findings(v: StoreView, e: i64) -> Seq<Finding> {
    first_n(v.findings.filter(finding_in(Some(e))), 5)
}

/// The three most recent literature entries of project `pid`, newest first.
pub open spec fn recent_literature(v: StoreView, pid: i64) -> Seq<(i64, Seq<char>)> {
    first_n(v.literature.filter(literature_of(pid)).reverse(), 3).map_values(|l: Literature| (l.id, l.title@))
}

/// Picks out the principles in force.
pub open spec fn active_principle() -> spec_fn(Principle) -> bool {
    |p: Principle| p.status == PrincipleStatus::Active
}

/// The first five active principles of project `pid`.
pub open spec fn active_principles(v: StoreView, pid: i64) -> Seq<(i64, Seq<char>)> {
    first_n(v.principles.filter(principle_of(pid)).filter(active_principle()), 5).map_values(|p: Principle| (p.id, p.text@))
}

/// The suggestion to mark related finding `other` as contradicting new finding `fid`.
pub open spec fn contradiction_suggestion(fid: i64, other: i64) -> (Seq<char>, Seq<char>) {
    ("If F#"@ + dec_int(other as int) + " contradicts this finding"@,
        "pm_add_edge source_type=Finding source_id="@ + dec_int(fid as int) + " target_type=Finding target_id="@
            + dec_int(other as int) + " relation=Contradicts"@)
}

/// The links that new finding `fid` suggests: a contradiction check for
/// each related finding, then what a finding informs or bears on.
pub open spec fn finding_suggestions(related: Seq<Finding>, fid: i64) -> Seq<(Seq<char>, Seq<char>)> {
    let f = dec_int(fid as int);
    related.map_values(|r: Finding| contradiction_suggestion(fid, r.id))
        + seq![
            ("If this finding informs a decision"@,
                "pm_add_edge source_type=Finding source_id="@ + f + " target_type=Decision target_id=? relation=Informed"@),
            ("If this finding supports a hypothesis"@,
                "pm_add_edge source_type=Finding source_id="@ + f + " target_type=Hypothesis target_id=? relation=Supports"@),
            ("If this finding contradicts a hypothesis"@,
                "pm_add_edge source_type=Finding source_id="@ + f + " target_type=Hypothesis target_id=? relation=Contradicts"@)
        ]
}

/// The first line of the answer for new finding `fid`, with its warnings:
/// no experiment, and a text of fewer than 200 bytes (counted in UTF-8).
pub open spec fn finding_line(e: Option<i64>, fid: i64, text: Seq<char>) -> Seq<char> {
    "Finding #"@ + dec_int(fid as int) + " created (global #"@ + dec_int(fid as int) + ")"@
        + (if e is None { " (WARNING: no experiment_id \u{2014} orphaned findings are less useful for traceability)"@ } else { Seq::empty() })
        + (if utf8_len(text) < 200 { " (WARNING: "@ + dec_nat(utf8_len(text)) + " chars < 200 minimum for lab report format)"@ } else { Seq::empty() })
        + ".\n"@
}

/// The answer for new finding `fid`, when every link was made.
pub open spec fn finding_text(v: StoreView, eid: i64, text: Seq<char>) -> Seq<char> {
    let e = finding_exp(v, eid);
    let fid = (v.findings.len() + 1) as i64;
    let rel = related_findings(v, text);
    finding_line(e, fid, text)
        + section("\n  RELATED FINDINGS (check for contradictions):\n"@, "    F#"@, finding_items(rel), 80)
        + (match e { Some(x) => section("\nSibling findings (same experiment):\n"@, "  F#"@, finding_items(sibling_findings(v, x)), 60), None => Seq::empty() })
        + (match e {
            Some(x) => match exp_project(v, x) {
                Some(pid) => section("\nRecent literature (suggest cited edges):\n"@, "  L#"@, recent_literature(v, pid), 60)
                    + section("\nActive principles for this project:\n"@, "  P#"@, active_principles(v, pid), 80),
                None => Seq::empty(),
            },
            None => Seq::empty(),
        })
        + guidance(finding_link_lines(v, e, fid), finding_suggestions(rel, fid))
        + contradiction_part(v, e, text)
}

/// The candidate that existing finding `f` makes against a new text `t`:
/// one when the signals they fire weigh more than three tenths.
pub open spec fn finding_candidate(t: Seq<char>) -> spec_fn(Finding) -> Option<CandidateView> {
    |f: Finding| if pair_score(t, f.text@) > 3 {
        Some(CandidateView {
            node_type: "Finding"@,
            node_id: f.id,
            text_excerpt: f.text@,
            signal_score: pair_score(t, f.text@),
            signals: pair_signals(t, f.text@),
        })
    } else {
        None
    }
}

/// The findings of project `pid`: phase by phase, experiment by
/// experiment, in creation order.
pub open spec fn project_findings(v: StoreView, pid: i64) -> Seq<Finding> {
    exp_findings(v, phase_exps(v, v.phases_of(pid)))
}

/// The five findings of project `pid` most likely to contradict a new
/// text `t`, heaviest signals first (equal weights in creation order).
pub open spec fn contradiction_candidates(v: StoreView, pid: i64, t: Seq<char>) -> Seq<CandidateView> {
    first_n(ranked(collect(project_findings(v, pid), finding_candidate(t))), 5)
}

/// What the answer adds on the findings of the project that a new
/// finding may contradict.
pub open spec fn contradiction_part(v: StoreView, e: Option<i64>, t: Seq<char>) -> Seq<char> {
    match e {
        Some(x) => match exp_project(v, x) {
            Some(pid) => layer1_report(contradiction_candidates(v, pid, t), true),
            None => Seq::empty(),
        },
        None => Seq::empty(),
    }
}

fn candidates_exec(store: &Store, pid: i64, text: &str) -> (r: Vec<ContradictionCandidate>)
    ensures
        candidate_views(r@) == contradiction_candidates(store@, pid, text@),
{
    let ghost v = store@;
    let phases = match store.list_phases(pid) { Ok(x) => x, Err(_) => Vec::new() };
    let es = collect_experiments(store, &phases);
    let fs = collect_findings(store, &es);
    proof { assert(phase_views(phases@) == v.phases_of(pid)); }
    let ghost all = fs@;
    let ghost pick = finding_candidate(text@);
    let mut rk: Vec<ContradictionCandidate> = Vec::new();
    let mut i: usize = 0;
    while i < fs.len()
        invariant
            all == fs@,
            all == project_findings(v, pid),
            pick == finding_candidate(text@),
            i <= fs@.len(),
            candidate_views(rk@) == ranked(collect(all.take(i as int), pick)),
        decreases fs@.len() - i,
    {
        proof { lemma_collect_step(all, pick, i as int); }
        let f = &fs[i];
        let (score, signals) = score_pair(text, f.text.as_str());
        if score > 3 {
            let mut nt = String::new();
            push_str(&mut nt, "Finding");
            let c = ContradictionCandidate {
                node_type: nt,
                node_id: f.id,
                text_excerpt: f.text.clone(),
                signal_score: score,
                signals,
            };
            proof {
                let xs = collect(all.take(i as int), pick);
                assert(xs.push(c.view()).drop_last() =~= xs);
                assert(c.view() == pick(all[i as int]).unwrap());
                assert(collect(all.take(i + 1), pick) =~= xs.push(c.view()));
            }
            insert_ranked_exec(&mut rk, c);
        } else {
            proof {
                assert(collect(all.take(i + 1), pick) =~= collect(all.take(i as int), pick));
            }
        }
        i = i + 1;
    }
    proof { assert(all.take(i as int) =~= all); }
    let ghost full = candidate_views(rk@);
    let mut top: Vec<ContradictionCandidate> = Vec::new();
    let n: usize = if rk.len() < 5 { rk.len() } else { 5 };
    let mut rest = rk;
    let mut k: usize = 0;
    while k < n
        invariant
            full.len() == rest@.len() + k,
            n <= full.len(),
            k <= n,
            candidate_views(top@) == full.take(k as int),
            candidate_views(rest@) == full.skip(k as int),
        decreases n - k,
    {
        let c = rest.remove(0);
        let ghost before = candidate_views(top@);
        top.push(c);
        proof {
            assert(candidate_views(top@) =~= before.push(full[k as int]));
            assert(full.take(k + 1) =~= full.take(k as int).push(full[k as int]));
            assert(candidate_views(rest@) =~= full.skip(k + 1));
        }
        k = k + 1;
    }
    proof { assert(full.take(n as int) =~= first_n(full, 5)); }
    top
}

/// Whether a finding is recorded: its text is long enough, the table has
/// room, and its experiment (if any) exists.
pub open spec fn finding_made(v: StoreView, eid: i64, text: Seq<char>) -> bool {
    &&& finding_problems(text).len() == 0
    &&& has_room(v.findings.len())
    &&& finding_exp(v, eid) matches Some(x) ==> v.experiment(x) is Some
}

fn related_items(store: &Store, text: &str) -> (r: (Vec<(i64, String)>, Ghost<Seq<Finding>>))
    requires
        store.wf(),
    ensures
        r.1@ == related_findings(store@, text@),
        item_views(r.0@) == finding_items(r.1@),
{
    let q = take_chars(text, 100);
    let qc = chars_of(q.as_str());
    let all = match store.list_findings(None) {
        Ok(x) => x,
        Err(_) => Vec::new(),
    };
    let ghost fs = store@.findings;
    proof {
        lemma_filter_true(fs, crate::store::finding_in(None));
    }
    let mut items: Vec<(i64, String)> = Vec::new();
    let ghost mut picked: Seq<Finding> = Seq::empty();
    let mut i: usize = 0;
    while i < all.len() && items.len() < 3
        invariant
            all@ == fs,
            i <= all@.len(),
            qc@ == prefix(text@, 100),
            picked == fs.take(i as int).filter(mentions(prefix(text@, 100))),
            picked.len() <= 3,
            items@.len() == picked.len(),
            item_views(items@) == finding_items(picked),
        decreases all@.len() - i,
    {
        let tc = chars_of(all[i].text.as_str());
        proof {
            assert(fs.take(i + 1) =~= fs.take(i as int).push(fs[i as int]));
            fs.take(i as int).lemma_filter_push(fs[i as int], mentions(prefix(text@, 100)));
        }
        if contains_chars(&tc, &qc) {
            let ghost before = items@;
            items.push((all[i].id, all[i].text.clone()));
            proof {
                picked = picked.push(fs[i as int]);
                assert(item_views(items@) =~= item_views(before).push((fs[i as int].id, fs[i as int].text@)));
                assert(finding_items(picked) =~= finding_items(picked.drop_last()).push((fs[i as int].id, fs[i as int].text@)));
            }
        }
        i = i + 1;
    }
    proof {
        let f = fs.filter(mentions(prefix(text@, 100)));
        if i == all.len() {
            assert(fs.take(i as int) =~= fs);
            assert(picked.len() <= 3);
        } else {
            assert(picked.len() == 3);
            lemma_filter_take_prefix(fs, mentions(prefix(text@, 100)), i as int);
            assert(f.subrange(0, 3) == picked);
            assert(first_n(f, 3) =~= picked);
        }
    }
    (items, Ghost(picked))
}

pub proof fn lemma_filter_true(s: Seq<Finding>, p: spec_fn(Finding) -> bool)
    requires
        forall|f: Finding| #[trigger] p(f),
    ensures
        s.filter(p) == s,
    decreases s.len(),
{
    if s.len() > 0 {
        lemma_filter_true(s.drop_last(), p);
        assert(s.drop_last().push(s.last()) =~= s);
        s.drop_last().lemma_filter_push(s.last(), p);
    } else {
        assert(s.filter(p) =~= s);
    }
}

pub proof fn lemma_filter_take_prefix<A>(s: Seq<A>, p: spec_fn(A) -> bool, i: int)
    requires
        0 <= i <= s.len(),
    ensures
        s.take(i).filter(p).len() <= s.filter(p).len(),
        s.filter(p).subrange(0, s.take(i).filter(p).len() as int) == s.take(i).filter(p),
    decreases s.len() - i,
{
    if i == s.len() {
        assert(s.take(i) =~= s);
        assert(s.filter(p).subrange(0, s.filter(p).len() as int) =~= s.filter(p));
    } else {
        lemma_filter_take_prefix(s, p, i + 1);
        assert(s.take(i + 1) =~= s.take(i).push(s[i]));
        s.take(i).lemma_filter_push(s[i], p);
        let a = s.take(i).filter(p);
        let b = s.take(i + 1).filter(p);
        assert(a.len() <= b.len());
        assert(s.filter(p).subrange(0, a.len() as int) =~= b.subrange(0, a.len() as int));
        assert(b.subrange(0, a.len() as int) =~= a);
    }
}

fn first_n_exec(n: usize, len: usize) -> (r: usize)
    ensures
        r == if len <= n { len } else { n },
{
    if len <= n { len } else { n }
}

fn sibling_items(store: &Store, e: i64) -> (items: Vec<(i64, String)>)
    requires
        store.wf(),
    ensures
        item_views(items@) == finding_items(sibling_findings(store@, e)),
{
    let fs = match store.list_findings(Some(e)) {
        Ok(x) => x,
        Err(_) => Vec::new(),
    };
    let ghost all = store@.findings.filter(finding_in(Some(e)));
    let m = first_n_exec(5, fs.len());
    let mut items: Vec<(i64, String)> = Vec::new();
    let mut i: usize = 0;
    while i < m
        invariant
            fs@ == all,
            m <= fs@.len(),
            m == if all.len() <= 5 { all.len() as usize } else { 5usize },
            i <= m,
            item_views(items@) == finding_items(all.take(i as int)),
        decreases m - i,
    {
        let ghost before = items@;
        items.push((fs[i].id, fs[i].text.clone()));
        proof {
            assert(item_views(items@) =~= item_views(before).push((all[i as int].id, all[i as int].text@)));
            assert(finding_items(all.take(i + 1)) =~= finding_items(all.take(i as int)).push((all[i as int].id, all[i as int].text@)));
        }
        i = i + 1;
    }
    proof {
        assert(first_n(all, 5) =~= all.take(m as int));
    }
    items
}

fn literature_items(store: &Store, pid: i64) -> (items: Vec<(i64, String)>)
    requires
        store.wf(),
    ensures
        item_views(items@) == recent_literature(store@, pid),
{
    let ls = match store.list_literature(pid) {
        Ok(x) => x,
        Err(_) => Vec::new(),
    };
    let ghost all = store@.literature.filter(literature_of(pid));
    let ghost rev = all.reverse();
    let n = ls.len();
    let m = first_n_exec(3, n);
    let mut items: Vec<(i64, String)> = Vec::new();
    let mut k: usize = 0;
    while k < m
        invariant
            ls@ == all,
            rev == all.reverse(),
            n == ls@.len(),
            m <= n,
            m == if rev.len() <= 3 { rev.len() as usize } else { 3usize },
            k <= m,
            item_views(items@) == rev.take(k as int).map_values(|l: Literature| (l.id, l.title@)),
        decreases m - k,
    {
        let ghost before = items@;
        items.push((ls[n - 1 - k].id, ls[n - 1 - k].title.clone()));
        proof {
            assert(rev[k as int] == all[n - 1 - k]);
            assert(item_views(items@) =~= item_views(before).push((rev[k as int].id, rev[k as int].title@)));
            assert(rev.take(k + 1).map_values(|l: Literature| (l.id, l.title@))
                =~= rev.take(k as int).map_values(|l: Literature| (l.id, l.title@)).push((rev[k as int].id, rev[k as int].title@)));
        }
        k = k + 1;
    }
    proof {
        assert(first_n(rev, 3) =~= rev.take(m as int));
    }
    items
}

fn principle_items(store: &Store, pid: i64) -> (items: Vec<(i64, String)>)
    requires
        store.wf(),
    ensures
        item_views(items@) == active_principles(store@, pid),
{
    let ps = match store.list_principles(pid) {
        Ok(x) => x,
        Err(_) => Vec::new(),
    };
    let ghost all = store@.principles.filter(principle_of(pid));
    let mut items: Vec<(i64, String)> = Vec::new();
    let ghost mut picked: Seq<Principle> = Seq::empty();
    let mut i: usize = 0;
    while i < ps.len() && items.len() < 5
        invariant
            ps@ == all,
            i <= ps@.len(),
            picked == all.take(i as int).filter(active_principle()),
            picked.len() <= 5,
            item_views(items@) == picked.map_values(|p: Principle| (p.id, p.text@)),
            items@.len() == picked.len(),
        decreases ps@.len() - i,
    {
        proof {
            assert(all.take(i + 1) =~= all.take(i as int).push(all[i as int]));
            all.take(i as int).lemma_filter_push(all[i as int], active_principle());
        }
        if ps[i].status == PrincipleStatus::Active {
            let ghost before = items@;
            items.push((ps[i].id, ps[i].text.clone()));
            proof {
                picked = picked.push(all[i as int]);
                assert(item_views(items@) =~= item_views(before).push((all[i as int].id, all[i as int].text@)));
                assert(picked.map_values(|p: Principle| (p.id, p.text@))
                    =~= picked.drop_last().map_values(|p: Principle| (p.id, p.text@)).push((all[i as int].id, all[i as int].text@)));
            }
        }
        i = i + 1;
    }
    proof {
        let f = all.filter(active_principle());
        if i == ps.len() {
            assert(all.take(i as int) =~= all);
        } else {
            lemma_filter_take_prefix(all, active_principle(), i as int);
            assert(f.subrange(0, 5) == picked);
        }
        assert(first_n(f, 5) =~= picked);
    }
    items
}

fn finding_suggestion_list(rel: &Vec<(i64, String)>, related: Ghost<Seq<Finding>>, fid: i64) -> (sugg: Vec<(String, String)>)
    requires
        item_views(rel@) == finding_items(related@),
    ensures
        pair_views(sugg@) == finding_suggestions(related@, fid),
{
    let mut sugg: Vec<(String, String)> = Vec::new();
    let mut i: usize = 0;
    proof {
        assert(item_views(rel@).len() == rel@.len());
        assert(finding_items(related@).len() == related@.len());
    }
    while i < rel.len()
        invariant
            i <= rel@.len(),
            rel@.len() == related@.len(),
            item_views(rel@) == finding_items(related@),
            pair_views(sugg@) == related@.take(i as int).map_values(|r: Finding| contradiction_suggestion(fid, r.id)),
        decreases rel@.len() - i,
    {
        let other = rel[i].0;
        proof {
            assert(item_views(rel@)[i as int] == (rel@[i as int].0, rel@[i as int].1@));
            assert(finding_items(related@)[i as int] == (related@[i as int].id, related@[i as int].text@));
            assert(other == related@[i as int].id);
        }
        let mut d = String::new();
        push_str(&mut d, "If F#");
        push_i64(&mut d, other);
        push_str(&mut d, " contradicts this finding");
        let mut c = String::new();
        push_str(&mut c, "pm_add_edge source_type=Finding source_id=");
        push_i64(&mut c, fid);
        push_str(&mut c, " target_type=Finding target_id=");
        push_i64(&mut c, other);
        push_str(&mut c, " relation=Contradicts");
        let ghost before = sugg@;
        sugg.push((d, c));
        proof {
            assert(pair_views(sugg@) =~= pair_views(before).push(contradiction_suggestion(fid, other)));
            assert(related@.take(i + 1).map_values(|r: Finding| contradiction_suggestion(fid, r.id))
                =~= related@.take(i as int).map_values(|r: Finding| contradiction_suggestion(fid, r.id)).push(contradiction_suggestion(fid, other)));
        }
        i = i + 1;
    }
    let ghost base = sugg@;
    let mut c1 = String::new();
    push_str(&mut c1, "pm_add_edge source_type=Finding source_id=");
    push_i64(&mut c1, fid);
    push_str(&mut c1, " target_type=Decision target_id=? relation=Informed");
    sugg.push(("If this finding informs a decision".to_owned(), c1));
    let mut c2 = String::new();
    push_str(&mut c2, "pm_add_edge source_type=Finding source_id=");
    push_i64(&mut c2, fid);
    push_str(&mut c2, " target_type=Hypothesis target_id=? relation=Supports");
    sugg.push(("If this finding supports a hypothesis".to_owned(), c2));
    let mut c3 = String::new();
    push_str(&mut c3, "pm_add_edge source_type=Finding source_id=");
    push_i64(&mut c3, fid);
    push_str(&mut c3, " target_type=Hypothesis target_id=? relation=Contradicts");
    sugg.push(("If this finding contradicts a hypothesis".to_owned(), c3));
    proof {
        assert(related@.take(i as int) =~= related@);
        assert(pair_views(sugg@) =~= finding_suggestions(related@, fid));
    }
    sugg
}

/// Records a finding (at least 100 characters) with the experiment that
/// produced it, or else the active experiment of the current session; ties
/// it to that experiment and its phase; and answers with the related
/// findings, the experiment's other findings, the project's recent
/// literature and active principles, and the links worth making.
#[verifier::rlimit(100)]
#[verifier::spinoff_prover]
pub fn tool_log_finding(store: &mut Store, eid: i64, text: &str) -> (out: String)
    requires
        old(store).wf(),
    ensures
        final(store).wf(),
        finding_problems(text@).len() > 0 ==> final(store)@ == old(store)@
            && out@ == validation_heading() + finding_problems(text@),
        finding_problems(text@).len() == 0 && !finding_made(old(store)@, eid, text@) ==> final(store)@ == old(store)@
            && out@ == "Error: "@ + error_text(if !has_room(old(store)@.findings.len()) { StoreError::Capacity } else { StoreError::Constraint }),
        finding_made(old(store)@, eid, text@) ==> {
            let v = old(store)@;
            let fid = (v.findings.len() + 1) as i64;
            let f = final(store)@.findings[v.findings.len() as int];
            &&& final(store)@.findings.len() == v.findings.len() + 1
            &&& f.id == fid && f.experiment_id == finding_exp(v, eid) && f.text@ == text@
            &&& final(store)@ == try_links(v.with_findings(v.findings.push(f)), finding_links(v, finding_exp(v, eid), fid))
        },
        finding_made(old(store)@, eid, text@)
            && has_room(old(store)@.edges.len() + finding_links(old(store)@, finding_exp(old(store)@, eid), (old(store)@.findings.len() + 1) as i64).len())
            ==> out@ == finding_text(old(store)@, eid, text@),
{
    let ghost v = store@;
    let n = text.unicode_len();
    if n < 100 {
        let mut out = String::new();
        push_str(&mut out, "\u{274c} VALIDATION ERROR:\n");
        push_too_short(&mut out, "text", n, 100);
        return out;
    }
    let exp_id: Option<i64> = if eid > 0 {
        Some(eid)
    } else {
        match store.get_current_session() {
            Ok(Some(sess)) => sess.active_experiment_id,
            _ => None,
        }
    };
    let (rel, related) = related_items(store, text);
    let siblings = match exp_id {
        Some(x) => sibling_items(store, x),
        None => Vec::new(),
    };
    let mut project: Option<i64> = None;
    let mut phase: Option<i64> = None;
    if let Some(x) = exp_id {
        if let Ok(ex) = store.get_experiment(x) {
            phase = ex.phase_id;
            if let Some(ph) = ex.phase_id {
                if let Ok(p) = store.get_phase(ph) {
                    project = Some(p.project_id);
                }
            }
        }
    }
    let lits = match project {
        Some(pid) => literature_items(store, pid),
        None => Vec::new(),
    };
    let prins = match project {
        Some(pid) => principle_items(store, pid),
        None => Vec::new(),
    };
    let cands = match project {
        Some(pid) => candidates_exec(store, pid, text),
        None => Vec::new(),
    };
    let f = match store.create_finding(exp_id, text) {
        Ok(f) => f,
        Err(e) => {
            let mut out = String::new();
            push_str(&mut out, "Error: ");
            push_str(&mut out, error_str(e));
            return out;
        },
    };
    let fid = f.id;
    let ghost v1 = store@;
    let ghost links = finding_links(v, exp_id, fid);
    let ghost room = has_room(v.edges.len() + links.len());
    let mut out = String::new();
    push_str(&mut out, "Finding #");
    push_i64(&mut out, fid);
    push_str(&mut out, " created (global #");
    push_i64(&mut out, fid);
    push_str(&mut out, ")");
    let ghost o1 = out@;
    let mut auto: Vec<String> = Vec::new();
    if let Some(x) = exp_id {
        link(store, (NodeType::Experiment, x, NodeType::Finding, fid, EdgeType::ProducedBy), "Experiment", &mut auto, &mut out,
            " (edge auto-create note: ", ")");
        proof {
            lemma_try_links_one(v1, (NodeType::Experiment, x, NodeType::Finding, fid, EdgeType::ProducedBy));
        }
        if let Some(ph) = phase {
            let ghost s1 = store@;
            link(store, (NodeType::Phase, ph, NodeType::Finding, fid, EdgeType::Contains), "Phase", &mut auto, &mut out,
                " (phase edge note: ", ")");
            proof {
                lemma_try_links_push(v1, seq![(NodeType::Experiment, x, NodeType::Finding, fid, EdgeType::ProducedBy)],
                    (NodeType::Phase, ph, NodeType::Finding, fid, EdgeType::Contains));
                assert(links =~= seq![(NodeType::Experiment, x, NodeType::Finding, fid, EdgeType::ProducedBy)]
                    .push((NodeType::Phase, ph, NodeType::Finding, fid, EdgeType::Contains)));
            }
        } else {
            proof {
                assert(links =~= seq![(NodeType::Experiment, x, NodeType::Finding, fid, EdgeType::ProducedBy)]);
            }
        }
    } else {
        proof {
            assert(links =~= Seq::<(NodeType, i64, NodeType, i64, EdgeType)>::empty());
        }
    }
    proof {
        lemma_try_links_len(v1, links);
        if room {
            assert(views(auto@) =~= finding_link_lines(v, exp_id, fid));
            assert(out@ == o1);
        }
    }
    if exp_id.is_none() {
        push_str(&mut out, " (WARNING: no experiment_id \u{2014} orphaned findings are less useful for traceability)");
    }
    let tcs = chars_of(text);
    if !utf8_len_at_least(&tcs, 200) {
        let bytes = utf8_len_below(&tcs, 200);
        push_str(&mut out, " (WARNING: ");
        push_usize(&mut out, bytes);
        push_str(&mut out, " chars < 200 minimum for lab report format)");
    }
    push_str(&mut out, ".\n");
    let ghost o2 = out@;
    proof {
        if room {
            assert(o2 =~= finding_line(exp_id, fid, text@));
        }
    }
    push_section(&mut out, "\n  RELATED FINDINGS (check for contradictions):\n", "    F#", &rel, 80);
    if exp_id.is_some() {
        push_section(&mut out, "\nSibling findings (same experiment):\n", "  F#", &siblings, 60);
    }
    if project.is_some() {
        push_section(&mut out, "\nRecent literature (suggest cited edges):\n", "  L#", &lits, 60);
        push_section(&mut out, "\nActive principles for this project:\n", "  P#", &prins, 80);
    }
    let sugg = finding_suggestion_list(&rel, related, fid);
    push_guidance(&mut out, &auto, &sugg);
    let ghost o3 = out@;
    if project.is_some() && cands.len() > 0 {
        let prompt = generate_nli_prompt(text, cands.as_slice());
        let layer1 = Layer1Result { candidates: cands, subagent_prompt: Some(prompt) };
        let report = format_layer1_results(text, &layer1);
        push_str(&mut out, report.as_str());
    }
    proof {
        assert(out@ =~= o3 + contradiction_part(v, exp_id, text@));
        if room {
            assert(out@ =~= finding_text(v, eid, text@));
        }
    }
    out
}

} // verus!
