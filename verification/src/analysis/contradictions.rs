//! Signals that two research claims may contradict each other.
use vstd::prelude::*;
use crate::text::{lowercase, alphanumeric, to_lower, is_alnum, chars_of, seq_contains, contains};
use crate::analysis::numbers::{numbers_diverge, numeric_divergence, utf8_len, utf8_len_at_least};
use crate::text::{push_str, push_i64, push_u64, push_usize, dec_int, dec_nat, prefix, take_chars};
use crate::mcp::projects::joined;
use crate::mcp::common::views as text_views;

verus! {

/// A character that can belong to a word: alphanumeric, or an apostrophe
/// (so that "doesn't" stays one word).
pub open spec fn word_char(c: char) -> bool {
    alphanumeric(c) || c == '\''
}

/// `s[i..j]` is a whole word of `s`: word characters only, with no word
/// character just before or just after it.
pub open spec fn whole_word_at(s: Seq<char>, i: int, j: int) -> bool {
    &&& 0 <= i <= j <= s.len()
    &&& forall|k: int| i <= k < j ==> word_char(#[trigger] s[k])
    &&& (i == 0 || !word_char(s[i - 1]))
    &&& (j == s.len() || !word_char(s[j]))
}

/// The words that flip the polarity of a claim.
pub open spec fn negation_words() -> Seq<Seq<char>> {
    seq!["not"@, "no"@, "never"@, "neither"@, "nor"@, "none"@, "cannot"@,
        "doesn't"@, "don't"@, "didn't"@, "isn't"@, "aren't"@, "wasn't"@,
        "weren't"@, "won't"@, "wouldn't"@, "couldn't"@, "shouldn't"@,
        "without"@, "unable"@, "failed"@, "impossible"@, "negligible"@]
}

/// The word `w` stands in `s` as a whole word starting at `k`.
pub open spec fn word_starts_at(s: Seq<char>, w: Seq<char>, k: int) -> bool {
    whole_word_at(s, k, k + w.len()) && s.subrange(k, k + w.len()) == w
}

/// A negation word starts at position `k` of `s`.
pub open spec fn negation_at(s: Seq<char>, k: int) -> bool {
    exists|t: int| 0 <= t < negation_words().len() && #[trigger] word_starts_at(s, negation_words()[t], k)
}

/// How many negation tokens start before position `n` of `s`: each
/// occurrence of a negation word counts.
pub open spec fn negation_count(s: Seq<char>, n: nat) -> nat
    decreases n,
{
    if n == 0 {
        0
    } else {
        negation_count(s, (n - 1) as nat) + if negation_at(s, n - 1) { 1nat } else { 0nat }
    }
}

/// A claim reads as negated when its lowercased text holds an odd number of
/// negation tokens.
pub open spec fn negated(t: Seq<char>) -> bool {
    negation_count(lowercase(t), lowercase(t).len()) % 2 == 1
}

fn negation_tokens() -> (v: Vec<&'static str>)
    ensures
        v@.map_values(|t: &str| t@) == negation_words(),
{
    let mut v: Vec<&'static str> = Vec::new();
    v.push("not");
    v.push("no");
    v.push("never");
    v.push("neither");
    v.push("nor");
    v.push("none");
    v.push("cannot");
    v.push("doesn't");
    v.push("don't");
    v.push("didn't");
    v.push("isn't");
    v.push("aren't");
    v.push("wasn't");
    v.push("weren't");
    v.push("won't");
    v.push("wouldn't");
    v.push("couldn't");
    v.push("shouldn't");
    v.push("without");
    v.push("unable");
    v.push("failed");
    v.push("impossible");
    v.push("negligible");
    proof {
        assert(v@.map_values(|t: &str| t@) =~= negation_words());
    }
    v
}

fn is_word_char(c: char) -> (b: bool)
    ensures
        b == word_char(c),
{
    c == '\'' || is_alnum(c)
}

/// Whether `s[i..i + w.len()]` is a whole word equal to `w`.
fn word_at(s: &Vec<char>, w: &Vec<char>, i: usize) -> (b: bool)
    requires
        i + w@.len() <= s@.len(),
    ensures
        b == (whole_word_at(s@, i as int, i + w@.len()) && s@.subrange(i as int, i + w@.len()) == w@),
{
    let n = s.len();
    let j = i + w.len();
    if i > 0 && is_word_char(s[i - 1]) {
        return false;
    }
    if j < s.len() && is_word_char(s[j]) {
        return false;
    }
    let mut k: usize = 0;
    while k < w.len()
        invariant
            i + w@.len() == j <= s@.len(),
            k <= w@.len(),
            forall|m: int| 0 <= m < k ==> s@[i + m] == #[trigger] w@[m] && word_char(s@[i + m]),
        decreases w@.len() - k,
    {
        if s[i + k] != w[k] || !is_word_char(s[i + k]) {
            proof {
                if s@[i + k] == w@[k as int] {
                    assert(!word_char(s@[i + k]));
                } else {
                    assert(s@.subrange(i as int, j as int)[k as int] != w@[k as int]);
                }
            }
            return false;
        }
        k = k + 1;
    }
    proof {
        assert(s@.subrange(i as int, j as int) =~= w@);
        assert forall|m: int| i <= m < j implies word_char(#[trigger] s@[m]) by {
            assert(s@[i + (m - i)] == w@[m - i]);
        }
    }
    true
}

/// Whether some negation word starts at position `k` of `s`.
fn negation_at_exec(s: &Vec<char>, toks: &Vec<Vec<char>>, k: usize) -> (b: bool)
    requires
        k < s@.len(),
        toks@.len() == negation_words().len(),
        forall|t: int| 0 <= t < toks@.len() ==> #[trigger] toks@[t]@ == negation_words()[t],
    ensures
        b == negation_at(s@, k as int),
{
    let mut t: usize = 0;
    while t < toks.len()
        invariant
            k < s@.len(),
            toks@.len() == negation_words().len(),
            forall|u: int| 0 <= u < toks@.len() ==> #[trigger] toks@[u]@ == negation_words()[u],
            t <= toks@.len(),
            forall|u: int| 0 <= u < t ==> !#[trigger] word_starts_at(s@, negation_words()[u], k as int),
        decreases toks@.len() - t,
    {
        let w = &toks[t];
        if w.len() <= s.len() - k && word_at(s, w, k) {
            proof {
                assert(toks@[t as int]@ == negation_words()[t as int]);
                assert(word_starts_at(s@, negation_words()[t as int], k as int));
            }
            return true;
        }
        proof {
            assert(toks@[t as int]@ == negation_words()[t as int]);
            if k + w@.len() > s@.len() {
                assert(!whole_word_at(s@, k as int, k + w@.len()));
            }
        }
        t = t + 1;
    }
    false
}

/// Whether a claim reads as negated: its lowercased text holds an odd
/// number of negation tokens (whole words; every occurrence counts).
pub fn negation_parity(text: &str) -> (b: bool)
    ensures
        b == negated(text@),
{
    let lower = to_lower(text);
    let cs = chars_of(lower.as_str());
    let tokens = negation_tokens();
    let mut toks: Vec<Vec<char>> = Vec::new();
    let mut t: usize = 0;
    while t < tokens.len()
        invariant
            tokens@.map_values(|x: &str| x@) == negation_words(),
            t <= tokens@.len(),
            toks@.len() == t,
            forall|u: int| 0 <= u < t ==> #[trigger] toks@[u]@ == negation_words()[u],
        decreases tokens@.len() - t,
    {
        let w = chars_of(tokens[t]);
        proof {
            assert(negation_words()[t as int] == tokens@[t as int]@);
        }
        toks.push(w);
        t = t + 1;
    }
    let mut count: usize = 0;
    let mut k: usize = 0;
    while k < cs.len()
        invariant
            cs@ == lowercase(text@),
            toks@.len() == negation_words().len(),
            forall|u: int| 0 <= u < toks@.len() ==> #[trigger] toks@[u]@ == negation_words()[u],
            k <= cs@.len(),
            count == negation_count(cs@, k as nat),
            count <= k,
        decreases cs@.len() - k,
    {
        if negation_at_exec(&cs, &toks, k) {
            count = count + 1;
        }
        k = k + 1;
    }
    count % 2 == 1
}

// ---------------------------------------------------------------- signals

/// Opposite claims one negates and the other does not: the two texts read
/// with opposite negation parity.  Weighs four tenths.
pub fn negation_signal(text_a: &str, text_b: &str) -> (r: (bool, u32))
    ensures
        r.0 == (negated(text_a@) != negated(text_b@)),
        r.1 == (if r.0 { 4u32 } else { 0u32 }),
{
    let a = negation_parity(text_a);
    let b = negation_parity(text_b);
    if a != b { (true, 4) } else { (false, 0) }
}

/// The antonym pairs that the research domain uses.
pub open spec fn antonym_pairs() -> Seq<(Seq<char>, Seq<char>)> {
    seq![("increase"@, "decrease"@), ("faster"@, "slower"@), ("improve"@, "degrade"@),
        ("saturated"@, "underutilized"@), ("bottleneck"@, "sufficient"@),
        ("bound"@, "free"@), ("limited"@, "unlimited"@), ("active"@, "idle"@),
        ("dominated"@, "balanced"@), ("feasible"@, "infeasible"@),
        ("optimal"@, "suboptimal"@), ("efficient"@, "inefficient"@),
        ("coalesced"@, "scattered"@), ("contiguous"@, "fragmented"@),
        ("success"@, "failure"@), ("pass"@, "fail"@), ("works"@, "broken"@),
        ("correct"@, "incorrect"@), ("valid"@, "invalid"@),
        ("higher"@, "lower"@), ("more"@, "less"@), ("above"@, "below"@)]
}

/// One lowercased text holds one word of an antonym pair and the other
/// text holds the other word (anywhere, as part of a word too).
pub open spec fn antonyms_across(la: Seq<char>, lb: Seq<char>) -> bool {
    exists|k: int| 0 <= k < antonym_pairs().len() && #[trigger] antonym_hit(la, lb, antonym_pairs()[k])
}

/// Texts `la` and `lb` hold the two words of pair `p`, one each.
pub open spec fn antonym_hit(la: Seq<char>, lb: Seq<char>, p: (Seq<char>, Seq<char>)) -> bool {
    (seq_contains(la, p.0) && seq_contains(lb, p.1)) || (seq_contains(la, p.1) && seq_contains(lb, p.0))
}

/// The antonym signal does not depend on which text comes first, and it
/// fires whenever one text holds one word of a listed pair and the other
/// text holds its partner, in either order.
pub proof fn law_antonyms_either_way(la: Seq<char>, lb: Seq<char>)
    ensures
        antonyms_across(la, lb) == antonyms_across(lb, la),
        forall|k: int| 0 <= k < antonym_pairs().len() && seq_contains(la, #[trigger] antonym_pairs()[k].0)
            && seq_contains(lb, antonym_pairs()[k].1) ==> antonyms_across(la, lb),
        forall|k: int| 0 <= k < antonym_pairs().len() && seq_contains(la, #[trigger] antonym_pairs()[k].1)
            && seq_contains(lb, antonym_pairs()[k].0) ==> antonyms_across(la, lb),
{
    if antonyms_across(la, lb) {
        let k = choose|k: int| 0 <= k < antonym_pairs().len() && #[trigger] antonym_hit(la, lb, antonym_pairs()[k]);
        assert(antonym_hit(lb, la, antonym_pairs()[k]));
    }
    if antonyms_across(lb, la) {
        let k = choose|k: int| 0 <= k < antonym_pairs().len() && #[trigger] antonym_hit(lb, la, antonym_pairs()[k]);
        assert(antonym_hit(la, lb, antonym_pairs()[k]));
    }
    assert forall|k: int| 0 <= k < antonym_pairs().len() && seq_contains(la, #[trigger] antonym_pairs()[k].0)
        && seq_contains(lb, antonym_pairs()[k].1) implies antonyms_across(la, lb) by {
        assert(antonym_hit(la, lb, antonym_pairs()[k]));
    }
    assert forall|k: int| 0 <= k < antonym_pairs().len() && seq_contains(la, #[trigger] antonym_pairs()[k].1)
        && seq_contains(lb, antonym_pairs()[k].0) implies antonyms_across(la, lb) by {
        assert(antonym_hit(la, lb, antonym_pairs()[k]));
    }
}

fn antonym_list() -> (v: Vec<(&'static str, &'static str)>)
    ensures
        v@.map_values(|p: (&str, &str)| (p.0@, p.1@)) == antonym_pairs(),
{
    let v: Vec<(&'static str, &'static str)> = vec![("increase", "decrease"), ("faster", "slower"), ("improve", "degrade"),
        ("saturated", "underutilized"), ("bottleneck", "sufficient"),
        ("bound", "free"), ("limited", "unlimited"), ("active", "idle"),
        ("dominated", "balanced"), ("feasible", "infeasible"),
        ("optimal", "suboptimal"), ("efficient", "inefficient"),
        ("coalesced", "scattered"), ("contiguous", "fragmented"),
        ("success", "failure"), ("pass", "fail"), ("works", "broken"),
        ("correct", "incorrect"), ("valid", "invalid"),
        ("higher", "lower"), ("more", "less"), ("above", "below")];
    proof {
        assert(v@.map_values(|p: (&str, &str)| (p.0@, p.1@)) =~= antonym_pairs());
    }
    v
}

/// One text uses a word whose antonym the other uses.  Weighs three
/// tenths.
pub fn antonym_signal(text_a: &str, text_b: &str) -> (r: (bool, u32))
    ensures
        r.0 == antonyms_across(lowercase(text_a@), lowercase(text_b@)),
        r.1 == (if r.0 { 3u32 } else { 0u32 }),
{
    let la = to_lower(text_a);
    let lb = to_lower(text_b);
    let pairs = antonym_list();
    let ghost ps = antonym_pairs();
    let mut k: usize = 0;
    while k < pairs.len()
        invariant
            la@ == lowercase(text_a@),
            lb@ == lowercase(text_b@),
            ps == antonym_pairs(),
            pairs@.map_values(|p: (&str, &str)| (p.0@, p.1@)) == ps,
            k <= pairs@.len(),
            forall|j: int| 0 <= j < k ==> !#[trigger] antonym_hit(la@, lb@, ps[j]),
        decreases pairs@.len() - k,
    {
        let (w1, w2) = pairs[k];
        proof { assert(ps[k as int] == (w1@, w2@)); }
        let a1 = contains(la.as_str(), w1);
        let a2 = contains(la.as_str(), w2);
        let b1 = contains(lb.as_str(), w1);
        let b2 = contains(lb.as_str(), w2);
        if (a1 && b2) || (a2 && b1) {
            proof { assert(antonym_hit(la@, lb@, ps[k as int])); }
            return (true, 3);
        }
        k = k + 1;
    }
    (false, 0)
}

/// The phrases by which a note corrects an earlier one.
pub open spec fn contradiction_markers() -> Seq<Seq<char>> {
    seq!["actually"@, "contrary to"@, "however"@, "but in fact"@,
        "correction:"@, "update:"@, "was wrong"@, "turns out"@,
        "not the case"@, "contradicts"@, "invalidates"@, "disproves"@,
        "previously thought"@, "earlier finding"@, "revised understanding"@]
}

/// One of the lowercased texts holds a correction phrase.
pub open spec fn marked(la: Seq<char>, lb: Seq<char>) -> bool {
    exists|k: int| 0 <= k < contradiction_markers().len()
        && (seq_contains(la, #[trigger] contradiction_markers()[k]) || seq_contains(lb, contradiction_markers()[k]))
}

fn marker_list() -> (v: Vec<&'static str>)
    ensures
        v@.map_values(|t: &str| t@) == contradiction_markers(),
{
    let v: Vec<&'static str> = vec!["actually", "contrary to", "however", "but in fact",
        "correction:", "update:", "was wrong", "turns out",
        "not the case", "contradicts", "invalidates", "disproves",
        "previously thought", "earlier finding", "revised understanding"];
    proof {
        assert(v@.map_values(|t: &str| t@) =~= contradiction_markers());
    }
    v
}

/// One of the texts says it corrects something.  Weighs six tenths.
pub fn marker_signal(text_a: &str, text_b: &str) -> (r: (bool, u32))
    ensures
        r.0 == marked(lowercase(text_a@), lowercase(text_b@)),
        r.1 == (if r.0 { 6u32 } else { 0u32 }),
{
    let la = to_lower(text_a);
    let lb = to_lower(text_b);
    let ms = marker_list();
    let ghost words = contradiction_markers();
    let mut k: usize = 0;
    while k < ms.len()
        invariant
            la@ == lowercase(text_a@),
            lb@ == lowercase(text_b@),
            words == contradiction_markers(),
            ms@.map_values(|t: &str| t@) == words,
            k <= ms@.len(),
            forall|j: int| 0 <= j < k ==> !(seq_contains(la@, #[trigger] words[j]) || seq_contains(lb@, words[j])),
        decreases ms@.len() - k,
    {
        proof { assert(words[k as int] == ms@[k as int]@); }
        if contains(la.as_str(), ms[k]) || contains(lb.as_str(), ms[k]) {
            return (true, 6);
        }
        k = k + 1;
    }
    (false, 0)
}

/// Some number in one text diverges from a number in the other that
/// stands among a shared context word.  Weighs five tenths.
pub fn numeric_signal(text_a: &str, text_b: &str) -> (r: (bool, u32))
    ensures
        r.0 == numeric_divergence(text_a@, text_b@),
        r.1 == (if r.0 { 5u32 } else { 0u32 }),
{
    if numbers_diverge(text_a, text_b) { (true, 5) } else { (false, 0) }
}

// ---------------------------------------------------------------- scoring

/// A one-name list when `b` holds.
pub open spec fn name_if(b: bool, name: Seq<char>) -> Seq<Seq<char>> {
    if b { seq![name] } else { Seq::empty() }
}

/// The signals that texts `a` and `b` fire, by name, in the order they are
/// tried: negation parity, antonym pair, numeric divergence, contradiction
/// marker.
pub open spec fn pair_signals(a: Seq<char>, b: Seq<char>) -> Seq<Seq<char>> {
    name_if(negated(a) != negated(b), "negation_parity"@)
        + name_if(antonyms_across(lowercase(a), lowercase(b)), "antonym_pair"@)
        + name_if(numeric_divergence(a, b), "numeric_divergence"@)
        + name_if(marked(lowercase(a), lowercase(b)), "contradiction_marker"@)
}

/// The weight, in tenths, of the signals that texts `a` and `b` fire.
pub open spec fn pair_score(a: Seq<char>, b: Seq<char>) -> nat {
    (if negated(a) != negated(b) { 4nat } else { 0nat })
        + (if antonyms_across(lowercase(a), lowercase(b)) { 3nat } else { 0nat })
        + (if numeric_divergence(a, b) { 5nat } else { 0nat })
        + (if marked(lowercase(a), lowercase(b)) { 6nat } else { 0nat })
}

fn push_name(v: &mut Vec<String>, name: &str)
    ensures
        text_views(final(v)@) == text_views(old(v)@).push(name@),
{
    let mut s = String::new();
    push_str(&mut s, name);
    let ghost before = text_views(v@);
    v.push(s);
    proof { assert(text_views(v@) =~= before.push(name@)); }
}

/// How strongly a new text and an existing one seem to contradict each
/// other: the weight of the signals they fire, in tenths (negation parity
/// four, antonym pair three, numeric divergence five, contradiction marker
/// six), and the signals by name.
pub fn score_pair(new_text: &str, existing_text: &str) -> (r: (u32, Vec<String>))
    ensures
        r.0 == pair_score(new_text@, existing_text@),
        text_views(r.1@) == pair_signals(new_text@, existing_text@),
{
    let mut score: u32 = 0;
    let mut signals: Vec<String> = Vec::new();
    let ghost a = new_text@;
    let ghost b = existing_text@;
    let (neg, neg_s) = negation_signal(new_text, existing_text);
    if neg {
        score = score + neg_s;
        push_name(&mut signals, "negation_parity");
    }
    let (ant, ant_s) = antonym_signal(new_text, existing_text);
    if ant {
        score = score + ant_s;
        push_name(&mut signals, "antonym_pair");
    }
    let (num, num_s) = numeric_signal(new_text, existing_text);
    if num {
        score = score + num_s;
        push_name(&mut signals, "numeric_divergence");
    }
    let (mrk, mrk_s) = marker_signal(new_text, existing_text);
    if mrk {
        score = score + mrk_s;
        push_name(&mut signals, "contradiction_marker");
    }
    proof {
        assert(text_views(signals@) =~= pair_signals(a, b));
    }
    (score, signals)
}

// ---------------------------------------------------------------- candidates

/// A note that may contradict a new one, found by the signals.
pub struct ContradictionCandidate {
    pub node_type: String,
    pub node_id: i64,
    pub text_excerpt: String,
    /// The weight of the signals fired, in tenths.
    pub signal_score: u32,
    pub signals: Vec<String>,
}

/// A candidate as the specifications see it.
pub struct CandidateView {
    pub node_type: Seq<char>,
    pub node_id: i64,
    pub text_excerpt: Seq<char>,
    pub signal_score: nat,
    pub signals: Seq<Seq<char>>,
}

impl ContradictionCandidate {
    pub open spec fn view(&self) -> CandidateView {
        CandidateView {
            node_type: self.node_type@,
            node_id: self.node_id,
            text_excerpt: self.text_excerpt@,
            signal_score: self.signal_score as nat,
            signals: text_views(self.signals@),
        }
    }
}

/// The views of candidates.
pub open spec fn candidate_views(v: Seq<ContradictionCandidate>) -> Seq<CandidateView> {
    v.map_values(|c: ContradictionCandidate| c.view())
}

/// What the first layer of detection found: the candidates, and the
/// prompt for the second layer.
pub struct Layer1Result {
    pub candidates: Vec<ContradictionCandidate>,
    pub subagent_prompt: Option<String>,
}

/// `cs` with `c` placed after every candidate that weighs at least as much.
pub open spec fn insert_ranked(cs: Seq<CandidateView>, c: CandidateView) -> Seq<CandidateView>
    decreases cs.len(),
{
    if cs.len() == 0 {
        seq![c]
    } else if cs.last().signal_score >= c.signal_score {
        cs.push(c)
    } else {
        insert_ranked(cs.drop_last(), c).push(cs.last())
    }
}

/// The candidates `cs` ranked by weight, heaviest first, candidates of equal
/// weight in the order found (a stable sort).
pub open spec fn ranked(cs: Seq<CandidateView>) -> Seq<CandidateView>
    decreases cs.len(),
{
    if cs.len() == 0 { Seq::empty() } else { insert_ranked(ranked(cs.drop_last()), cs.last()) }
}

/// Heaviest first.
pub open spec fn heaviest_first(s: Seq<CandidateView>) -> bool {
    forall|i: int, j: int| 0 <= i < j < s.len() ==> (#[trigger] s[i]).signal_score >= (#[trigger] s[j]).signal_score
}

proof fn lemma_insert_ranked(cs: Seq<CandidateView>, c: CandidateView)
    requires
        heaviest_first(cs),
    ensures
        heaviest_first(insert_ranked(cs, c)),
        insert_ranked(cs, c).to_multiset() == cs.to_multiset().insert(c),
    decreases cs.len(),
{
    broadcast use vstd::multiset::group_multiset_axioms, vstd::seq_lib::group_to_multiset_ensures;
    if cs.len() == 0 {
        assert(seq![c] =~= cs.push(c));
        assert(cs.push(c).to_multiset() =~= cs.to_multiset().insert(c));
    } else if cs.last().signal_score >= c.signal_score {
        cs.to_multiset_ensures();
        assert forall|i: int, j: int| 0 <= i < j < cs.push(c).len() implies
            (#[trigger] cs.push(c)[i]).signal_score >= (#[trigger] cs.push(c)[j]).signal_score by {
            if j == cs.len() {
                if i < cs.len() - 1 {
                    assert(cs[i].signal_score >= cs[cs.len() - 1].signal_score);
                }
            }
        }
    } else {
        let t = cs.drop_last();
        let l = cs.last();
        assert(heaviest_first(t)) by {
            assert forall|i: int, j: int| 0 <= i < j < t.len() implies
                (#[trigger] t[i]).signal_score >= (#[trigger] t[j]).signal_score by {
                assert(t[i] == cs[i] && t[j] == cs[j]);
            }
        }
        lemma_insert_ranked(t, c);
        let r = insert_ranked(t, c);
        r.to_multiset_ensures();
        t.to_multiset_ensures();
        cs.to_multiset_ensures();
        assert(cs =~= t.push(l));
        assert forall|x: CandidateView| #[trigger] r.contains(x) implies x.signal_score >= l.signal_score by {
            assert(r.to_multiset().count(x) > 0);
            if x != c {
                assert(t.to_multiset().count(x) > 0);
                assert(t.contains(x));
                let k = choose|k: int| 0 <= k < t.len() && t[k] == x;
                assert(cs[k] == x);
                assert(cs[k].signal_score >= cs[cs.len() - 1].signal_score);
            }
        }
        assert forall|i: int, j: int| 0 <= i < j < r.push(l).len() implies
            (#[trigger] r.push(l)[i]).signal_score >= (#[trigger] r.push(l)[j]).signal_score by {
            if j == r.len() {
                assert(r.contains(r[i]));
            }
        }
        assert(r.push(l).to_multiset() =~= r.to_multiset().insert(l));
        assert(cs.to_multiset() =~= t.to_multiset().insert(l));
        assert(r.to_multiset().insert(l) =~= t.to_multiset().insert(c).insert(l));
        assert(t.to_multiset().insert(l).insert(c) =~= t.to_multiset().insert(c).insert(l));
    }
}

/// Ranking the candidates keeps each of them, and puts them heaviest
/// first.
pub proof fn law_ranking_sorts(cs: Seq<CandidateView>)
    ensures
        heaviest_first(ranked(cs)),
        ranked(cs).to_multiset() == cs.to_multiset(),
    decreases cs.len(),
{
    broadcast use vstd::multiset::group_multiset_axioms, vstd::seq_lib::group_to_multiset_ensures;
    if cs.len() == 0 {
        assert(ranked(cs) =~= cs);
    } else {
        let t = cs.drop_last();
        law_ranking_sorts(t);
        lemma_insert_ranked(ranked(t), cs.last());
        cs.to_multiset_ensures();
        t.to_multiset_ensures();
        assert(cs =~= t.push(cs.last()));
        assert(cs.to_multiset() =~= t.to_multiset().insert(cs.last()));
    }
}

/// Places candidate `c` in the ranked list `cs`.
pub fn insert_ranked_exec(cs: &mut Vec<ContradictionCandidate>, c: ContradictionCandidate)
    ensures
        candidate_views(final(cs)@) == insert_ranked(candidate_views(old(cs)@), c.view()),
{
    let ghost old_v = candidate_views(cs@);
    let mut k: usize = cs.len();
    proof {
        assert(old_v.take(k as int) =~= old_v);
        assert(old_v.skip(k as int) =~= Seq::<CandidateView>::empty());
        assert(insert_ranked(old_v, c.view()) + Seq::<CandidateView>::empty() =~= insert_ranked(old_v, c.view()));
    }
    while k > 0 && cs[k - 1].signal_score < c.signal_score
        invariant
            k <= cs@.len(),
            candidate_views(cs@) == old_v,
            insert_ranked(old_v, c.view()) == insert_ranked(old_v.take(k as int), c.view()) + old_v.skip(k as int),
        decreases k,
    {
        proof {
            let t = old_v.take(k as int);
            assert(t.last() == old_v[k - 1]);
            assert(t.drop_last() =~= old_v.take(k - 1));
            assert(insert_ranked(t, c.view()) == insert_ranked(old_v.take(k - 1), c.view()).push(old_v[k - 1]));
            assert(old_v.skip(k - 1) =~= seq![old_v[k - 1]] + old_v.skip(k as int));
            assert(insert_ranked(old_v.take(k - 1), c.view()).push(old_v[k - 1]) + old_v.skip(k as int)
                =~= insert_ranked(old_v.take(k - 1), c.view()) + old_v.skip(k - 1));
        }
        k = k - 1;
    }
    proof {
        let t = old_v.take(k as int);
        if k == 0 {
            assert(t =~= Seq::<CandidateView>::empty());
        } else {
            assert(t.last() == old_v[k - 1]);
        }
        assert(insert_ranked(t, c.view()) =~= t.push(c.view()));
    }
    let ghost cv = c.view();
    cs.insert(k, c);
    proof {
        assert(candidate_views(cs@) =~= old_v.take(k as int).push(cv) + old_v.skip(k as int));
    }
}

// ---------------------------------------------------------------- second layer prompt

/// The opening of the prompt for the second layer: what counts as a
/// contradiction and what does not.
pub open spec fn nli_head() -> Seq<char> {
    "You are a contradiction analyst for a research knowledge base.\n"@
        + "Determine whether these research entries contain contradictory claims.\n\n"@
        + "## Contradiction Types\n"@
        + "1. DIRECT_NEGATION: One entry explicitly negates a claim in the other\n"@
        + "2. NUMERIC_CONFLICT: Entries report different numbers for the same measurement\n"@
        + "3. TEMPORAL_SUPERSESSION: A later entry implicitly invalidates an earlier one\n"@
        + "4. CAUSAL_CONFLICT: Entries attribute different causes to the same effect\n"@
        + "5. RECOMMENDATION_CONFLICT: Entries recommend opposite actions\n"@
        + "6. NONE: No contradiction exists\n\n"@
        + "## Important: NOT contradictions\n"@
        + "- Different contexts (GPU vs CPU) are NOT contradictions\n"@
        + "- Explicit updates/corrections that acknowledge the change are UPDATES not contradictions\n"@
        + "- Different granularity (~95 tok/s vs 97.2 tok/s) is compatible\n"@
        + "- Uncertainty vs certainty (might work vs works) is compatible\n\n"@
}

/// The close of the prompt: how to reason and how to answer.
pub open spec fn nli_tail() -> Seq<char> {
    "## Analysis\n"@
        + "Think step by step for each existing entry:\n"@
        + "1. What specific claims does each entry make?\n"@
        + "2. Do any claims directly conflict with the new entry?\n"@
        + "3. Could the apparent conflict be explained by different contexts?\n\n"@
        + "Respond with JSON array:\n"@
        + "[{\"entry\": 1, \"is_contradiction\": bool, \"type\": \"...\", \"confidence\": 0.0-1.0, \"explanation\": \"...\"}]\n"@
}

/// The entry of candidate `c`, numbered `k`.
pub open spec fn nli_entry(k: nat, c: CandidateView) -> Seq<char> {
    "## Existing Entry "@ + dec_nat(k) + " ("@ + c.node_type + " #"@ + dec_int(c.node_id as int) + ", signals: "@
        + joined(c.signals, ", "@) + "):\n"@ + c.text_excerpt + "\n\n"@
}

/// The entries of the candidates `cs`, numbered from one.
pub open spec fn nli_entries(cs: Seq<CandidateView>) -> Seq<char>
    decreases cs.len(),
{
    if cs.len() == 0 { Seq::empty() } else { nli_entries(cs.drop_last()) + nli_entry(cs.len(), cs.last()) }
}

/// The prompt that asks the second layer whether `new_text` contradicts
/// the candidates `cs`.
pub open spec fn nli_prompt(new_text: Seq<char>, cs: Seq<CandidateView>) -> Seq<char> {
    nli_head() + "## New Entry:\n"@ + new_text + "\n\n"@ + nli_entries(cs) + nli_tail()
}

fn push_joined_names(out: &mut String, parts: &Vec<String>, sep: &str)
    ensures
        final(out)@ == old(out)@ + joined(text_views(parts@), sep@),
{
    let ghost ps = text_views(parts@);
    let mut i: usize = 0;
    while i < parts.len()
        invariant
            ps == text_views(parts@),
            i <= parts@.len(),
            out@ == old(out)@ + joined(ps.take(i as int), sep@),
        decreases parts@.len() - i,
    {
        if i > 0 {
            push_str(out, sep);
        }
        push_str(out, parts[i].as_str());
        proof {
            let t = ps.take(i + 1);
            if i == 0 {
                assert(t.len() == 1);
                assert(joined(ps.take(0), sep@) =~= Seq::<char>::empty());
            } else {
                assert(t.drop_last() =~= ps.take(i as int));
            }
            assert(out@ =~= old(out)@ + joined(t, sep@));
        }
        i = i + 1;
    }
    proof { lemma_take_all(ps); }
}

proof fn lemma_take_all<A>(s: Seq<A>)
    ensures
        s.take(s.len() as int) == s,
{
    assert(s.take(s.len() as int) =~= s);
}

/// The prompt that asks the second layer of detection whether `new_text`
/// contradicts the candidates; see `nli_prompt`.
pub fn generate_nli_prompt(new_text: &str, candidates: &[ContradictionCandidate]) -> (prompt: String)
    ensures
        prompt@ == nli_prompt(new_text@, candidate_views(candidates@)),
{
    let ghost cv = candidate_views(candidates@);
    let mut prompt = String::new();
    push_str(&mut prompt, "You are a contradiction analyst for a research knowledge base.\n");
    push_str(&mut prompt, "Determine whether these research entries contain contradictory claims.\n\n");
    push_str(&mut prompt, "## Contradiction Types\n");
    push_str(&mut prompt, "1. DIRECT_NEGATION: One entry explicitly negates a claim in the other\n");
    push_str(&mut prompt, "2. NUMERIC_CONFLICT: Entries report different numbers for the same measurement\n");
    push_str(&mut prompt, "3. TEMPORAL_SUPERSESSION: A later entry implicitly invalidates an earlier one\n");
    push_str(&mut prompt, "4. CAUSAL_CONFLICT: Entries attribute different causes to the same effect\n");
    push_str(&mut prompt, "5. RECOMMENDATION_CONFLICT: Entries recommend opposite actions\n");
    push_str(&mut prompt, "6. NONE: No contradiction exists\n\n");
    push_str(&mut prompt, "## Important: NOT contradictions\n");
    push_str(&mut prompt, "- Different contexts (GPU vs CPU) are NOT contradictions\n");
    push_str(&mut prompt, "- Explicit updates/corrections that acknowledge the change are UPDATES not contradictions\n");
    push_str(&mut prompt, "- Different granularity (~95 tok/s vs 97.2 tok/s) is compatible\n");
    push_str(&mut prompt, "- Uncertainty vs certainty (might work vs works) is compatible\n\n");
    proof { assert(prompt@ =~= nli_head()); }
    push_str(&mut prompt, "## New Entry:\n");
    push_str(&mut prompt, new_text);
    push_str(&mut prompt, "\n\n");
    let ghost head = prompt@;
    let mut i: usize = 0;
    while i < candidates.len()
        invariant
            cv == candidate_views(candidates@),
            i <= candidates@.len(),
            prompt@ == head + nli_entries(cv.take(i as int)),
        decreases candidates@.len() - i,
    {
        let c = &candidates[i];
        proof {
            assert(cv.take(i + 1).drop_last() =~= cv.take(i as int));
            assert(cv[i as int] == c.view());
        }
        push_str(&mut prompt, "## Existing Entry ");
        push_usize(&mut prompt, i + 1);
        push_str(&mut prompt, " (");
        push_str(&mut prompt, c.node_type.as_str());
        push_str(&mut prompt, " #");
        push_i64(&mut prompt, c.node_id);
        push_str(&mut prompt, ", signals: ");
        push_joined_names(&mut prompt, &c.signals, ", ");
        push_str(&mut prompt, "):\n");
        push_str(&mut prompt, c.text_excerpt.as_str());
        push_str(&mut prompt, "\n\n");
        proof { assert(prompt@ =~= head + nli_entries(cv.take(i + 1))); }
        i = i + 1;
    }
    proof { lemma_take_all(cv); }
    let ghost mid = prompt@;
    push_str(&mut prompt, "## Analysis\n");
    push_str(&mut prompt, "Think step by step for each existing entry:\n");
    push_str(&mut prompt, "1. What specific claims does each entry make?\n");
    push_str(&mut prompt, "2. Do any claims directly conflict with the new entry?\n");
    push_str(&mut prompt, "3. Could the apparent conflict be explained by different contexts?\n\n");
    push_str(&mut prompt, "Respond with JSON array:\n");
    push_str(&mut prompt, "[{\"entry\": 1, \"is_contradiction\": bool, \"type\": \"...\", \"confidence\": 0.0-1.0, \"explanation\": \"...\"}]\n");
    proof {
        assert(prompt@ =~= mid + nli_tail());
        assert(prompt@ =~= nli_prompt(new_text@, cv));
    }
    prompt
}

// ---------------------------------------------------------------- report

/// A weight in tenths written with one decimal.
pub open spec fn tenths_text(t: nat) -> Seq<char> {
    dec_nat(t / 10) + "."@ + dec_nat(t % 10)
}

/// The excerpt of a candidate's text in the report: its first 120
/// characters and an ellipsis when it runs over 120 bytes.
pub open spec fn report_excerpt(t: Seq<char>) -> Seq<char> {
    if utf8_len(t) > 120 { prefix(t, 120) + "..."@ } else { t }
}

/// The report lines of candidate `c`.
pub open spec fn report_entry(c: CandidateView) -> Seq<char> {
    "  "@ + c.node_type + " #"@ + dec_int(c.node_id as int) + " [score:"@ + tenths_text(c.signal_score) + "] signals: "@
        + joined(c.signals, ", "@) + "\n    \""@ + report_excerpt(c.text_excerpt) + "\"\n\n"@
}

/// The report lines of the candidates `cs`.
pub open spec fn report_entries(cs: Seq<CandidateView>) -> Seq<char>
    decreases cs.len(),
{
    if cs.len() == 0 { Seq::empty() } else { report_entries(cs.drop_last()) + report_entry(cs.last()) }
}

/// The report of the first layer: nothing without candidates; otherwise a
/// heading, the candidates, and a note when a second-layer prompt is
/// ready.
pub open spec fn layer1_report(cs: Seq<CandidateView>, has_prompt: bool) -> Seq<char> {
    if cs.len() == 0 {
        Seq::empty()
    } else {
        "\n=== Contradiction Detection (Layer 1) ===\n"@ + dec_nat(cs.len()) + " candidate(s) flagged for review:\n\n"@
            + report_entries(cs)
            + (if has_prompt { "Layer 2 NLI analysis suggested. Prompt available for the subagent.\n"@ } else { Seq::empty() })
    }
}

fn push_report_entry(out: &mut String, c: &ContradictionCandidate)
    ensures
        final(out)@ == old(out)@ + report_entry(c.view()),
{
    push_str(out, "  ");
    push_str(out, c.node_type.as_str());
    push_str(out, " #");
    push_i64(out, c.node_id);
    push_str(out, " [score:");
    push_u64(out, (c.signal_score / 10) as u64);
    push_str(out, ".");
    push_u64(out, (c.signal_score % 10) as u64);
    push_str(out, "] signals: ");
    push_joined_names(out, &c.signals, ", ");
    push_str(out, "\n    \"");
    let ghost mid = out@;
    let cs = chars_of(c.text_excerpt.as_str());
    if utf8_len_at_least(&cs, 121) {
        let t = take_chars(c.text_excerpt.as_str(), 120);
        push_str(out, t.as_str());
        push_str(out, "...");
    } else {
        push_str(out, c.text_excerpt.as_str());
    }
    proof { assert(out@ =~= mid + report_excerpt(c.text_excerpt@)); }
    push_str(out, "\"\n\n");
    proof { assert(out@ =~= old(out)@ + report_entry(c.view())); }
}

/// The report of what the first layer of detection found; see
/// `layer1_report`.
pub fn format_layer1_results(new_text: &str, results: &Layer1Result) -> (out: String)
    ensures
        out@ == layer1_report(candidate_views(results.candidates@), results.subagent_prompt is Some),
{
    let ghost cv = candidate_views(results.candidates@);
    let mut out = String::new();
    if results.candidates.len() == 0 {
        proof { assert(out@ =~= layer1_report(cv, results.subagent_prompt is Some)); }
        return out;
    }
    push_str(&mut out, "\n=== Contradiction Detection (Layer 1) ===\n");
    push_usize(&mut out, results.candidates.len());
    push_str(&mut out, " candidate(s) flagged for review:\n\n");
    let ghost head = out@;
    let mut i: usize = 0;
    while i < results.candidates.len()
        invariant
            cv == candidate_views(results.candidates@),
            i <= results.candidates@.len(),
            out@ == head + report_entries(cv.take(i as int)),
        decreases results.candidates@.len() - i,
    {
        proof {
            assert(cv.take(i + 1).drop_last() =~= cv.take(i as int));
            assert(cv[i as int] == results.candidates@[i as int].view());
        }
        push_report_entry(&mut out, &results.candidates[i]);
        i = i + 1;
    }
    proof { lemma_take_all(cv); }
    if results.subagent_prompt.is_some() {
        push_str(&mut out, "Layer 2 NLI analysis suggested. Prompt available for the subagent.\n");
    }
    proof { assert(out@ =~= layer1_report(cv, results.subagent_prompt is Some)); }
    out
}

} // verus!
