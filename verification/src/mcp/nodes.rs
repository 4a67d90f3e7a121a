//! Tools that create research nodes and move them through their
//! lifecycles, linking each into the causal backbone
//! (phase, experiment, finding, decision, hypothesis or research).
use vstd::prelude::*;
use crate::text::{trim, parse_i64, lead_ws, trail_ws, all_digits, digits_value, digit_char, is_digit, unsigned_part, whitespace, trim_chars, parse_i64_chars, chars_of, lowercase, seq_contains, to_lower, contains_chars,
    push_str, push_i64, push_usize, dec_int, dec_nat, str_eq};
use crate::store::{Store, StoreView, StoreError, PhaseStatus, PhaseView, Experiment, ExperimentStatus, experiment_in, opt_ref,
    opt_str, Literature, Finding, Decision, NodeType, EdgeType, has_room};
use crate::mcp::common::{error_text, error_str, validation_heading, too_short, push_too_short, project_named, find_project,
    try_links, try_link, link, link_line, guidance, views, pair_views, push_guidance, lemma_try_links_append,
    lemma_try_links_one, lemma_try_links_push, lemma_try_links_len};

verus! {

broadcast use vstd::seq_lib::group_seq_properties;

/// The comma-separated parts of `s`, in order; a text without commas is
/// one part.
pub open spec fn split_commas(s: Seq<char>) -> Seq<Seq<char>>
    decreases s.len(),
{
    if s.len() == 0 {
        seq![Seq::<char>::empty()]
    } else {
        let p = split_commas(s.drop_last());
        if s.last() == ',' {
            p.push(Seq::<char>::empty())
        } else {
            p.update(p.len() - 1, p.last().push(s.last()))
        }
    }
}

/// The ids among `parts`: each part that, trimmed, parses as an `i64`.
pub open spec fn ids_of(parts: Seq<Seq<char>>) -> Seq<i64>
    decreases parts.len(),
{
    if parts.len() == 0 {
        Seq::empty()
    } else {
        let r = ids_of(parts.drop_last());
        match parse_i64(trim(parts.last())) {
            Some(v) => r.push(v),
            None => r,
        }
    }
}

proof fn lemma_split_nonempty(s: Seq<char>)
    ensures
        split_commas(s).len() >= 1,
    decreases s.len(),
{
    if s.len() > 0 {
        lemma_split_nonempty(s.drop_last());
    }
}

/// Ids written in decimal and joined by commas.
pub open spec fn id_list(ids: Seq<i64>) -> Seq<char>
    decreases ids.len(),
{
    if ids.len() == 0 {
        Seq::empty()
    } else if ids.len() == 1 {
        dec_int(ids[0] as int)
    } else {
        id_list(ids.drop_last()) + seq![','] + dec_int(ids.last() as int)
    }
}

proof fn lemma_digit_char(d: nat)
    requires
        d < 10,
    ensures
        is_digit(digit_char(d)),
        (digit_char(d) as nat - '0' as nat) == d,
{
}

proof fn lemma_dec_nat(n: nat)
    ensures
        dec_nat(n).len() > 0,
        all_digits(dec_nat(n)),
        digits_value(dec_nat(n)) == n,
    decreases n,
{
    lemma_digit_char(n % 10);
    if n >= 10 {
        lemma_dec_nat(n / 10);
        let s = dec_nat(n / 10).push(digit_char(n % 10));
        assert(s.drop_last() =~= dec_nat(n / 10));
        assert(s.last() == digit_char(n % 10));
        assert(((s.last() as nat - '0' as nat) as nat) == n % 10);
        assert(digits_value(s) == digits_value(dec_nat(n / 10)) * 10 + n % 10);
        assert(n == (n / 10) * 10 + n % 10);
        assert(all_digits(s)) by {
            assert forall|k: int| 0 <= k < s.len() implies is_digit(#[trigger] s[k]) by {
                if k < s.len() - 1 {
                    assert(s[k] == dec_nat(n / 10)[k]);
                }
            }
        }
    } else {
        assert(dec_nat(n).drop_last() =~= Seq::<char>::empty());
        assert(dec_nat(n).last() == digit_char(n));
        assert(((dec_nat(n).last() as nat - '0' as nat) as nat) == n);
        assert(digits_value(dec_nat(n)) == digits_value(Seq::<char>::empty()) * 10 + n);
    }
}

proof fn lemma_dec_int(i: int)
    ensures
        dec_int(i).len() > 0,
        forall|k: int| 0 <= k < dec_int(i).len() ==> #[trigger] dec_int(i)[k] != ',' && !whitespace(dec_int(i)[k]),
        parse_i64(trim(dec_int(i))) == (if i64::MIN <= i <= i64::MAX { Some(i as i64) } else { None::<i64> }),
{
    let t = dec_int(i);
    if i < 0 {
        lemma_dec_nat((-i) as nat);
        assert(t.drop_first() =~= dec_nat((-i) as nat));
        assert forall|k: int| 0 <= k < t.len() implies #[trigger] t[k] != ',' && !whitespace(t[k]) by {
            if k > 0 {
                assert(t[k] == dec_nat((-i) as nat)[k - 1]);
                assert(is_digit(dec_nat((-i) as nat)[k - 1]));
            }
        }
    } else {
        lemma_dec_nat(i as nat);
        assert forall|k: int| 0 <= k < t.len() implies #[trigger] t[k] != ',' && !whitespace(t[k]) by {
            assert(is_digit(t[k]));
        }
    }
    assert(lead_ws(t) == 0);
    assert(!whitespace(t.last()));
    assert(trail_ws(t) == 0);
    assert(trim(t) =~= t);
}

proof fn lemma_split_plain(s: Seq<char>, t: Seq<char>)
    requires
        forall|k: int| 0 <= k < t.len() ==> #[trigger] t[k] != ',',
    ensures
        split_commas(s).len() >= 1,
        split_commas(s + t) == split_commas(s).update(split_commas(s).len() - 1, split_commas(s).last() + t),
    decreases t.len(),
{
    lemma_split_nonempty(s);
    let p = split_commas(s);
    if t.len() == 0 {
        assert(s + t =~= s);
        assert(p.last() + t =~= p.last());
        assert(p.update(p.len() - 1, p.last()) =~= p);
    } else {
        let t2 = t.drop_last();
        lemma_split_plain(s, t2);
        assert((s + t).drop_last() =~= s + t2);
        assert((s + t).last() == t.last());
        let q = p.update(p.len() - 1, p.last() + t2);
        assert(split_commas(s + t) == q.update(q.len() - 1, q.last().push(t.last())));
        assert(p.last() + t2 + seq![t.last()] =~= p.last() + t);
        assert(q.last().push(t.last()) =~= p.last() + t);
        assert(q.update(q.len() - 1, q.last().push(t.last())) =~= p.update(p.len() - 1, p.last() + t));
    }
}

proof fn lemma_split_id_list(ids: Seq<i64>)
    requires
        ids.len() >= 1,
    ensures
        split_commas(id_list(ids)) == ids.map_values(|i: i64| dec_int(i as int)),
    decreases ids.len(),
{
    let x = ids.last();
    lemma_dec_int(x as int);
    if ids.len() == 1 {
        lemma_split_plain(Seq::empty(), dec_int(x as int));
        assert(Seq::<char>::empty() + dec_int(x as int) =~= dec_int(x as int));
        assert(split_commas(Seq::<char>::empty()) == seq![Seq::<char>::empty()]);
        assert(Seq::<char>::empty() + dec_int(x as int) =~= dec_int(x as int));
        assert(ids.map_values(|i: i64| dec_int(i as int)) =~= seq![dec_int(x as int)]);
    } else {
        let a = id_list(ids.drop_last());
        lemma_split_id_list(ids.drop_last());
        let ac = a + seq![','];
        assert(ac.drop_last() =~= a);
        lemma_split_nonempty(a);
        assert(split_commas(ac) == split_commas(a).push(Seq::<char>::empty()));
        lemma_split_plain(ac, dec_int(x as int));
        assert(Seq::<char>::empty() + dec_int(x as int) =~= dec_int(x as int));
        assert(split_commas(ac + dec_int(x as int)) =~= split_commas(a).push(dec_int(x as int)));
        assert(id_list(ids) == ac + dec_int(x as int));
        assert(ids.map_values(|i: i64| dec_int(i as int)) =~= ids.drop_last().map_values(|i: i64| dec_int(i as int)).push(dec_int(x as int)));
    }
}

proof fn lemma_ids_of_rendered(ids: Seq<i64>)
    ensures
        ids_of(ids.map_values(|i: i64| dec_int(i as int))) == ids,
    decreases ids.len(),
{
    if ids.len() > 0 {
        let parts = ids.map_values(|i: i64| dec_int(i as int));
        lemma_ids_of_rendered(ids.drop_last());
        assert(parts.drop_last() =~= ids.drop_last().map_values(|i: i64| dec_int(i as int)));
        lemma_dec_int(ids.last() as int);
        assert(ids.drop_last().push(ids.last()) =~= ids);
    } else {
        assert(ids.map_values(|i: i64| dec_int(i as int)) =~= Seq::<Seq<char>>::empty());
    }
}

/// Writing ids in decimal, joined by commas, and parsing the list back gives
/// the same ids, in order, with duplicates and negative ids (`i64::MIN`
/// among them) kept.
pub proof fn law_parse_ids_round_trip(ids: Seq<i64>)
    ensures
        ids_of(split_commas(id_list(ids))) == ids,
{
    if ids.len() == 0 {
        assert(split_commas(id_list(ids)) == seq![Seq::<char>::empty()]);
        assert(seq![Seq::<char>::empty()].drop_last() =~= Seq::<Seq<char>>::empty());
        assert(lead_ws(Seq::<char>::empty()) == 0);
        assert(trim(Seq::<char>::empty()) =~= Seq::<char>::empty());
        assert(unsigned_part(Seq::<char>::empty()) =~= Seq::<char>::empty());
        assert(parse_i64(trim(Seq::<char>::empty())) is None);
        assert(ids_of(seq![Seq::<char>::empty()]) == ids_of(Seq::<Seq<char>>::empty()));
        assert(ids =~= Seq::<i64>::empty());
    } else {
        lemma_split_id_list(ids);
        lemma_ids_of_rendered(ids);
        assert(split_commas(id_list(ids)) == ids.map_values(|i: i64| dec_int(i as int)));
    }
}

/// The ids in a comma-separated list; parts that are not integers are
/// skipped.
#[verifier::rlimit(30)]
pub fn parse_ids(s: &str) -> (ids: Vec<i64>)
    ensures
        ids@ == ids_of(split_commas(s@)),
{
    let cs = chars_of(s);
    let n = cs.len();
    let mut out: Vec<i64> = Vec::new();
    let mut start: usize = 0;
    let mut i: usize = 0;
    proof {
        assert(cs@.take(0) =~= Seq::<char>::empty());
    }
    while i < n
        invariant
            n == cs@.len(),
            cs@ == s@,
            start <= i <= n,
            split_commas(cs@.take(i as int)).len() >= 1,
            split_commas(cs@.take(i as int)).last() == cs@.subrange(start as int, i as int),
            out@ == ids_of(split_commas(cs@.take(i as int)).drop_last()),
        decreases n - i,
    {
        let ghost p = split_commas(cs@.take(i as int));
        proof {
            assert(cs@.take(i + 1).drop_last() =~= cs@.take(i as int));
            assert(cs@.take(i + 1).last() == cs@[i as int]);
        }
        if cs[i] == ',' {
            let part = trim_chars(&cs, start, i);
            let v = parse_i64_chars(&part);
            if let Some(x) = v {
                out.push(x);
            }
            proof {
                let q = split_commas(cs@.take(i + 1));
                assert(q == p.push(Seq::<char>::empty()));
                assert(q.drop_last() =~= p);
                assert(p.drop_last().push(p.last()) =~= p);
                assert(cs@.subrange(i + 1, i + 1) =~= Seq::<char>::empty());
            }
            start = i + 1;
        } else {
            proof {
                let q = split_commas(cs@.take(i + 1));
                assert(q.drop_last() =~= p.drop_last());
                assert(q.last() =~= cs@.subrange(start as int, i + 1));
            }
        }
        i = i + 1;
    }
    let part = trim_chars(&cs, start, n);
    let v = parse_i64_chars(&part);
    if let Some(x) = v {
        out.push(x);
    }
    proof {
        let p = split_commas(cs@.take(n as int));
        assert(cs@.take(n as int) =~= s@);
        assert(p.drop_last().push(p.last()) =~= p);
    }
    out
}

/// The phase status that a tool argument names: pending, in_progress,
/// complete or paused.
pub open spec fn phase_status_named(s: Seq<char>) -> Option<PhaseStatus> {
    if s == "pending"@ {
        Some(PhaseStatus::Pending)
    } else if s == "in_progress"@ {
        Some(PhaseStatus::InProgress)
    } else if s == "complete"@ {
        Some(PhaseStatus::Complete)
    } else if s == "paused"@ {
        Some(PhaseStatus::Paused)
    } else {
        None
    }
}

fn phase_status_of(s: &str) -> (r: Option<PhaseStatus>)
    ensures
        r == phase_status_named(s@),
{
    if str_eq(s, "pending") {
        Some(PhaseStatus::Pending)
    } else if str_eq(s, "in_progress") {
        Some(PhaseStatus::InProgress)
    } else if str_eq(s, "complete") {
        Some(PhaseStatus::Complete)
    } else if str_eq(s, "paused") {
        Some(PhaseStatus::Paused)
    } else {
        None
    }
}

/// The validation line for a status that the lifecycle of `kind` does not
/// know.
pub open spec fn bad_status_line(kind: Seq<char>, s: Seq<char>, allowed: Seq<char>) -> Seq<char> {
    "  - status: '"@ + s + "' is not a valid "@ + kind + " status ("@ + allowed + ")\n"@
}

/// Picks out the experiments that are still pending.
pub open spec fn is_pending() -> spec_fn(Experiment) -> bool {
    |e: Experiment| e.status == ExperimentStatus::Pending
}

/// The pending experiments of phase `pid`, in creation order.
pub open spec fn pending_experiments(v: StoreView, pid: i64) -> Seq<Experiment> {
    v.experiments.filter(experiment_in(Some(pid))).filter(is_pending())
}

/// One line per experiment: its id and name.
pub open spec fn exp_lines(es: Seq<Experiment>) -> Seq<char>
    decreases es.len(),
{
    if es.len() == 0 {
        Seq::empty()
    } else {
        exp_lines(es.drop_last()) + "  Exp #"@ + dec_int(es.last().id as int) + ": "@ + es.last().name@ + "\n"@
    }
}

/// Store `v` with the given description, goals and success criteria of
/// phase `id` replaced (each only where given).
pub open spec fn with_phase_fields(v: StoreView, id: i64, d: Option<&str>, g: Option<&str>, c: Option<&str>) -> StoreView {
    if d is Some || g is Some || c is Some {
        v.with_phases(v.phases.update(id - 1, (PhaseView {
            description: if d is Some { opt_ref(d) } else { v.phases[id - 1].description },
            goals: if g is Some { opt_ref(g) } else { v.phases[id - 1].goals },
            success_criteria: if c is Some { opt_ref(c) } else { v.phases[id - 1].success_criteria },
            ..v.phases[id - 1]
        })))
    } else {
        v
    }
}

/// Store `v` with phase `id` stamped as started at the current clock reading.
pub open spec fn phase_started(v: StoreView, id: i64) -> StoreView {
    StoreView {
        phases: v.phases.update(id - 1, (PhaseView { started_at: Some(v.clock), ..v.phases[id - 1] })),
        clock: Store::tick(v.clock),
        ..v
    }
}

/// Store `v` with phase `id` stamped as completed at the current clock reading.
pub open spec fn phase_completed(v: StoreView, id: i64) -> StoreView {
    StoreView {
        phases: v.phases.update(id - 1, (PhaseView { completed_at: Some(v.clock), ..v.phases[id - 1] })),
        clock: Store::tick(v.clock),
        ..v
    }
}

/// Store `v` with the status of phase `id` set.
pub open spec fn phase_status_set(v: StoreView, id: i64, st: PhaseStatus) -> StoreView {
    v.with_phases(v.phases.update(id - 1, (PhaseView { status: st, ..v.phases[id - 1] })))
}

/// What updating phase `id` does: the store after it and the answer.
/// A missing phase is reported. The given fields are written first; then a
/// status, where given, must be one the lifecycle knows, and a phase is
/// completed only when none of its experiments is pending. Moving to
/// in-progress stamps a phase's start (when it has none); completing
/// stamps its completion.
pub open spec fn phase_update_result(v: StoreView, id: i64, d: Option<&str>, g: Option<&str>, c: Option<&str>,
    status: Option<&str>) -> (StoreView, Seq<char>) {
    match v.phase(id) {
        None => (v, "Phase not found: "@ + error_text(StoreError::NotFound)),
        Some(p) => {
            let v1 = with_phase_fields(v, id, d, g, c);
            let head = "Phase #"@ + dec_int(id as int) + " ("@ + p.name + ") "@;
            match status {
                None => (v1, head + "fields updated"@),
                Some(s) => match phase_status_named(s@) {
                    None => (v1, validation_heading() + bad_status_line("phase"@, s@, "pending, in_progress, complete, paused"@)),
                    Some(ns) => {
                        let pend = pending_experiments(v1, id);
                        if ns == PhaseStatus::Complete && pend.len() > 0 {
                            (v1, "\u{274c} Cannot complete phase #"@ + dec_int(id as int) + ": "@ + dec_nat(pend.len())
                                + " pending experiment(s):\n"@ + exp_lines(pend)
                                + "\nResolve all experiments (pass/fail/inconclusive) before completing the phase."@)
                        } else {
                            let v2 = if ns == PhaseStatus::InProgress && p.started_at is None { phase_started(v1, id) } else { v1 };
                            let v3 = if ns == PhaseStatus::Complete { phase_completed(v2, id) } else { v2 };
                            (phase_status_set(v3, id, ns), head + "updated to "@ + ns.spec_name())
                        }
                    },
                },
            }
        },
    }
}

/// Updates a phase's details and status, with completion gating; see
/// `phase_update_result`.
pub fn tool_phase_update(store: &mut Store, phase_id: i64, description: Option<&str>, goals: Option<&str>,
    success_criteria: Option<&str>, status: Option<&str>) -> (out: String)
    requires
        old(store).wf(),
    ensures
        final(store).wf(),
        (final(store)@, out@) == phase_update_result(old(store)@, phase_id, description, goals, success_criteria, status),
{
    let ghost v = store@;
    let phase = match store.get_phase(phase_id) {
        Ok(p) => p,
        Err(e) => {
            let mut out = String::new();
            push_str(&mut out, "Phase not found: ");
            push_str(&mut out, error_str(e));
            return out;
        },
    };
    if description.is_some() || goals.is_some() || success_criteria.is_some() {
        let _ = store.update_phase_fields(phase_id, description, goals, success_criteria);
    }
    let ghost v1 = store@;
    proof {
        assert(v1 == with_phase_fields(v, phase_id, description, goals, success_criteria));
    }
    let mut head = String::new();
    push_str(&mut head, "Phase #");
    push_i64(&mut head, phase_id);
    push_str(&mut head, " (");
    push_str(&mut head, phase.name.as_str());
    push_str(&mut head, ") ");
    let status_str = match status {
        None => {
            push_str(&mut head, "fields updated");
            return head;
        },
        Some(s) => s,
    };
    let new_status = match phase_status_of(status_str) {
        Some(ns) => ns,
        None => {
            let mut out = String::new();
            push_str(&mut out, "\u{274c} VALIDATION ERROR:\n");
            push_str(&mut out, "  - status: '");
            push_str(&mut out, status_str);
            push_str(&mut out, "' is not a valid ");
            push_str(&mut out, "phase");
            push_str(&mut out, " status (");
            push_str(&mut out, "pending, in_progress, complete, paused");
            push_str(&mut out, ")\n");
            return out;
        },
    };
    if new_status == PhaseStatus::Complete {
        let exps = match store.list_experiments(Some(phase_id)) {
            Ok(x) => x,
            Err(_) => Vec::new(),
        };
        let ghost all = exps@;
        let mut pending: Vec<Experiment> = Vec::new();
        let mut lines = String::new();
        let mut i: usize = 0;
        while i < exps.len()
            invariant
                i <= exps@.len(),
                all == exps@,
                all == v1.experiments.filter(experiment_in(Some(phase_id))),
                pending@ == all.take(i as int).filter(is_pending()),
                lines@ == exp_lines(pending@),
            decreases exps@.len() - i,
        {
            proof {
                assert(all.take(i + 1) =~= all.take(i as int).push(all[i as int]));
                all.take(i as int).lemma_filter_push(all[i as int], is_pending());
            }
            if exps[i].status == ExperimentStatus::Pending {
                let e = exps[i].dup();
                push_str(&mut lines, "  Exp #");
                push_i64(&mut lines, e.id);
                push_str(&mut lines, ": ");
                push_str(&mut lines, e.name.as_str());
                push_str(&mut lines, "\n");
                let ghost before = pending@;
                pending.push(e);
                proof {
                    assert(pending@.drop_last() =~= before);
                }
            }
            i = i + 1;
        }
        proof {
            assert(all.take(i as int) =~= all);
        }
        if pending.len() > 0 {
            let mut out = String::new();
            push_str(&mut out, "\u{274c} Cannot complete phase #");
            push_i64(&mut out, phase_id);
            push_str(&mut out, ": ");
            push_usize(&mut out, pending.len());
            push_str(&mut out, " pending experiment(s):\n");
            push_str(&mut out, lines.as_str());
            push_str(&mut out, "\nResolve all experiments (pass/fail/inconclusive) before completing the phase.");
            return out;
        }
    }
    if new_status == PhaseStatus::InProgress && phase.started_at.is_none() {
        let _ = store.set_phase_started(phase_id);
    }
    if new_status == PhaseStatus::Complete {
        let _ = store.set_phase_completed(phase_id);
    }
    let _ = store.update_phase_status(phase_id, new_status);
    push_str(&mut head, "updated to ");
    push_str(&mut head, new_status.name());
    head
}

/// The literature statuses: unread, read, cited, tested, dead_end,
/// promising, integrated.
pub open spec fn lit_statuses() -> Seq<Seq<char>> {
    seq!["unread"@, "read"@, "cited"@, "tested"@, "dead_end"@, "promising"@, "integrated"@]
}

/// The statuses a literature entry may move to from `cur`; none from the
/// terminal states dead_end and integrated, and any from a status the
/// lifecycle does not know.
pub open spec fn lit_transitions(cur: Seq<char>) -> Seq<Seq<char>> {
    if cur == "unread"@ {
        seq!["read"@, "dead_end"@]
    } else if cur == "read"@ {
        seq!["cited"@, "tested"@, "dead_end"@, "promising"@]
    } else if cur == "cited"@ {
        seq!["tested"@, "dead_end"@, "promising"@, "integrated"@]
    } else if cur == "tested"@ {
        seq!["dead_end"@, "promising"@, "integrated"@]
    } else if cur == "promising"@ {
        seq!["tested"@, "cited"@, "integrated"@]
    } else if cur == "dead_end"@ || cur == "integrated"@ {
        Seq::empty()
    } else {
        lit_statuses()
    }
}

/// The items joined by ", ".
pub open spec fn joined(items: Seq<Seq<char>>) -> Seq<char>
    decreases items.len(),
{
    if items.len() == 0 {
        Seq::empty()
    } else if items.len() == 1 {
        items[0]
    } else {
        joined(items.drop_last()) + ", "@ + items.last()
    }
}

fn literature_statuses() -> (v: Vec<&'static str>)
    ensures
        v@.map_values(|t: &str| t@) == lit_statuses(),
{
    let v = vec!["unread", "read", "cited", "tested", "dead_end", "promising", "integrated"];
    proof { assert(v@.map_values(|t: &str| t@) =~= lit_statuses()); }
    v
}

fn transitions_from(cur: &str) -> (v: Vec<&'static str>)
    ensures
        v@.map_values(|t: &str| t@) == lit_transitions(cur@),
{
    let v = if str_eq(cur, "unread") {
        vec!["read", "dead_end"]
    } else if str_eq(cur, "read") {
        vec!["cited", "tested", "dead_end", "promising"]
    } else if str_eq(cur, "cited") {
        vec!["tested", "dead_end", "promising", "integrated"]
    } else if str_eq(cur, "tested") {
        vec!["dead_end", "promising", "integrated"]
    } else if str_eq(cur, "promising") {
        vec!["tested", "cited", "integrated"]
    } else if str_eq(cur, "dead_end") || str_eq(cur, "integrated") {
        Vec::new()
    } else {
        literature_statuses()
    };
    proof { assert(v@.map_values(|t: &str| t@) =~= lit_transitions(cur@)); }
    v
}

/// Whether `s` is among `items`.
fn listed(items: &Vec<&'static str>, s: &str) -> (b: bool)
    ensures
        b == items@.map_values(|t: &str| t@).contains(s@),
{
    let ghost m = items@.map_values(|t: &str| t@);
    let mut i: usize = 0;
    while i < items.len()
        invariant
            i <= items@.len(),
            m == items@.map_values(|t: &str| t@),
            forall|k: int| 0 <= k < i ==> m[k] != s@,
        decreases items@.len() - i,
    {
        if str_eq(items[i], s) {
            proof { assert(m[i as int] == s@); }
            return true;
        }
        i = i + 1;
    }
    false
}

/// Appends the items of `items` joined by ", ".
fn push_joined(out: &mut String, items: &Vec<&'static str>)
    ensures
        final(out)@ == old(out)@ + joined(items@.map_values(|t: &str| t@)),
{
    let ghost m = items@.map_values(|t: &str| t@);
    let mut i: usize = 0;
    while i < items.len()
        invariant
            i <= items@.len(),
            m == items@.map_values(|t: &str| t@),
            out@ == old(out)@ + joined(m.take(i as int)),
        decreases items@.len() - i,
    {
        if i > 0 {
            push_str(out, ", ");
        }
        push_str(out, items[i]);
        proof {
            assert(m.take(i + 1).drop_last() =~= m.take(i as int));
            if i == 0 {
                assert(joined(m.take(1)) == m.take(1)[0]);
            }
            assert(out@ =~= old(out)@ + joined(m.take(i + 1)));
        }
        i = i + 1;
    }
    proof { assert(m.take(i as int) =~= m); }
}

/// The current status of literature entry `l` ("unread" when it has none).
pub open spec fn lit_current(l: Literature) -> Seq<char> {
    match opt_str(l.status) {
        Some(s) => s,
        None => "unread"@,
    }
}

/// The links that a new literature status suggests.
pub open spec fn lit_suggestions(id: i64, status: Seq<char>) -> Seq<char> {
    let i = dec_int(id as int);
    if status == "cited"@ {
        "\n\nSuggested edges:"@
            + "\n  pm_add_edge source_type=literature source_id="@ + i + " target_type=finding target_id=? relation=cited"@
            + "\n  pm_add_edge source_type=literature source_id="@ + i + " target_type=experiment target_id=? relation=informed"@
    } else if status == "tested"@ {
        "\n\nSuggested edges:"@
            + "\n  pm_add_edge source_type=experiment source_id=? target_type=literature target_id="@ + i + " relation=tested_by"@
    } else if status == "integrated"@ {
        "\n\nSuggested edges:"@
            + "\n  pm_add_edge source_type=literature source_id="@ + i + " target_type=finding target_id=? relation=informed"@
            + "\n  pm_add_edge source_type=literature source_id="@ + i + " target_type=decision target_id=? relation=informed"@
    } else {
        Seq::empty()
    }
}

/// Whether the status of literature entry `id` may move to `status`: the
/// status is one the lifecycle knows, the entry exists, and the move is
/// one its current status allows.
pub open spec fn lit_move_allowed(v: StoreView, id: i64, status: Seq<char>) -> bool {
    &&& lit_statuses().contains(status)
    &&& v.literature_entry(id) is Some
    &&& lit_transitions(lit_current(v.literature_entry(id).unwrap())).contains(status)
}

/// The answer to a literature status change (see `lit_move_allowed`): a
/// validation error, a lookup error, a terminal state, a move the lifecycle
/// forbids, or the new status with the links it suggests.
pub open spec fn lit_status_text(v: StoreView, id: i64, status: Seq<char>) -> Seq<char> {
    let i = dec_int(id as int);
    if !lit_statuses().contains(status) {
        validation_heading() + bad_status_line("literature"@, status, joined(lit_statuses()))
    } else {
        match v.literature_entry(id) {
            None => "Error fetching literature #"@ + i + ": "@ + error_text(StoreError::NotFound),
            Some(l) => {
                let cur = lit_current(l);
                let ts = lit_transitions(cur);
                if ts.len() == 0 {
                    "\u{274c} Literature #"@ + i + " is in terminal state '"@ + cur + "'. Cannot transition further."@
                } else if !ts.contains(status) {
                    "\u{274c} Invalid literature transition: '"@ + cur + "' -> '"@ + status + "'.\nValid transitions from '"@
                        + cur + "': "@ + joined(ts)
                        + "\n\nLifecycle: unread -> read -> cited -> tested -> dead_end/promising/integrated"@
                } else {
                    "Literature #"@ + i + " status updated to '"@ + status + "' (was '"@ + cur + "')"@ + lit_suggestions(id, status)
                }
            },
        }
    }
}

/// Moves a literature entry along its status lifecycle:
/// unread -> read -> cited -> tested -> dead_end/promising/integrated.
pub fn tool_lit_status(store: &mut Store, literature_id: i64, status: &str) -> (out: String)
    requires
        old(store).wf(),
    ensures
        final(store).wf(),
        out@ == lit_status_text(old(store)@, literature_id, status@),
        lit_move_allowed(old(store)@, literature_id, status@) ==> {
            let (o, n) = (old(store)@.literature[literature_id - 1], final(store)@.literature[literature_id - 1]);
            &&& final(store)@ == old(store)@.with_literature(old(store)@.literature.update(literature_id - 1, n))
            &&& opt_str(n.status) == Some(status@)
            &&& n == (Literature { status: n.status, ..o })
        },
        !lit_move_allowed(old(store)@, literature_id, status@) ==> final(store)@ == old(store)@,
{
    let all = literature_statuses();
    let mut out = String::new();
    if !listed(&all, status) {
        push_str(&mut out, "\u{274c} VALIDATION ERROR:\n");
        push_str(&mut out, "  - status: '");
        push_str(&mut out, status);
        push_str(&mut out, "' is not a valid ");
        push_str(&mut out, "literature");
        push_str(&mut out, " status (");
        push_joined(&mut out, &all);
        push_str(&mut out, ")\n");
        return out;
    }
    let lit = match store.get_literature(literature_id) {
        Ok(l) => l,
        Err(e) => {
            push_str(&mut out, "Error fetching literature #");
            push_i64(&mut out, literature_id);
            push_str(&mut out, ": ");
            push_str(&mut out, error_str(e));
            return out;
        },
    };
    let current: String = match &lit.status {
        Some(s) => s.clone(),
        None => "unread".to_owned(),
    };
    let ts = transitions_from(current.as_str());
    if ts.len() == 0 {
        push_str(&mut out, "\u{274c} Literature #");
        push_i64(&mut out, literature_id);
        push_str(&mut out, " is in terminal state '");
        push_str(&mut out, current.as_str());
        push_str(&mut out, "'. Cannot transition further.");
        return out;
    }
    if !listed(&ts, status) {
        push_str(&mut out, "\u{274c} Invalid literature transition: '");
        push_str(&mut out, current.as_str());
        push_str(&mut out, "' -> '");
        push_str(&mut out, status);
        push_str(&mut out, "'.\nValid transitions from '");
        push_str(&mut out, current.as_str());
        push_str(&mut out, "': ");
        push_joined(&mut out, &ts);
        push_str(&mut out, "\n\nLifecycle: unread -> read -> cited -> tested -> dead_end/promising/integrated");
        return out;
    }
    let _ = store.update_literature_status(literature_id, status);
    push_str(&mut out, "Literature #");
    push_i64(&mut out, literature_id);
    push_str(&mut out, " status updated to '");
    push_str(&mut out, status);
    push_str(&mut out, "' (was '");
    push_str(&mut out, current.as_str());
    push_str(&mut out, "')");
    if str_eq(status, "cited") {
        push_str(&mut out, "\n\nSuggested edges:");
        push_str(&mut out, "\n  pm_add_edge source_type=literature source_id=");
        push_i64(&mut out, literature_id);
        push_str(&mut out, " target_type=finding target_id=? relation=cited");
        push_str(&mut out, "\n  pm_add_edge source_type=literature source_id=");
        push_i64(&mut out, literature_id);
        push_str(&mut out, " target_type=experiment target_id=? relation=informed");
    } else if str_eq(status, "tested") {
        push_str(&mut out, "\n\nSuggested edges:");
        push_str(&mut out, "\n  pm_add_edge source_type=experiment source_id=? target_type=literature target_id=");
        push_i64(&mut out, literature_id);
        push_str(&mut out, " relation=tested_by");
    } else if str_eq(status, "integrated") {
        push_str(&mut out, "\n\nSuggested edges:");
        push_str(&mut out, "\n  pm_add_edge source_type=literature source_id=");
        push_i64(&mut out, literature_id);
        push_str(&mut out, " target_type=finding target_id=? relation=informed");
        push_str(&mut out, "\n  pm_add_edge source_type=literature source_id=");
        push_i64(&mut out, literature_id);
        push_str(&mut out, " target_type=decision target_id=? relation=informed");
    }
    proof {
        assert(out@ =~= lit_status_text(old(store)@, literature_id, status@));
    }
    out
}

/// The words of pruning and closure, each with the label it earns, in
/// the order they are looked for.
pub open spec fn cleanup_words() -> Seq<(Seq<char>, Seq<char>)> {
    seq![("deprecate"@, "deprecation"@), ("deprecating"@, "deprecation"@), ("deprecated"@, "deprecation"@),
        ("remove"@, "removal"@), ("removing"@, "removal"@),
        ("prune"@, "pruning"@), ("pruning"@, "pruning"@),
        ("cleanup"@, "cleanup"@), ("clean up"@, "cleanup"@), ("cleaning up"@, "cleanup"@),
        ("stale"@, "staleness label"@), ("abandoned"@, "abandonment label"@), ("obsolete"@, "obsolescence label"@),
        ("dead end"@, "dead end label"@), ("dead-end"@, "dead end label"@)]
}

/// The first of `ws` whose word occurs in `text`.
pub open spec fn first_word_in(text: Seq<char>, ws: Seq<(Seq<char>, Seq<char>)>) -> Option<(Seq<char>, Seq<char>)>
    decreases ws.len(),
{
    if ws.len() == 0 {
        None
    } else if seq_contains(text, ws[0].0) {
        Some(ws[0])
    } else {
        first_word_in(text, ws.drop_first())
    }
}

/// What the pruning guard finds in `text` (read in lower case): closing
/// of a research element, zeroing or reducing impact, or one of the words
/// of pruning; `None` when the text is free of them.
#[verifier::opaque]
pub open spec fn cleanup_label(text: Seq<char>) -> Option<Seq<char>> {
    let l = lowercase(text);
    if (seq_contains(l, "close"@) || seq_contains(l, "closing"@))
        && (seq_contains(l, "phase"@) || seq_contains(l, "experiment"@) || seq_contains(l, "branch"@) || seq_contains(l, "hypothesis"@)) {
        Some("closure of research element (\""@ + (if seq_contains(l, "closing"@) { "closing"@ } else { "close"@ }) + "\")"@)
    } else if seq_contains(l, "impact to 0"@) || seq_contains(l, "impact=0"@) {
        Some("zeroing impact (\"impact to 0\")"@)
    } else if seq_contains(l, "reduce impact"@) {
        Some("reducing impact (\"reduce impact\")"@)
    } else {
        match first_word_in(l, cleanup_words()) {
            Some(wl) => Some(wl.1 + " (\""@ + wl.0 + "\")"@),
            None => None,
        }
    }
}

fn cleanup_word_list() -> (v: Vec<(&'static str, &'static str)>)
    ensures
        v@.map_values(|p: (&str, &str)| (p.0@, p.1@)) == cleanup_words(),
{
    let v = vec![("deprecate", "deprecation"), ("deprecating", "deprecation"), ("deprecated", "deprecation"),
        ("remove", "removal"), ("removing", "removal"),
        ("prune", "pruning"), ("pruning", "pruning"),
        ("cleanup", "cleanup"), ("clean up", "cleanup"), ("cleaning up", "cleanup"),
        ("stale", "staleness label"), ("abandoned", "abandonment label"), ("obsolete", "obsolescence label"),
        ("dead end", "dead end label"), ("dead-end", "dead end label")];
    proof { assert(v@.map_values(|p: (&str, &str)| (p.0@, p.1@)) =~= cleanup_words()); }
    v
}

fn has(l: &Vec<char>, w: &str) -> (b: bool)
    ensures
        b == seq_contains(l@, w@),
{
    let wc = chars_of(w);
    contains_chars(l, &wc)
}

/// Looks for the language of closing and pruning research in `text`; see
/// `cleanup_label`.
pub fn cleanup_guard_check(text: &str) -> (r: Option<String>)
    ensures
        match r {
            Some(s) => cleanup_label(text@) == Some(s@),
            None => cleanup_label(text@) is None,
        },
{
    reveal(cleanup_label);
    let lower = to_lower(text);
    let l = chars_of(lower.as_str());
    if (has(&l, "close") || has(&l, "closing"))
        && (has(&l, "phase") || has(&l, "experiment") || has(&l, "branch") || has(&l, "hypothesis")) {
        let mut s = String::new();
        push_str(&mut s, "closure of research element (\"");
        if has(&l, "closing") {
            push_str(&mut s, "closing");
        } else {
            push_str(&mut s, "close");
        }
        push_str(&mut s, "\")");
        proof { assert(Some(s@) == cleanup_label(text@)); }
        return Some(s);
    }
    if has(&l, "impact to 0") || has(&l, "impact=0") {
        return Some("zeroing impact (\"impact to 0\")".to_owned());
    }
    if has(&l, "reduce impact") {
        return Some("reducing impact (\"reduce impact\")".to_owned());
    }
    let ws = cleanup_word_list();
    let ghost m = ws@.map_values(|p: (&str, &str)| (p.0@, p.1@));
    proof {
        assert(cleanup_label(text@) == (match first_word_in(l@, m) {
            Some(wl) => Some(wl.1 + " (\""@ + wl.0 + "\")"@),
            None => None,
        }));
    }
    let mut i: usize = 0;
    while i < ws.len()
        invariant
            i <= ws@.len(),
            m == ws@.map_values(|p: (&str, &str)| (p.0@, p.1@)),
            m == cleanup_words(),
            l@ == lowercase(text@),
            first_word_in(l@, m) == first_word_in(l@, m.subrange(i as int, m.len() as int)),
            cleanup_label(text@) == (match first_word_in(l@, m) {
                Some(wl) => Some(wl.1 + " (\""@ + wl.0 + "\")"@),
                None => None,
            }),
        decreases ws@.len() - i,
    {
        let (w, lab) = ws[i];
        proof {
            assert(m.subrange(i as int, m.len() as int)[0] == m[i as int]);
            assert(m.subrange(i as int, m.len() as int).drop_first() =~= m.subrange(i + 1, m.len() as int));
        }
        if has(&l, w) {
            let mut s = String::new();
            push_str(&mut s, lab);
            push_str(&mut s, " (\"");
            push_str(&mut s, w);
            push_str(&mut s, "\")");
            proof {
                assert(m[i as int] == (w@, lab@));
                assert(first_word_in(l@, m) == Some((w@, lab@)));
                assert(s@ =~= lab@ + " (\""@ + w@ + "\")"@);
            }
            return Some(s);
        }
        i = i + 1;
    }
    proof { assert(m.subrange(i as int, m.len() as int) =~= Seq::<(Seq<char>, Seq<char>)>::empty()); }
    None
}


/// A phase with a pending experiment cannot be completed: whatever a phase
/// update asks, a phase that was not complete before it is not complete
/// after it.
pub proof fn law_pending_experiments_block_completion(v: StoreView, id: i64, d: Option<&str>, g: Option<&str>,
    c: Option<&str>, s: Option<&str>)
    requires
        v.phase(id) is Some,
        v.phase(id).unwrap().status != PhaseStatus::Complete,
        pending_experiments(v, id).len() > 0,
    ensures
        phase_update_result(v, id, d, g, c, s).0.phase(id) is Some,
        phase_update_result(v, id, d, g, c, s).0.phase(id).unwrap().status != PhaseStatus::Complete,
{
    let v1 = with_phase_fields(v, id, d, g, c);
    assert(v1.experiments == v.experiments);
    assert(v1.phases.len() == v.phases.len());
    assert(v1.phases[id - 1].status == v.phases[id - 1].status);
    assert(pending_experiments(v1, id) == pending_experiments(v, id));
}

/// A literature entry in a terminal state (dead end or integrated) never
/// moves again: no status change is allowed, so the store is left as it is.
pub proof fn law_terminal_literature_is_final(v: StoreView, id: i64, status: Seq<char>)
    requires
        v.literature_entry(id) is Some,
        lit_current(v.literature_entry(id).unwrap()) == "dead_end"@
            || lit_current(v.literature_entry(id).unwrap()) == "integrated"@,
    ensures
        !lit_move_allowed(v, id, status),
{
    reveal_strlit("unread");
    reveal_strlit("read");
    reveal_strlit("cited");
    reveal_strlit("tested");
    reveal_strlit("promising");
    reveal_strlit("dead_end");
    reveal_strlit("integrated");
    let cur = lit_current(v.literature_entry(id).unwrap());
    assert(cur.len() == 8 || cur.len() == 10);
    assert(cur != "unread"@ && cur != "read"@ && cur != "cited"@ && cur != "tested"@);
    assert(cur != "promising"@);
    assert(lit_transitions(cur) =~= Seq::<Seq<char>>::empty());
}

} // verus!
