//! What changed since a session began: the nodes added to the store since
//! then, counted by kind, and listed when there are few.
use vstd::prelude::*;
use crate::text::{push_str, push_i64, push_u64, push_u128, take_chars, dec_int, dec_nat, prefix};
use crate::store::{Store, StoreView, StoreError, Session, Marks, Finding, Decision, Experiment};

verus! {

/// The rows of `s` past the first `m`.
pub open spec fn rows_after<A>(s: Seq<A>, m: usize) -> Seq<A> {
    if m <= s.len() { s.subrange(m as int, s.len() as int) } else { Seq::empty() }
}

/// The kinds of node, each with how many were added to `v` past marks `m`.
pub open spec fn added_counts(v: StoreView, m: Marks) -> Seq<(Seq<char>, nat)> {
    seq![
        ("Phases"@, rows_after(v.phases, m.phases).len()),
        ("Experiments"@, rows_after(v.experiments, m.experiments).len()),
        ("Findings"@, rows_after(v.findings, m.findings).len()),
        ("Decisions"@, rows_after(v.decisions, m.decisions).len()),
        ("Hypotheses"@, rows_after(v.hypotheses, m.hypotheses).len()),
        ("Research"@, rows_after(v.research, m.research).len()),
        ("Literature"@, rows_after(v.literature, m.literature).len()),
        ("Principles"@, rows_after(v.principles, m.principles).len()),
        ("Constraints"@, rows_after(v.constraints, m.constraints).len()),
    ]
}

/// A line for each kind with additions.
pub open spec fn count_lines(cs: Seq<(Seq<char>, nat)>) -> Seq<char>
    decreases cs.len(),
{
    if cs.len() == 0 {
        Seq::empty()
    } else {
        count_lines(cs.drop_last()) + if cs.last().1 > 0 {
            "  "@ + cs.last().0 + ": "@ + dec_nat(cs.last().1) + " new/modified\n"@
        } else {
            Seq::empty()
        }
    }
}

/// How many nodes were added in all.
pub open spec fn count_total(cs: Seq<(Seq<char>, nat)>) -> nat
    decreases cs.len(),
{
    if cs.len() == 0 { 0 } else { count_total(cs.drop_last()) + cs.last().1 }
}

/// The lines `f` gives the items of `s`, in order.
pub open spec fn each_line<A>(s: Seq<A>, f: spec_fn(A) -> Seq<char>) -> Seq<char>
    decreases s.len(),
{
    if s.len() == 0 { Seq::empty() } else { each_line(s.drop_last(), f) + f(s.last()) }
}

pub open spec fn finding_row(f: Finding) -> Seq<char> {
    "  F#"@ + dec_int(f.id as int) + ": "@ + prefix(f.text@, 80) + "\n"@
}

pub open spec fn decision_row(d: Decision) -> Seq<char> {
    "  D#"@ + dec_int(d.id as int) + ": "@ + prefix(d.what@, 80) + "\n"@
}

pub open spec fn experiment_row(e: Experiment) -> Seq<char> {
    "  E#"@ + dec_int(e.id as int) + ": "@ + e.name@ + " ("@ + e.status.spec_name() + ")\n"@
}

pub open spec fn finding_rows() -> spec_fn(Finding) -> Seq<char> {
    |f: Finding| finding_row(f)
}

pub open spec fn decision_rows() -> spec_fn(Decision) -> Seq<char> {
    |d: Decision| decision_row(d)
}

pub open spec fn experiment_rows() -> spec_fn(Experiment) -> Seq<char> {
    |e: Experiment| experiment_row(e)
}

/// A titled block of `lines`, when there are rows.
pub open spec fn block(n: nat, heading: Seq<char>, lines: Seq<char>) -> Seq<char> {
    if n > 0 { heading + lines } else { Seq::empty() }
}

/// What changed in `v` since the marks `m` of a session's start.
pub open spec fn changes_text(v: StoreView, m: Marks, head: Seq<char>) -> Seq<char> {
    "=== Changes since "@ + head + " ===\n\n"@ + changes_body(v, m)
}

/// The counts, total and (for at most twenty) the new findings,
/// decisions and experiments of `v` past marks `m`.
pub open spec fn changes_body(v: StoreView, m: Marks) -> Seq<char> {
    let cs = added_counts(v, m);
    let total = count_total(cs);
    count_lines(cs)
        + (if total == 0 { "  No changes found.\n"@ } else { "\n  Total: "@ + dec_nat(total) + " nodes changed\n"@ })
        + (if total <= 20 { details(v, m) } else { Seq::empty() })
}

/// What `tool_since` answers on store `v`: the nodes added since session
/// `session_id` began; a date is not accepted, since the store keeps its
/// own clock rather than calendar time.
pub open spec fn since_text(v: StoreView, since: Option<Seq<char>>, session_id: Option<i64>) -> Seq<char> {
    match session_id {
        Some(sid) => if 1 <= sid <= v.sessions.len() {
            let s = v.sessions[sid - 1];
            changes_text(v, s.marks, "session #"@ + dec_int(sid as int) + " (tick "@ + dec_nat(s.started_at as nat) + ")"@)
        } else {
            "Session #"@ + dec_int(sid as int) + " not found."@
        },
        None => if since is Some {
            "Error: the store keeps no calendar dates; give session_id to see what changed since a session began."@
        } else {
            "Error: provide either 'since' (date) or 'session_id'."@
        },
    }
}

fn after(now: usize, mark: usize) -> (n: usize)
    ensures
        n == (if mark <= now { (now - mark) as nat } else { 0nat }),
{
    if mark <= now { now - mark } else { 0 }
}

fn counts_exec(now: Marks, m: Marks) -> (r: Vec<(&'static str, usize)>)
    ensures
        r@.len() == 9,
        forall|i: int| 0 <= i < 9 ==> (#[trigger] r@[i]).0@ == added_counts_of(now, m)[i].0 && r@[i].1 as nat == added_counts_of(now, m)[i].1,
{
    let mut r: Vec<(&'static str, usize)> = Vec::new();
    r.push(("Phases", after(now.phases, m.phases)));
    r.push(("Experiments", after(now.experiments, m.experiments)));
    r.push(("Findings", after(now.findings, m.findings)));
    r.push(("Decisions", after(now.decisions, m.decisions)));
    r.push(("Hypotheses", after(now.hypotheses, m.hypotheses)));
    r.push(("Research", after(now.research, m.research)));
    r.push(("Literature", after(now.literature, m.literature)));
    r.push(("Principles", after(now.principles, m.principles)));
    r.push(("Constraints", after(now.constraints, m.constraints)));
    r
}

/// How many rows were added past marks `m` when the tables hold `now`.
pub open spec fn added_counts_of(now: Marks, m: Marks) -> Seq<(Seq<char>, nat)> {
    seq![
        ("Phases"@, gap(now.phases, m.phases)),
        ("Experiments"@, gap(now.experiments, m.experiments)),
        ("Findings"@, gap(now.findings, m.findings)),
        ("Decisions"@, gap(now.decisions, m.decisions)),
        ("Hypotheses"@, gap(now.hypotheses, m.hypotheses)),
        ("Research"@, gap(now.research, m.research)),
        ("Literature"@, gap(now.literature, m.literature)),
        ("Principles"@, gap(now.principles, m.principles)),
        ("Constraints"@, gap(now.constraints, m.constraints)),
    ]
}

/// How far `now` is past `mark`.
pub open spec fn gap(now: usize, mark: usize) -> nat {
    if mark <= now { (now - mark) as nat } else { 0 }
}

proof fn lemma_counts(v: StoreView, m: Marks)
    requires
        v.phases.len() <= usize::MAX && v.experiments.len() <= usize::MAX && v.findings.len() <= usize::MAX,
        v.decisions.len() <= usize::MAX && v.hypotheses.len() <= usize::MAX && v.research.len() <= usize::MAX,
        v.literature.len() <= usize::MAX && v.principles.len() <= usize::MAX && v.constraints.len() <= usize::MAX,
    ensures
        added_counts(v, m) == added_counts_of(crate::store::marks_of(v), m),
{
    assert(added_counts(v, m) =~= added_counts_of(crate::store::marks_of(v), m));
}

fn push_rows_findings(out: &mut String, store: &Store, from: usize, to: usize)
    requires
        store.wf(),
        from <= to == store@.findings.len(),
    ensures
        final(out)@ == old(out)@ + each_line(store@.findings.subrange(from as int, to as int), finding_rows()),
{
    let ghost all = store@.findings.subrange(from as int, to as int);
    let ghost base = out@;
    let mut k: usize = from;
    while k < to
        invariant
            store.wf(),
            from <= k <= to == store@.findings.len(),
            all == store@.findings.subrange(from as int, to as int),
            out@ == base + each_line(all.take(k - from), finding_rows()),
        decreases to - k,
    {
        proof { assert(store@.findings[k as int].id == k + 1); }
        let f = match store.get_finding(k as i64 + 1) { Ok(f) => f, Err(_) => { return; } };
        proof {
            assert(all.take(k - from + 1).drop_last() =~= all.take(k - from));
            assert(all[k - from] == f);
        }
        push_str(out, "  F#");
        push_i64(out, f.id);
        push_str(out, ": ");
        let t = take_chars(f.text.as_str(), 80);
        push_str(out, t.as_str());
        push_str(out, "\n");
        proof { assert(out@ =~= base + each_line(all.take(k - from + 1), finding_rows())); }
        k = k + 1;
    }
    proof { assert(all.take(k - from) =~= all); }
}

fn push_rows_decisions(out: &mut String, store: &Store, from: usize, to: usize)
    requires
        store.wf(),
        from <= to == store@.decisions.len(),
    ensures
        final(out)@ == old(out)@ + each_line(store@.decisions.subrange(from as int, to as int), decision_rows()),
{
    let ghost all = store@.decisions.subrange(from as int, to as int);
    let ghost base = out@;
    let mut k: usize = from;
    while k < to
        invariant
            store.wf(),
            from <= k <= to == store@.decisions.len(),
            all == store@.decisions.subrange(from as int, to as int),
            out@ == base + each_line(all.take(k - from), decision_rows()),
        decreases to - k,
    {
        proof { assert(store@.decisions[k as int].id == k + 1); }
        let d = match store.get_decision(k as i64 + 1) { Ok(d) => d, Err(_) => { return; } };
        proof {
            assert(all.take(k - from + 1).drop_last() =~= all.take(k - from));
            assert(all[k - from] == d);
        }
        push_str(out, "  D#");
        push_i64(out, d.id);
        push_str(out, ": ");
        let t = take_chars(d.what.as_str(), 80);
        push_str(out, t.as_str());
        push_str(out, "\n");
        proof { assert(out@ =~= base + each_line(all.take(k - from + 1), decision_rows())); }
        k = k + 1;
    }
    proof { assert(all.take(k - from) =~= all); }
}

fn push_rows_experiments(out: &mut String, store: &Store, from: usize, to: usize)
    requires
        store.wf(),
        from <= to == store@.experiments.len(),
    ensures
        final(out)@ == old(out)@ + each_line(store@.experiments.subrange(from as int, to as int), experiment_rows()),
{
    let ghost all = store@.experiments.subrange(from as int, to as int);
    let ghost base = out@;
    let mut k: usize = from;
    while k < to
        invariant
            store.wf(),
            from <= k <= to == store@.experiments.len(),
            all == store@.experiments.subrange(from as int, to as int),
            out@ == base + each_line(all.take(k - from), experiment_rows()),
        decreases to - k,
    {
        proof { assert(store@.experiments[k as int].id == k + 1); }
        let e = match store.get_experiment(k as i64 + 1) { Ok(e) => e, Err(_) => { return; } };
        proof {
            assert(all.take(k - from + 1).drop_last() =~= all.take(k - from));
            assert(all[k - from] == e);
        }
        push_str(out, "  E#");
        push_i64(out, e.id);
        push_str(out, ": ");
        push_str(out, e.name.as_str());
        push_str(out, " (");
        push_str(out, e.status.name());
        push_str(out, ")\n");
        proof { assert(out@ =~= base + each_line(all.take(k - from + 1), experiment_rows())); }
        k = k + 1;
    }
    proof { assert(all.take(k - from) =~= all); }
}

fn push_counts(out: &mut String, store: &Store, m: Marks) -> (total: u128)
    requires
        store.wf(),
    ensures
        final(out)@ == old(out)@ + count_lines(added_counts(store@, m)),
        total == count_total(added_counts(store@, m)),
{
    let ghost v = store@;
    let now = store.table_sizes();
    let cs = counts_exec(now, m);
    proof { lemma_counts(v, m); }
    let ghost csv = added_counts(v, m);
    let ghost base = out@;
    let mut total: u128 = 0;
    let mut i: usize = 0;
    while i < 9
        invariant
            cs@.len() == 9,
            csv == added_counts_of(now, m),
            forall|j: int| 0 <= j < 9 ==> (#[trigger] cs@[j]).0@ == csv[j].0 && cs@[j].1 as nat == csv[j].1,
            i <= 9,
            out@ == base + count_lines(csv.take(i as int)),
            total == count_total(csv.take(i as int)),
            total <= i * 0xffff_ffff_ffff_ffff,
        decreases 9 - i,
    {
        let (name, n) = cs[i];
        proof {
            assert(csv.take(i + 1).drop_last() =~= csv.take(i as int));
            assert(cs@[i as int].0@ == csv[i as int].0);
        }
        if n > 0 {
            push_str(out, "  ");
            push_str(out, name);
            push_str(out, ": ");
            push_u64(out, n as u64);
            push_str(out, " new/modified\n");
        }
        proof { assert(out@ =~= base + count_lines(csv.take(i + 1))); }
        total = total + n as u128;
        i = i + 1;
    }
    proof { assert(csv.take(9) =~= csv); }
    total
}

/// The new findings, decisions and experiments of `v` past marks `m`.
pub open spec fn details(v: StoreView, m: Marks) -> Seq<char> {
    let fs = rows_after(v.findings, m.findings);
    let ds = rows_after(v.decisions, m.decisions);
    let es = rows_after(v.experiments, m.experiments);
    block(fs.len(), "\n--- Findings ---\n"@, each_line(fs, finding_rows()))
        + block(ds.len(), "\n--- Decisions ---\n"@, each_line(ds, decision_rows()))
        + block(es.len(), "\n--- Experiments ---\n"@, each_line(es, experiment_rows()))
}

fn push_details(out: &mut String, store: &Store, m: Marks)
    requires
        store.wf(),
    ensures
        final(out)@ == old(out)@ + details(store@, m),
{
    let ghost v = store@;
    let now = store.table_sizes();
    let ghost o2 = out@;
    if m.findings < now.findings {
        push_str(out, "\n--- Findings ---\n");
        push_rows_findings(out, store, m.findings, now.findings);
    }
    let ghost o3 = out@;
    if m.decisions < now.decisions {
        push_str(out, "\n--- Decisions ---\n");
        push_rows_decisions(out, store, m.decisions, now.decisions);
    }
    let ghost o4 = out@;
    if m.experiments < now.experiments {
        push_str(out, "\n--- Experiments ---\n");
        push_rows_experiments(out, store, m.experiments, now.experiments);
    }
    proof {
        let fs = rows_after(v.findings, m.findings);
        let ds = rows_after(v.decisions, m.decisions);
        let es = rows_after(v.experiments, m.experiments);
        assert(o3 =~= o2 + block(fs.len(), "\n--- Findings ---\n"@, each_line(fs, finding_rows())));
        assert(o4 =~= o3 + block(ds.len(), "\n--- Decisions ---\n"@, each_line(ds, decision_rows())));
        assert(out@ =~= o4 + block(es.len(), "\n--- Experiments ---\n"@, each_line(es, experiment_rows())));
    }
}

fn push_changes(out: &mut String, store: &Store, m: Marks)
    requires
        store.wf(),
    ensures
        final(out)@ == old(out)@ + changes_body(store@, m),
{
    let total = push_counts(out, store, m);
    let ghost o1 = out@;
    if total == 0 {
        push_str(out, "  No changes found.\n");
    } else {
        push_str(out, "\n  Total: ");
        push_u128(out, total);
        push_str(out, " nodes changed\n");
    }
    let ghost o2 = out@;
    if total <= 20 {
        push_details(out, store, m);
    }
    proof {
        assert(out@ =~= old(out)@ + changes_body(store@, m));
    }
}

/// What changed since session `session_id` began; see `since_text`.
pub fn tool_since(store: &Store, since: Option<&str>, session_id: Option<i64>) -> (out: String)
    requires
        store.wf(),
    ensures
        out@ == since_text(store@, crate::store::opt_ref(since), session_id),
{
    let mut out = String::new();
    match session_id {
        Some(sid) => match store.get_session(sid) {
            Ok(s) => {
                push_str(&mut out, "=== Changes since ");
                push_str(&mut out, "session #");
                push_i64(&mut out, sid);
                push_str(&mut out, " (tick ");
                push_u64(&mut out, s.started_at);
                push_str(&mut out, ")");
                push_str(&mut out, " ===\n\n");
                let ghost o1 = out@;
                push_changes(&mut out, store, s.marks);
                proof {
                    assert(o1 =~= "=== Changes since "@ + ("session #"@ + dec_int(sid as int) + " (tick "@ + dec_nat(s.started_at as nat) + ")"@) + " ===\n\n"@);
                }
            },
            Err(_) => {
                push_str(&mut out, "Session #");
                push_i64(&mut out, sid);
                push_str(&mut out, " not found.");
            },
        },
        None => {
            if since.is_some() {
                push_str(&mut out, "Error: the store keeps no calendar dates; give session_id to see what changed since a session began.");
            } else {
                push_str(&mut out, "Error: provide either 'since' (date) or 'session_id'.");
            }
        },
    }
    out
}

} // verus!
