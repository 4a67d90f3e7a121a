//! Importing a project kept in the earlier JSON layout: its phases,
//! experiments, findings and decisions, each table in order.  The records
//! name one another by their old ids; each reference is carried over to
//! the new id of the record it names, and a reference to a record that the
//! import has not (yet) made is dropped.
use vstd::prelude::*;
use crate::text::{push_str, push_i64, push_usize, str_eq, dec_int, dec_nat};
use crate::store::{Store, StoreView, StoreError, Project, PhaseView, PhaseStatus, Experiment, ExperimentStatus, Finding,
    Decision, ProjectStatus, has_room, opt_str};

verus! {

broadcast use vstd::seq_lib::group_seq_properties;

/// A phase as the import file gives it.
pub struct ImportPhase {
    pub id: i64,
    pub name: String,
    pub impact: i32,
    pub depends_on: Vec<i64>,
    pub status: String,
}

/// An experiment as the import file gives it.
pub struct ImportExperiment {
    pub id: i64,
    pub name: String,
    pub phase: Option<i64>,
    pub status: String,
    pub result: Option<String>,
}

/// A finding as the import file gives it.
pub struct ImportFinding {
    pub text: String,
    pub experiment: Option<i64>,
}

/// A decision as the import file gives it.
pub struct ImportDecision {
    pub what: String,
    pub why: Option<String>,
    pub experiment: Option<i64>,
}

/// The tables of an import file; a table the file lacks is `None`.
pub struct ImportData {
    pub phases: Option<Vec<ImportPhase>>,
    pub experiments: Option<Vec<ImportExperiment>>,
    pub findings: Option<Vec<ImportFinding>>,
    pub decisions: Option<Vec<ImportDecision>>,
}

/// The rows of a table, none when the file lacks it.
pub open spec fn rows<A>(t: Option<Vec<A>>) -> Seq<A> {
    match t {
        Some(v) => v@,
        None => Seq::empty(),
    }
}

/// The phase status an import names: "complete", "in_progress",
/// "deprioritized", "paused" or "paused-at-ceiling"; anything else is
/// pending.
pub open spec fn phase_status_named(s: Seq<char>) -> PhaseStatus {
    if s == "complete"@ {
        PhaseStatus::Complete
    } else if s == "in_progress"@ {
        PhaseStatus::InProgress
    } else if s == "deprioritized"@ {
        PhaseStatus::Deprioritized
    } else if s == "paused"@ || s == "paused-at-ceiling"@ {
        PhaseStatus::Paused
    } else {
        PhaseStatus::Pending
    }
}

/// The experiment status an import names: "pass", "fail" or "pending";
/// anything else is inconclusive.
pub open spec fn exp_status_named(s: Seq<char>) -> ExperimentStatus {
    if s == "pass"@ {
        ExperimentStatus::Pass
    } else if s == "fail"@ {
        ExperimentStatus::Fail
    } else if s == "pending"@ {
        ExperimentStatus::Pending
    } else {
        ExperimentStatus::Inconclusive
    }
}

/// What old id `key` maps to under the pairs `s` of old and new ids, the
/// latest pair for a key winning.
pub open spec fn map_get(s: Seq<(i64, i64)>, key: i64) -> Option<i64>
    decreases s.len(),
{
    if s.len() == 0 {
        None
    } else if s.last().0 == key {
        Some(s.last().1)
    } else {
        map_get(s.drop_last(), key)
    }
}

/// What an optional old id maps to under `s`.
pub open spec fn map_ref(s: Seq<(i64, i64)>, key: Option<i64>) -> Option<i64> {
    match key {
        Some(k) => map_get(s, k),
        None => None,
    }
}

/// The old ids `ds` carried over by `s`, those it does not map dropped.
pub open spec fn remap(s: Seq<(i64, i64)>, ds: Seq<i64>) -> Seq<i64>
    decreases ds.len(),
{
    if ds.len() == 0 {
        Seq::empty()
    } else {
        remap(s, ds.drop_last()) + match map_get(s, ds.last()) {
            Some(x) => seq![x],
            None => Seq::empty(),
        }
    }
}

/// The old and new ids of the first `k` records with old ids `ids`, the
/// new ones numbered on from `base`.
pub open spec fn id_pairs(ids: Seq<i64>, base: nat, k: nat) -> Seq<(i64, i64)> {
    Seq::new(k, |j: int| (ids[j], (base + j + 1) as i64))
}

/// `k` more rows fit in a table that holds `n`.
pub open spec fn fits(n: nat, k: nat) -> bool {
    k == 0 || has_room((n + k - 1) as nat)
}

proof fn lemma_map_get_in(s: Seq<(i64, i64)>, key: i64)
    ensures
        map_get(s, key) matches Some(y) ==> exists|j: int| 0 <= j < s.len() && #[trigger] s[j] == (key, y),
    decreases s.len(),
{
    if s.len() > 0 && s.last().0 != key {
        lemma_map_get_in(s.drop_last(), key);
        if let Some(y) = map_get(s, key) {
            let j = choose|j: int| 0 <= j < s.drop_last().len() && #[trigger] s.drop_last()[j] == (key, y);
            assert(s[j] == (key, y));
        }
    }
}

proof fn lemma_pairs_get(ids: Seq<i64>, base: nat, k: nat, key: i64)
    requires
        k <= ids.len(),
        base + k <= 0x7fff_ffff_ffff_ffff,
    ensures
        map_get(id_pairs(ids, base, k), key) matches Some(y) ==> base < y <= base + k,
{
    lemma_map_get_in(id_pairs(ids, base, k), key);
}

fn map_get_exec(s: &Vec<(i64, i64)>, key: i64) -> (r: Option<i64>)
    ensures
        r == map_get(s@, key),
{
    let mut i: usize = s.len();
    while i > 0
        invariant
            i <= s@.len(),
            map_get(s@, key) == map_get(s@.take(i as int), key),
        decreases i,
    {
        proof { assert(s@.take(i as int).drop_last() =~= s@.take(i - 1)); }
        if s[i - 1].0 == key {
            return Some(s[i - 1].1);
        }
        i = i - 1;
    }
    None
}

fn remap_exec(s: &Vec<(i64, i64)>, ds: &Vec<i64>) -> (r: Vec<i64>)
    ensures
        r@ == remap(s@, ds@),
{
    let mut r: Vec<i64> = Vec::new();
    let mut i: usize = 0;
    while i < ds.len()
        invariant
            i <= ds@.len(),
            r@ == remap(s@, ds@.take(i as int)),
        decreases ds@.len() - i,
    {
        proof { assert(ds@.take(i + 1).drop_last() =~= ds@.take(i as int)); }
        match map_get_exec(s, ds[i]) {
            Some(x) => r.push(x),
            None => {},
        }
        i = i + 1;
    }
    proof { assert(ds@.take(i as int) =~= ds@); }
    r
}

fn phase_status_of(s: &str) -> (st: PhaseStatus)
    ensures
        st == phase_status_named(s@),
{
    if str_eq(s, "complete") {
        PhaseStatus::Complete
    } else if str_eq(s, "in_progress") {
        PhaseStatus::InProgress
    } else if str_eq(s, "deprioritized") {
        PhaseStatus::Deprioritized
    } else if str_eq(s, "paused") || str_eq(s, "paused-at-ceiling") {
        PhaseStatus::Paused
    } else {
        PhaseStatus::Pending
    }
}

fn exp_status_of(s: &str) -> (st: ExperimentStatus)
    ensures
        st == exp_status_named(s@),
{
    if str_eq(s, "pass") {
        ExperimentStatus::Pass
    } else if str_eq(s, "fail") {
        ExperimentStatus::Fail
    } else if str_eq(s, "pending") {
        ExperimentStatus::Pending
    } else {
        ExperimentStatus::Inconclusive
    }
}

// ---------------------------------------------------------------- phases

/// The old ids of the phases `ps`.
pub open spec fn phase_ids(ps: Seq<ImportPhase>) -> Seq<i64> {
    ps.map_values(|p: ImportPhase| p.id)
}

/// The old ids of the experiments `es`.
pub open spec fn exp_ids(es: Seq<ImportExperiment>) -> Seq<i64> {
    es.map_values(|e: ImportExperiment| e.id)
}

/// `q` is phase `ip` imported as phase `id` of project `pid`, its
/// dependencies carried over by `m`.
pub open spec fn imported_phase(q: PhaseView, id: int, pid: i64, ip: ImportPhase, m: Seq<(i64, i64)>) -> bool {
    &&& q.id == id
    &&& q.project_id == pid
    &&& q.name == ip.name@
    &&& q.impact == ip.impact
    &&& q.depends_on == remap(m, ip.depends_on@)
    &&& q.status == phase_status_named(ip.status@)
}

/// `w` is `v` with the phases `ps` imported into project `pid`.
pub open spec fn phases_imported(v: StoreView, w: StoreView, pid: i64, ps: Seq<ImportPhase>) -> bool {
    let n = v.phases.len();
    &&& w == v.with_phases(w.phases)
    &&& w.phases.len() == n + ps.len()
    &&& w.phases.take(n as int) == v.phases
    &&& forall|j: int| 0 <= j < ps.len() ==> imported_phase(#[trigger] w.phases[n + j], n + j + 1, pid, ps[j],
        id_pairs(phase_ids(ps), n, j as nat))
}

fn import_phases(store: &mut Store, pid: i64, ps: &Vec<ImportPhase>) -> (r: Result<Vec<(i64, i64)>, StoreError>)
    requires
        old(store).wf(),
        old(store)@.project(pid) is Some,
    ensures
        final(store).wf(),
        (r is Ok) == fits(old(store)@.phases.len(), ps@.len()),
        r matches Ok(m) ==> m@ == id_pairs(phase_ids(ps@), old(store)@.phases.len(), ps@.len())
            && phases_imported(old(store)@, final(store)@, pid, ps@),
        r matches Err(e) ==> e == StoreError::Capacity,
{
    let ghost v = store@;
    let ghost n = v.phases.len();
    let ghost ids = phase_ids(ps@);
    let mut pairs: Vec<(i64, i64)> = Vec::new();
    let mut j: usize = 0;
    while j < ps.len()
        invariant
            store.wf(),
            v == old(store)@,
            v.wf(),
            v.project(pid) is Some,
            n == v.phases.len(),
            ids == phase_ids(ps@),
            j <= ps@.len(),
            fits(n, j as nat),
            pairs@ == id_pairs(ids, n, j as nat),
            store@ == v.with_phases(store@.phases),
            store@.phases.len() == n + j,
            store@.phases.take(n as int) == v.phases,
            forall|k: int| 0 <= k < j ==> imported_phase(#[trigger] store@.phases[n + k], n + k + 1, pid, ps@[k],
                id_pairs(ids, n, k as nat)),
        decreases ps@.len() - j,
    {
        let p = &ps[j];
        let deps = remap_exec(&pairs, &p.depends_on);
        let ph = match store.create_phase(pid, p.name.as_str(), p.impact, deps.as_slice()) {
            Ok(x) => x,
            Err(e) => {
                proof {
                    assert(!has_room((n + j) as nat));
                    assert(!fits(n, ps@.len()));
                }
                return Err(e);
            },
        };
        let st = phase_status_of(p.status.as_str());
        match store.update_phase_status(ph.id, st) {
            Ok(()) => {},
            Err(e) => return Err(e),
        }
        let ghost before = pairs@;
        pairs.push((p.id, ph.id));
        proof {
            assert(pairs@ =~= id_pairs(ids, n, (j + 1) as nat));
            assert(store@.phases.take(n as int) =~= v.phases);
            assert forall|k: int| 0 <= k < j + 1 implies imported_phase(#[trigger] store@.phases[n + k], n + k + 1, pid,
                ps@[k], id_pairs(ids, n, k as nat)) by {
                if k == j {
                    assert(before == id_pairs(ids, n, k as nat));
                }
            }
            assert(fits(n, (j + 1) as nat));
        }
        j = j + 1;
    }
    Ok(pairs)
}

// ---------------------------------------------------------------- experiments

/// The pairs `m` map every old id to a phase of `v`.
pub open spec fn maps_into_phases(v: StoreView, m: Seq<(i64, i64)>) -> bool {
    forall|x: i64| #[trigger] map_get(m, x) matches Some(y) ==> 1 <= y <= v.phases.len()
}

/// The pairs `m` map every old id to an experiment of `v`.
pub open spec fn maps_into_experiments(v: StoreView, m: Seq<(i64, i64)>) -> bool {
    forall|x: i64| #[trigger] map_get(m, x) matches Some(y) ==> 1 <= y <= v.experiments.len()
}

/// `e` is experiment `ie` imported as experiment `id`, its phase carried
/// over by `pm`.
pub open spec fn imported_exp(e: Experiment, id: int, ie: ImportExperiment, pm: Seq<(i64, i64)>) -> bool {
    &&& e.id == id
    &&& e.phase_id == map_ref(pm, ie.phase)
    &&& e.name@ == ie.name@
    &&& e.status == exp_status_named(ie.status@)
    &&& opt_str(e.result) == opt_str(ie.result)
    &&& e.notes is None
}

/// `w` is `v` with the experiments `es` imported, their phases carried
/// over by `pm`.
pub open spec fn exps_imported(v: StoreView, w: StoreView, es: Seq<ImportExperiment>, pm: Seq<(i64, i64)>) -> bool {
    let n = v.experiments.len();
    &&& w == v.with_experiments(w.experiments)
    &&& w.experiments.len() == n + es.len()
    &&& w.experiments.take(n as int) == v.experiments
    &&& forall|j: int| 0 <= j < es.len() ==> imported_exp(#[trigger] w.experiments[n + j], n + j + 1, es[j], pm)
}

fn result_ref(r: &Option<String>) -> (o: Option<&str>)
    ensures
        crate::store::opt_ref(o) == opt_str(*r),
{
    match r {
        Some(s) => Some(s.as_str()),
        None => None,
    }
}

fn import_experiments(store: &mut Store, es: &Vec<ImportExperiment>, pm: &Vec<(i64, i64)>)
    -> (r: Result<Vec<(i64, i64)>, StoreError>)
    requires
        old(store).wf(),
        maps_into_phases(old(store)@, pm@),
    ensures
        final(store).wf(),
        (r is Ok) == fits(old(store)@.experiments.len(), es@.len()),
        r matches Ok(m) ==> m@ == id_pairs(exp_ids(es@), old(store)@.experiments.len(), es@.len())
            && exps_imported(old(store)@, final(store)@, es@, pm@),
        r matches Err(e) ==> e == StoreError::Capacity,
{
    let ghost v = store@;
    let ghost n = v.experiments.len();
    let ghost ids = exp_ids(es@);
    let mut pairs: Vec<(i64, i64)> = Vec::new();
    let mut j: usize = 0;
    while j < es.len()
        invariant
            store.wf(),
            v == old(store)@,
            v.wf(),
            maps_into_phases(v, pm@),
            n == v.experiments.len(),
            ids == exp_ids(es@),
            j <= es@.len(),
            fits(n, j as nat),
            pairs@ == id_pairs(ids, n, j as nat),
            store@ == v.with_experiments(store@.experiments),
            store@.experiments.len() == n + j,
            store@.experiments.take(n as int) == v.experiments,
            forall|k: int| 0 <= k < j ==> imported_exp(#[trigger] store@.experiments[n + k], n + k + 1, es@[k], pm@),
        decreases es@.len() - j,
    {
        let e = &es[j];
        let ph = match e.phase {
            Some(op) => map_get_exec(pm, op),
            None => None,
        };
        proof {
            if let Some(op) = e.phase {
                assert(map_get(pm@, op) matches Some(y) ==> 1 <= y <= v.phases.len());
            }
        }
        let x = match store.create_experiment(ph, e.name.as_str()) {
            Ok(x) => x,
            Err(err) => {
                proof { assert(!has_room((n + j) as nat)); }
                return Err(err);
            },
        };
        let st = exp_status_of(e.status.as_str());
        match store.update_experiment_status(x.id, st, result_ref(&e.result)) {
            Ok(()) => {},
            Err(err) => return Err(err),
        }
        let ghost before = pairs@;
        pairs.push((e.id, x.id));
        proof {
            assert(pairs@ =~= id_pairs(ids, n, (j + 1) as nat));
            assert(store@.experiments.take(n as int) =~= v.experiments);
            assert forall|k: int| 0 <= k < j + 1 implies imported_exp(#[trigger] store@.experiments[n + k], n + k + 1,
                es@[k], pm@) by {
            }
            assert(fits(n, (j + 1) as nat));
        }
        j = j + 1;
    }
    Ok(pairs)
}

// ---------------------------------------------------------------- findings and decisions

/// `f` is finding `inf` imported as finding `id`, its experiment carried
/// over by `em`.
pub open spec fn imported_finding(f: Finding, id: int, inf: ImportFinding, em: Seq<(i64, i64)>) -> bool {
    &&& f.id == id
    &&& f.experiment_id == map_ref(em, inf.experiment)
    &&& f.text@ == inf.text@
}

/// `w` is `v` with the findings `fs` imported, their experiments carried
/// over by `em`.
pub open spec fn findings_imported(v: StoreView, w: StoreView, fs: Seq<ImportFinding>, em: Seq<(i64, i64)>) -> bool {
    let n = v.findings.len();
    &&& w == v.with_findings(w.findings)
    &&& w.findings.len() == n + fs.len()
    &&& w.findings.take(n as int) == v.findings
    &&& forall|j: int| 0 <= j < fs.len() ==> imported_finding(#[trigger] w.findings[n + j], n + j + 1, fs[j], em)
}

/// `d` is decision `idc` imported as decision `id`, its experiment carried
/// over by `em`.
pub open spec fn imported_decision(d: Decision, id: int, idc: ImportDecision, em: Seq<(i64, i64)>) -> bool {
    &&& d.id == id
    &&& d.experiment_id == map_ref(em, idc.experiment)
    &&& d.what@ == idc.what@
    &&& opt_str(d.why) == opt_str(idc.why)
    &&& d.project_id is None
}

/// `w` is `v` with the decisions `ds` imported, their experiments carried
/// over by `em`.
pub open spec fn decisions_imported(v: StoreView, w: StoreView, ds: Seq<ImportDecision>, em: Seq<(i64, i64)>) -> bool {
    let n = v.decisions.len();
    &&& w == v.with_decisions(w.decisions)
    &&& w.decisions.len() == n + ds.len()
    &&& w.decisions.take(n as int) == v.decisions
    &&& forall|j: int| 0 <= j < ds.len() ==> imported_decision(#[trigger] w.decisions[n + j], n + j + 1, ds[j], em)
}

fn import_findings(store: &mut Store, fs: &Vec<ImportFinding>, em: &Vec<(i64, i64)>) -> (r: Result<(), StoreError>)
    requires
        old(store).wf(),
        maps_into_experiments(old(store)@, em@),
    ensures
        final(store).wf(),
        (r is Ok) == fits(old(store)@.findings.len(), fs@.len()),
        r is Ok ==> findings_imported(old(store)@, final(store)@, fs@, em@),
        r matches Err(e) ==> e == StoreError::Capacity,
{
    let ghost v = store@;
    let ghost n = v.findings.len();
    let mut j: usize = 0;
    while j < fs.len()
        invariant
            store.wf(),
            v == old(store)@,
            v.wf(),
            maps_into_experiments(v, em@),
            n == v.findings.len(),
            j <= fs@.len(),
            fits(n, j as nat),
            store@ == v.with_findings(store@.findings),
            store@.findings.len() == n + j,
            store@.findings.take(n as int) == v.findings,
            forall|k: int| 0 <= k < j ==> imported_finding(#[trigger] store@.findings[n + k], n + k + 1, fs@[k], em@),
        decreases fs@.len() - j,
    {
        let f = &fs[j];
        let x = match f.experiment {
            Some(oe) => map_get_exec(em, oe),
            None => None,
        };
        proof {
            if let Some(oe) = f.experiment {
                assert(map_get(em@, oe) matches Some(y) ==> 1 <= y <= v.experiments.len());
            }
        }
        match store.create_finding(x, f.text.as_str()) {
            Ok(_) => {},
            Err(err) => {
                proof { assert(!has_room((n + j) as nat)); }
                return Err(err);
            },
        }
        proof {
            assert(store@.findings.take(n as int) =~= v.findings);
            assert(fits(n, (j + 1) as nat));
        }
        j = j + 1;
    }
    Ok(())
}

fn import_decisions(store: &mut Store, ds: &Vec<ImportDecision>, em: &Vec<(i64, i64)>) -> (r: Result<(), StoreError>)
    requires
        old(store).wf(),
        maps_into_experiments(old(store)@, em@),
    ensures
        final(store).wf(),
        (r is Ok) == fits(old(store)@.decisions.len(), ds@.len()),
        r is Ok ==> decisions_imported(old(store)@, final(store)@, ds@, em@),
        r matches Err(e) ==> e == StoreError::Capacity,
{
    let ghost v = store@;
    let ghost n = v.decisions.len();
    let mut j: usize = 0;
    while j < ds.len()
        invariant
            store.wf(),
            v == old(store)@,
            v.wf(),
            maps_into_experiments(v, em@),
            n == v.decisions.len(),
            j <= ds@.len(),
            fits(n, j as nat),
            store@ == v.with_decisions(store@.decisions),
            store@.decisions.len() == n + j,
            store@.decisions.take(n as int) == v.decisions,
            forall|k: int| 0 <= k < j ==> imported_decision(#[trigger] store@.decisions[n + k], n + k + 1, ds@[k], em@),
        decreases ds@.len() - j,
    {
        let d = &ds[j];
        let x = match d.experiment {
            Some(oe) => map_get_exec(em, oe),
            None => None,
        };
        proof {
            if let Some(oe) = d.experiment {
                assert(map_get(em@, oe) matches Some(y) ==> 1 <= y <= v.experiments.len());
            }
        }
        match store.create_decision(x, d.what.as_str(), result_ref(&d.why), None) {
            Ok(_) => {},
            Err(err) => {
                proof { assert(!has_room((n + j) as nat)); }
                return Err(err);
            },
        }
        proof {
            assert(store@.decisions.take(n as int) =~= v.decisions);
            assert(fits(n, (j + 1) as nat));
        }
        j = j + 1;
    }
    Ok(())
}

// ---------------------------------------------------------------- import

/// The line that counts the rows of a table the file has; nothing for a
/// table it lacks.
pub open spec fn count_line(present: bool, n: nat, what: Seq<char>) -> Seq<char> {
    if present { "  "@ + dec_nat(n) + " "@ + what + "\n"@ } else { Seq::empty() }
}

/// The report of the import of `data` as project `pid` named `name`.
pub open spec fn import_text(name: Seq<char>, pid: i64, data: ImportData) -> Seq<char> {
    "Created project: "@ + name + " (id: "@ + dec_int(pid as int) + ")\n"@
        + count_line(data.phases is Some, rows(data.phases).len(), "phases"@)
        + count_line(data.experiments is Some, rows(data.experiments).len(), "experiments"@)
        + count_line(data.findings is Some, rows(data.findings).len(), "findings"@)
        + count_line(data.decisions is Some, rows(data.decisions).len(), "decisions"@)
        + "\nImport complete. Run: pm next "@ + name + "\n"@
}

/// Store `v` has room for the project and all the rows of `data`.
pub open spec fn import_fits(v: StoreView, data: ImportData) -> bool {
    &&& has_room(v.projects.len())
    &&& fits(v.phases.len(), rows(data.phases).len())
    &&& fits(v.experiments.len(), rows(data.experiments).len())
    &&& fits(v.findings.len(), rows(data.findings).len())
    &&& fits(v.decisions.len(), rows(data.decisions).len())
}

/// `w` is `v` with `data` imported as a new active top-level project named
/// `name`: its phases first, then its experiments (their phases carried
/// over from old ids to new ones), then its findings and decisions (their
/// experiments carried over likewise).
pub open spec fn imported(v: StoreView, w: StoreView, name: Seq<char>, data: ImportData) -> bool {
    let pid = (v.projects.len() + 1) as i64;
    let p = w.projects[v.projects.len() as int];
    let ps = rows(data.phases);
    let es = rows(data.experiments);
    let pm = id_pairs(phase_ids(ps), v.phases.len(), ps.len());
    let em = id_pairs(exp_ids(es), v.experiments.len(), es.len());
    let v1 = v.with_projects(w.projects);
    let v2 = v1.with_phases(w.phases);
    let v3 = v2.with_experiments(w.experiments);
    let v4 = v3.with_findings(w.findings);
    &&& w.projects == v.projects.push(p)
    &&& p.id == pid && p.name@ == name && p.alias is None && p.parent_id is None && p.status == ProjectStatus::Active
    &&& phases_imported(v1, v2, pid, ps)
    &&& exps_imported(v2, v3, es, pm)
    &&& findings_imported(v3, v4, rows(data.findings), em)
    &&& decisions_imported(v4, w, rows(data.decisions), em)
}

proof fn lemma_pairs_into(ids: Seq<i64>, base: nat, k: nat)
    requires
        k <= ids.len(),
        base + k <= 0x7fff_ffff_ffff_ffff,
    ensures
        forall|x: i64| #[trigger] map_get(id_pairs(ids, base, k), x) matches Some(y) ==> base < y <= base + k,
{
    assert forall|x: i64| #[trigger] map_get(id_pairs(ids, base, k), x) is Some
        implies base < map_get(id_pairs(ids, base, k), x).unwrap() <= base + k by {
        lemma_pairs_get(ids, base, k, x);
    }
}

fn push_count_line(out: &mut String, present: bool, n: usize, what: &str)
    ensures
        final(out)@ == old(out)@ + count_line(present, n as nat, what@),
{
    if present {
        push_str(out, "  ");
        push_usize(out, n);
        push_str(out, " ");
        push_str(out, what);
        push_str(out, "\n");
    }
    proof { assert(out@ =~= old(out)@ + count_line(present, n as nat, what@)); }
}

fn table_len<A>(t: &Option<Vec<A>>) -> (n: usize)
    ensures
        n == rows(*t).len(),
{
    match t {
        Some(v) => v.len(),
        None => 0,
    }
}

/// Imports `data` as a new project named `name` (see `imported`), and
/// reports what it made (see `import_text`).  The store refuses rows only
/// when a table is full; the import then stops there, with that error.
#[verifier::rlimit(60)]
pub fn import_v2(store: &mut Store, name: &str, data: &ImportData) -> (r: (String, Option<StoreError>))
    requires
        old(store).wf(),
    ensures
        final(store).wf(),
        (r.1 is None) == import_fits(old(store)@, *data),
        r.1 matches Some(e) ==> e == StoreError::Capacity,
        r.1 is None ==> imported(old(store)@, final(store)@, name@, *data)
            && r.0@ == import_text(name@, (old(store)@.projects.len() + 1) as i64, *data),
{
    let ghost v = store@;
    let mut out = String::new();
    let proj = match store.create_project(name, None, None) {
        Ok(p) => p,
        Err(e) => return (out, Some(e)),
    };
    let ghost v1 = store@;
    push_str(&mut out, "Created project: ");
    push_str(&mut out, name);
    push_str(&mut out, " (id: ");
    push_i64(&mut out, proj.id);
    push_str(&mut out, ")\n");
    let none_p: Vec<ImportPhase> = Vec::new();
    let ps = match &data.phases { Some(x) => x, None => &none_p };
    proof { assert(ps@ == rows(data.phases)); }
    let pm = match import_phases(store, proj.id, ps) {
        Ok(m) => m,
        Err(e) => return (out, Some(e)),
    };
    let ghost v2 = store@;
    push_count_line(&mut out, data.phases.is_some(), table_len(&data.phases), "phases");
    proof {
        if v.phases.len() > 0 {
            assert(v.phases[v.phases.len() - 1].id == v.phases.len());
        }
        lemma_pairs_into(phase_ids(ps@), v.phases.len(), ps@.len());
        assert(maps_into_phases(v2, pm@));
    }
    let none_e: Vec<ImportExperiment> = Vec::new();
    let es = match &data.experiments { Some(x) => x, None => &none_e };
    proof { assert(es@ == rows(data.experiments)); }
    let em = match import_experiments(store, es, &pm) {
        Ok(m) => m,
        Err(e) => return (out, Some(e)),
    };
    let ghost v3 = store@;
    push_count_line(&mut out, data.experiments.is_some(), table_len(&data.experiments), "experiments");
    proof {
        if v.experiments.len() > 0 {
            assert(v.experiments[v.experiments.len() - 1].id == v.experiments.len());
        }
        lemma_pairs_into(exp_ids(es@), v.experiments.len(), es@.len());
        assert(maps_into_experiments(v3, em@));
    }
    let none_f: Vec<ImportFinding> = Vec::new();
    let fs = match &data.findings { Some(x) => x, None => &none_f };
    proof { assert(fs@ == rows(data.findings)); }
    match import_findings(store, fs, &em) {
        Ok(()) => {},
        Err(e) => return (out, Some(e)),
    }
    let ghost v4 = store@;
    push_count_line(&mut out, data.findings.is_some(), table_len(&data.findings), "findings");
    let none_d: Vec<ImportDecision> = Vec::new();
    let ds = match &data.decisions { Some(x) => x, None => &none_d };
    proof { assert(ds@ == rows(data.decisions)); assert(maps_into_experiments(v4, em@)); }
    match import_decisions(store, ds, &em) {
        Ok(()) => {},
        Err(e) => return (out, Some(e)),
    }
    push_count_line(&mut out, data.decisions.is_some(), table_len(&data.decisions), "decisions");
    push_str(&mut out, "\nImport complete. Run: pm next ");
    push_str(&mut out, name);
    push_str(&mut out, "\n");
    proof {
        let w = store@;
        assert(v1 == v.with_projects(w.projects));
        assert(v2 == v1.with_phases(w.phases));
        assert(v3 == v2.with_experiments(w.experiments));
        assert(v4 == v3.with_findings(w.findings));
        assert(imported(v, w, name@, *data));
        assert(out@ =~= import_text(name@, (v.projects.len() + 1) as i64, *data));
    }
    (out, None)
}

/// With distinct old ids, each old id of the first `k` records is carried
/// over to the new id of its own record, and any other id to nothing.
pub proof fn law_import_maps_ids(ids: Seq<i64>, base: nat, k: nat, key: i64)
    requires
        k <= ids.len(),
        forall|a: int, b: int| 0 <= a < b < k ==> ids[a] != ids[b],
    ensures
        forall|j: int| 0 <= j < k ==> map_get(id_pairs(ids, base, k), #[trigger] ids[j]) == Some((base + j + 1) as i64),
        (forall|j: int| 0 <= j < k ==> ids[j] != key) ==> map_get(id_pairs(ids, base, k), key) is None,
    decreases k,
{
    if k > 0 {
        let s = id_pairs(ids, base, k);
        law_import_maps_ids(ids, base, (k - 1) as nat, key);
        assert(s.drop_last() =~= id_pairs(ids, base, (k - 1) as nat));
        assert forall|j: int| 0 <= j < k implies map_get(id_pairs(ids, base, k), #[trigger] ids[j])
            == Some((base + j + 1) as i64) by {
            law_import_maps_ids(ids, base, (k - 1) as nat, ids[j]);
        }
    }
}

} // verus!
