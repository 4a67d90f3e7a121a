//! Completing experiments and research tasks: the status is recorded, the
//! node is tied to its phase, and what it produced or was informed by is
//! linked in.
use vstd::prelude::*;
use crate::text::{push_str, push_i64, dec_int, str_eq};
use crate::store::{Store, StoreView, StoreError, Experiment, ExperimentStatus, Research, ResearchStatus, Finding, NodeType,
    EdgeType, has_room, opt_ref, opt_str, finding_in};
use crate::mcp::common::{error_text, error_str, try_links, link, link_line, guidance, views, pair_views, push_guidance,
    lemma_try_links_one, lemma_try_links_push, lemma_try_links_len, lemma_try_links_append, lemma_try_links_edges};
use crate::mcp::nodes::{ids_of, split_commas, parse_ids};
use crate::mcp::decision::ids_arg;

verus! {

broadcast use vstd::seq_lib::group_seq_properties;

/// The experiment status that a tool argument names: pass, fail or
/// inconclusive; anything else leaves it pending.
pub open spec fn exp_status_named(s: Seq<char>) -> ExperimentStatus {
    if s == "pass"@ {
        ExperimentStatus::Pass
    } else if s == "fail"@ {
        ExperimentStatus::Fail
    } else if s == "inconclusive"@ {
        ExperimentStatus::Inconclusive
    } else {
        ExperimentStatus::Pending
    }
}

fn exp_status_of(s: &str) -> (r: ExperimentStatus)
    ensures
        r == exp_status_named(s@),
{
    if str_eq(s, "pass") {
        ExperimentStatus::Pass
    } else if str_eq(s, "fail") {
        ExperimentStatus::Fail
    } else if str_eq(s, "inconclusive") {
        ExperimentStatus::Inconclusive
    } else {
        ExperimentStatus::Pending
    }
}

/// The links made when experiment `eid` (of phase `ph`, if any) completes,
/// with new finding `fid` if one was recorded: phase contains experiment,
/// experiment produced finding, phase contains finding.
pub open spec fn completion_links(ph: Option<i64>, eid: i64, fid: Option<i64>) -> Seq<(NodeType, i64, NodeType, i64, EdgeType)> {
    (match ph {
        Some(p) => seq![(NodeType::Phase, p, NodeType::Experiment, eid, EdgeType::Contains)],
        None => Seq::empty(),
    })
    + match fid {
        Some(f) => seq![(NodeType::Experiment, eid, NodeType::Finding, f, EdgeType::ProducedBy)]
            + match ph {
                Some(p) => seq![(NodeType::Phase, p, NodeType::Finding, f, EdgeType::Contains)],
                None => Seq::empty(),
            },
        None => Seq::empty(),
    }
}

/// The lines that report the links of a completed experiment.
pub open spec fn completion_link_lines(ph: Option<i64>, eid: i64, fid: Option<i64>) -> Seq<Seq<char>> {
    (match ph {
        Some(p) => seq![link_line("Phase"@, (NodeType::Phase, p, NodeType::Experiment, eid, EdgeType::Contains))],
        None => Seq::empty(),
    })
    + match fid {
        Some(f) => seq![link_line("Experiment"@, (NodeType::Experiment, eid, NodeType::Finding, f, EdgeType::ProducedBy))]
            + match ph {
                Some(p) => seq![link_line("Phase"@, (NodeType::Phase, p, NodeType::Finding, f, EdgeType::Contains))],
                None => Seq::empty(),
            },
        None => Seq::empty(),
    }
}

/// The links that a completed experiment suggests (and, first, those that
/// its new finding suggests).
pub open spec fn completion_suggestions(eid: i64, fid: Option<i64>) -> Seq<(Seq<char>, Seq<char>)> {
    (match fid {
        Some(f) => seq![
            ("If this finding informs a decision"@,
                "pm_add_edge source_type=Finding source_id="@ + dec_int(f as int) + " target_type=Decision target_id=? relation=Informed"@),
            ("If this finding supports/contradicts a hypothesis"@,
                "pm_add_edge source_type=Finding source_id="@ + dec_int(f as int) + " target_type=Hypothesis target_id=? relation=Supports"@)
        ],
        None => Seq::empty(),
    })
    + seq![
        ("If this experiment tested a hypothesis"@,
            "pm_hyp_update hypothesis_id=? status=<confirmed|refuted> experiment_id="@ + dec_int(eid as int)),
        ("If this result warrants a decision"@,
            "pm_decision what=\"...\" why=\"...\" experiment_id="@ + dec_int(eid as int))
    ]
}

/// The warning for an experiment completed without findings.
pub open spec fn no_findings_warning() -> Seq<char> {
    "\nWARNING: Completing experiment with no findings logged.\n                    Findings capture what was observed. Use pm_log_finding to record observations.\n"@
}

/// The answer for completing experiment `eid` when every link was made:
/// the new status, the new finding (if one was given), or a warning when
/// the experiment has no findings at all, then the causal links.
pub open spec fn completion_text(v: StoreView, eid: i64, status: Seq<char>, finding: Option<Seq<char>>) -> Seq<char> {
    let ph = v.experiment(eid).unwrap().phase_id;
    let fid: Option<i64> = if finding is Some && has_room(v.findings.len()) { Some((v.findings.len() + 1) as i64) } else { None };
    "Experiment #"@ + dec_int(eid as int) + " updated: status="@ + status + ", result set.\n"@
        + (match finding {
            Some(t) => match fid {
                Some(f) => "Finding #"@ + dec_int(f as int) + " created (global #"@ + dec_int(f as int) + ").\n"@,
                None => "Error creating finding: "@ + error_text(StoreError::Capacity) + "\n"@,
            },
            None => if v.findings.filter(finding_in(Some(eid))).len() == 0 { no_findings_warning() } else { Seq::empty() },
        })
        + guidance(completion_link_lines(ph, eid, fid), completion_suggestions(eid, fid))
}

/// Completes an experiment: records its status (pass, fail or
/// inconclusive; pending otherwise) and result, ties it to its phase, and
/// records the finding given with it, tied to the experiment and phase.
#[verifier::rlimit(40)]
pub fn tool_exp_complete(store: &mut Store, eid: i64, status: &str, result: &str, finding_text: Option<&str>) -> (out: String)
    requires
        old(store).wf(),
    ensures
        final(store).wf(),
        old(store)@.experiment(eid) is None ==> final(store)@ == old(store)@
            && out@ == "Error updating experiment: "@ + error_text(StoreError::NotFound),
        old(store)@.experiment(eid) matches Some(o) ==> {
            let v = old(store)@;
            let n = final(store)@.experiments[eid - 1];
            let made = finding_text is Some && has_room(v.findings.len());
            let fid: Option<i64> = if made { Some((v.findings.len() + 1) as i64) } else { None };
            let links = completion_links(o.phase_id, eid, fid);
            &&& n == (Experiment { status: exp_status_named(status@), result: n.result, ..o })
            &&& opt_str(n.result) == Some(result@)
            &&& made ==> final(store)@.findings.len() == v.findings.len() + 1
                && final(store)@.findings.last().id == fid.unwrap()
                && final(store)@.findings.last().experiment_id == Some(eid)
                && final(store)@.findings.last().text@ == finding_text.unwrap()@
            &&& final(store)@.edges == try_links(v, links).edges
            &&& final(store)@ == (StoreView {
                experiments: v.experiments.update(eid - 1, n),
                findings: if made { v.findings.push(final(store)@.findings.last()) } else { v.findings },
                edges: final(store)@.edges,
                ..v
            })
            &&& has_room(v.edges.len() + links.len()) ==> out@ == completion_text(v, eid, status@, opt_ref(finding_text))
        },
{
    let ghost v = store@;
    let es = exp_status_of(status);
    if let Err(e) = store.update_experiment_status(eid, es, Some(result)) {
        let mut out = String::new();
        push_str(&mut out, "Error updating experiment: ");
        push_str(&mut out, error_str(e));
        return out;
    }
    let ghost v1 = store@;
    let ghost o = v.experiments[eid - 1];
    let phase = match store.get_experiment(eid) {
        Ok(x) => x.phase_id,
        Err(_) => None,
    };
    proof {
        assert(phase == o.phase_id);
    }
    let had_findings = match store.list_findings(Some(eid)) {
        Ok(fs) => fs.len() > 0,
        Err(_) => false,
    };
    let mut out = String::new();
    push_str(&mut out, "Experiment #");
    push_i64(&mut out, eid);
    push_str(&mut out, " updated: status=");
    push_str(&mut out, status);
    push_str(&mut out, ", result set.\n");
    let ghost o1 = out@;
    let mut auto: Vec<String> = Vec::new();
    let mut sugg: Vec<(String, String)> = Vec::new();
    let ghost ph_part: Seq<(NodeType, i64, NodeType, i64, EdgeType)> = match phase {
        Some(p) => seq![(NodeType::Phase, p, NodeType::Experiment, eid, EdgeType::Contains)],
        None => Seq::empty(),
    };
    if let Some(p) = phase {
        link(store, (NodeType::Phase, p, NodeType::Experiment, eid, EdgeType::Contains), "Phase", &mut auto, &mut out,
            "(phase-experiment edge note: ", ")\n");
        proof {
            lemma_try_links_one(v1, (NodeType::Phase, p, NodeType::Experiment, eid, EdgeType::Contains));
        }
    }
    proof {
        if phase is None {
            assert(try_links(v1, ph_part) == v1);
        }
        lemma_try_links_len(v1, ph_part);
    }
    let ghost s1 = store@;
    let ghost a1 = views(auto@);
    let ghost out1 = out@;
    let mut fid: Option<i64> = None;
    let ghost mut sb = store@;
    if let Some(t) = finding_text {
        match store.create_finding(Some(eid), t) {
            Ok(f) => {
                fid = Some(f.id);
                push_str(&mut out, "Finding #");
                push_i64(&mut out, f.id);
                push_str(&mut out, " created (global #");
                push_i64(&mut out, f.id);
                push_str(&mut out, ").\n");
                let ghost s2 = store@;
                proof { sb = s2; }
                link(store, (NodeType::Experiment, eid, NodeType::Finding, f.id, EdgeType::ProducedBy), "Experiment", &mut auto,
                    &mut out, "(edge auto-create note: ", ")\n");
                proof {
                    lemma_try_links_one(s2, (NodeType::Experiment, eid, NodeType::Finding, f.id, EdgeType::ProducedBy));
                }
                if let Some(p) = phase {
                    link(store, (NodeType::Phase, p, NodeType::Finding, f.id, EdgeType::Contains), "Phase", &mut auto, &mut out,
                        "(phase-finding edge note: ", ")\n");
                    proof {
                        lemma_try_links_push(s2, seq![(NodeType::Experiment, eid, NodeType::Finding, f.id, EdgeType::ProducedBy)],
                            (NodeType::Phase, p, NodeType::Finding, f.id, EdgeType::Contains));
                    }
                }
                let mut c1 = String::new();
                push_str(&mut c1, "pm_add_edge source_type=Finding source_id=");
                push_i64(&mut c1, f.id);
                push_str(&mut c1, " target_type=Decision target_id=? relation=Informed");
                sugg.push(("If this finding informs a decision".to_owned(), c1));
                let mut c2 = String::new();
                push_str(&mut c2, "pm_add_edge source_type=Finding source_id=");
                push_i64(&mut c2, f.id);
                push_str(&mut c2, " target_type=Hypothesis target_id=? relation=Supports");
                sugg.push(("If this finding supports/contradicts a hypothesis".to_owned(), c2));
            },
            Err(e) => {
                push_str(&mut out, "Error creating finding: ");
                push_str(&mut out, error_str(e));
                push_str(&mut out, "\n");
            },
        }
    } else {
        if !had_findings {
            push_str(&mut out, "\nWARNING: Completing experiment with no findings logged.\n                    Findings capture what was observed. Use pm_log_finding to record observations.\n");
        }
    }
    let ghost fpart: Seq<(NodeType, i64, NodeType, i64, EdgeType)> = match fid {
        Some(f) => seq![(NodeType::Experiment, eid, NodeType::Finding, f, EdgeType::ProducedBy)]
            + match phase {
                Some(p) => seq![(NodeType::Phase, p, NodeType::Finding, f, EdgeType::Contains)],
                None => Seq::empty(),
            },
        None => Seq::empty(),
    };
    proof {
        let links = completion_links(phase, eid, fid);
        assert(links =~= ph_part + fpart);
        if let Some(f) = fid {
            if phase is None {
                assert(fpart =~= seq![(NodeType::Experiment, eid, NodeType::Finding, f, EdgeType::ProducedBy)]);
            } else {
                assert(fpart =~= seq![(NodeType::Experiment, eid, NodeType::Finding, f, EdgeType::ProducedBy)]
                    .push((NodeType::Phase, phase.unwrap(), NodeType::Finding, f, EdgeType::Contains)));
            }
        } else {
            assert(try_links(sb, fpart) == sb);
        }
        assert(store@ == try_links(sb, fpart));
        lemma_try_links_len(sb, fpart);
        lemma_try_links_edges(sb, s1, fpart);
        lemma_try_links_append(v1, ph_part, fpart);
        lemma_try_links_edges(v1, v, links);
        lemma_try_links_len(v1, links);
    }
    let mut c3 = String::new();
    push_str(&mut c3, "pm_hyp_update hypothesis_id=? status=<confirmed|refuted> experiment_id=");
    push_i64(&mut c3, eid);
    sugg.push(("If this experiment tested a hypothesis".to_owned(), c3));
    let mut c4 = String::new();
    push_str(&mut c4, "pm_decision what=\"...\" why=\"...\" experiment_id=");
    push_i64(&mut c4, eid);
    sugg.push(("If this result warrants a decision".to_owned(), c4));
    push_guidance(&mut out, &auto, &sugg);
    proof {
        let links = completion_links(phase, eid, fid);
        if has_room(v.edges.len() + links.len()) {
            assert(pair_views(sugg@) =~= completion_suggestions(eid, fid));
            assert(views(auto@) =~= completion_link_lines(phase, eid, fid));
            assert(out@ =~= completion_text(v, eid, status@, opt_ref(finding_text)));
        }
    }
    out
}

/// The phase a research task is tied to on completion: the one named, or
/// else the task's own.
pub open spec fn research_phase(v: StoreView, rid: i64, phase_id: Option<i64>) -> Option<i64> {
    match phase_id {
        Some(p) => Some(p),
        None => v.research_task(rid).unwrap().phase_id,
    }
}

/// The links of completed research task `rid`: from its phase, then from
/// each finding that informed it.
pub open spec fn research_links(ph: Option<i64>, rid: i64, ids: Seq<i64>) -> Seq<(NodeType, i64, NodeType, i64, EdgeType)> {
    (match ph {
        Some(p) => seq![(NodeType::Phase, p, NodeType::Research, rid, EdgeType::Contains)],
        None => Seq::empty(),
    })
    + ids.map_values(|f: i64| (NodeType::Finding, f, NodeType::Research, rid, EdgeType::Informed))
}

/// The lines that report the links of a completed research task.
pub open spec fn research_link_lines(ph: Option<i64>, rid: i64, ids: Seq<i64>) -> Seq<Seq<char>> {
    (match ph {
        Some(p) => seq![link_line("Phase"@, (NodeType::Phase, p, NodeType::Research, rid, EdgeType::Contains))],
        None => Seq::empty(),
    })
    + ids.map_values(|f: i64| link_line("Finding"@, (NodeType::Finding, f, NodeType::Research, rid, EdgeType::Informed)))
}

/// The links that a completed research task suggests.
pub open spec fn research_suggestions(rid: i64) -> Seq<(Seq<char>, Seq<char>)> {
    let r = dec_int(rid as int);
    seq![
        ("If research produced findings"@, "pm_log_finding experiment_id=? text=\"Research #"@ + r + " found: ...\""@),
        ("If research informs a decision"@,
            "pm_add_edge source_type=Research source_id="@ + r + " target_type=Decision target_id=? relation=Informed"@),
        ("If research supports/contradicts a hypothesis"@,
            "pm_add_edge source_type=Research source_id="@ + r + " target_type=Hypothesis target_id=? relation=Supports"@)
    ]
}

/// Completes a research task (whatever status is asked, the task is
/// marked complete), records its report where one is given, ties it to its
/// phase (the one named, or else its own) and links in the findings that
/// informed it.
#[verifier::rlimit(40)]
pub fn tool_research_complete(store: &mut Store, rid: i64, status_str: &str, report: Option<&str>, phase_id: Option<i64>,
    finding_ids_str: Option<&str>) -> (out: String)
    requires
        old(store).wf(),
    ensures
        final(store).wf(),
        old(store)@.research_task(rid) is None ==> final(store)@ == old(store)@
            && out@ == "Error: "@ + error_text(StoreError::NotFound),
        old(store)@.research_task(rid) matches Some(o) ==> {
            let v = old(store)@;
            let n = final(store)@.research[rid - 1];
            let links = research_links(research_phase(v, rid, phase_id), rid, ids_arg(finding_ids_str));
            &&& n == (Research { status: ResearchStatus::Complete, report: n.report, ..o })
            &&& opt_str(n.report) == (if report is Some { opt_ref(report) } else { opt_str(o.report) })
            &&& final(store)@.edges == try_links(v, links).edges
            &&& final(store)@ == (StoreView { research: v.research.update(rid - 1, n), edges: final(store)@.edges, ..v })
            &&& has_room(v.edges.len() + links.len()) ==> out@ == "Research #"@ + dec_int(rid as int) + " updated to Complete"@
                + guidance(research_link_lines(research_phase(v, rid, phase_id), rid, ids_arg(finding_ids_str)), research_suggestions(rid))
        },
{
    let ghost v = store@;
    if let Err(e) = store.update_research(rid, ResearchStatus::Complete, report) {
        let mut out = String::new();
        push_str(&mut out, "Error: ");
        push_str(&mut out, error_str(e));
        return out;
    }
    let ghost v1 = store@;
    let mut out = String::new();
    push_str(&mut out, "Research #");
    push_i64(&mut out, rid);
    push_str(&mut out, " updated to Complete");
    let ghost o1 = out@;
    let mut auto: Vec<String> = Vec::new();
    let ph: Option<i64> = match phase_id {
        Some(p) => Some(p),
        None => match store.get_research(rid) {
            Ok(r) => r.phase_id,
            Err(_) => None,
        },
    };
    proof {
        assert(ph == research_phase(v, rid, phase_id));
    }
    let ghost ph_part: Seq<(NodeType, i64, NodeType, i64, EdgeType)> = match ph {
        Some(p) => seq![(NodeType::Phase, p, NodeType::Research, rid, EdgeType::Contains)],
        None => Seq::empty(),
    };
    if let Some(p) = ph {
        if phase_id.is_some() {
            link(store, (NodeType::Phase, p, NodeType::Research, rid, EdgeType::Contains), "Phase", &mut auto, &mut out,
                " (phase edge note: ", ")");
        } else {
            let mut ignored = String::new();
            link(store, (NodeType::Phase, p, NodeType::Research, rid, EdgeType::Contains), "Phase", &mut auto, &mut ignored,
                "", "");
        }
        proof {
            lemma_try_links_one(v1, (NodeType::Phase, p, NodeType::Research, rid, EdgeType::Contains));
        }
    }
    proof {
        if ph is None {
            assert(try_links(v1, ph_part) == v1);
        }
        lemma_try_links_len(v1, ph_part);
        assert(o1 =~= "Research #"@ + dec_int(rid as int) + " updated to Complete"@);
    }
    let ids: Vec<i64> = match finding_ids_str {
        Some(s) => parse_ids(s),
        None => Vec::new(),
    };
    let ghost s1 = store@;
    let ghost a1 = views(auto@);
    let ghost out1 = out@;
    let ghost fl = |f: i64| (NodeType::Finding, f, NodeType::Research, rid, EdgeType::Informed);
    let ghost fline = |f: i64| link_line("Finding"@, (NodeType::Finding, f, NodeType::Research, rid, EdgeType::Informed));
    let ghost room = has_room(v.edges.len() + research_links(ph, rid, ids@).len());
    proof {
        if room {
            assert(research_links(ph, rid, ids@).len() == ph_part.len() + ids@.len());
            assert(has_room(v.edges.len()));
            assert(out1 == o1);
            assert(views(auto@) =~= research_link_lines(ph, rid, Seq::<i64>::empty()));
            assert(has_room(s1.edges.len() + ids@.len()));
        }
    }
    let mut i: usize = 0;
    proof {
        assert(ids@.take(0).map_values(fl) =~= Seq::<(NodeType, i64, NodeType, i64, EdgeType)>::empty());
        assert(a1 + ids@.take(0).map_values(fline) =~= a1);
    }
    while i < ids.len()
        invariant
            store.wf(),
            i <= ids@.len(),
            store@ == try_links(s1, ids@.take(i as int).map_values(fl)),
            store@.edges.len() <= s1.edges.len() + i,
            fl == (|f: i64| (NodeType::Finding, f, NodeType::Research, rid, EdgeType::Informed)),
            fline == (|f: i64| link_line("Finding"@, (NodeType::Finding, f, NodeType::Research, rid, EdgeType::Informed))),
            has_room(s1.edges.len() + ids@.len()) ==> store@.edges.len() == s1.edges.len() + i
                && views(auto@) == a1 + ids@.take(i as int).map_values(fline)
                && out@ == out1,
        decreases ids@.len() - i,
    {
        let fid = ids[i];
        let ghost pre = ids@.take(i as int).map_values(fl);
        proof {
            lemma_try_links_len(s1, pre);
        }
        link(store, (NodeType::Finding, fid, NodeType::Research, rid, EdgeType::Informed), "Finding", &mut auto, &mut out,
            " (finding edge note: ", ")");
        proof {
            let post = ids@.take(i + 1).map_values(fl);
            assert(post =~= pre.push((NodeType::Finding, fid, NodeType::Research, rid, EdgeType::Informed)));
            lemma_try_links_push(s1, pre, (NodeType::Finding, fid, NodeType::Research, rid, EdgeType::Informed));
            lemma_try_links_len(s1, post);
            assert(a1 + ids@.take(i + 1).map_values(fline) =~= (a1 + ids@.take(i as int).map_values(fline))
                .push(link_line("Finding"@, (NodeType::Finding, fid, NodeType::Research, rid, EdgeType::Informed))));
        }
        i = i + 1;
    }
    proof {
        let links = research_links(ph, rid, ids@);
        assert(ids@.take(i as int) =~= ids@);
        assert(links =~= ph_part + ids@.map_values(fl));
        lemma_try_links_append(v1, ph_part, ids@.map_values(fl));
        lemma_try_links_edges(v1, v, links);
        lemma_try_links_len(v1, links);
    }
    let mut sugg: Vec<(String, String)> = Vec::new();
    let mut c1 = String::new();
    push_str(&mut c1, "pm_log_finding experiment_id=? text=\"Research #");
    push_i64(&mut c1, rid);
    push_str(&mut c1, " found: ...\"");
    sugg.push(("If research produced findings".to_owned(), c1));
    let mut c2 = String::new();
    push_str(&mut c2, "pm_add_edge source_type=Research source_id=");
    push_i64(&mut c2, rid);
    push_str(&mut c2, " target_type=Decision target_id=? relation=Informed");
    sugg.push(("If research informs a decision".to_owned(), c2));
    let mut c3 = String::new();
    push_str(&mut c3, "pm_add_edge source_type=Research source_id=");
    push_i64(&mut c3, rid);
    push_str(&mut c3, " target_type=Hypothesis target_id=? relation=Supports");
    sugg.push(("If research supports/contradicts a hypothesis".to_owned(), c3));
    push_guidance(&mut out, &auto, &sugg);
    proof {
        if room {
            assert(pair_views(sugg@) =~= research_suggestions(rid));
            assert(views(auto@) =~= research_link_lines(ph, rid, ids@));
            assert(out@ =~= "Research #"@ + dec_int(rid as int) + " updated to Complete"@
                + guidance(research_link_lines(ph, rid, ids@), research_suggestions(rid)));
        }
    }
    out
}

} // verus!
