use openwarrant::authority_check::Verdict;
use openwarrant::diagnostic::{Diagnostic, Severity};
use openwarrant::warrant_rules::{
    act_finding, actor_of, adequacy_findings, amendment_files, amendment_finding, auth_pin_finding,
    gate_citations, jurisdiction_findings, lineage_findings, milestone_findings, obligation_findings,
    ordinal_order, preset_findings, records_finding, repin_findings, role_unprojected, scope_finding,
    AdequacyReview, AtomJurisdiction, EpistemicRecords, GateCitation, Implements, Jurisdiction,
    MilestoneGraph, ObligationSet, SasRevision,
};

const F: &str = "warrants/w/manifest.toml";

fn triple(d: &Diagnostic) -> (Severity, &str, Option<&str>, &str) {
    (d.severity, d.rule.as_str(), d.file.as_deref(), d.message.as_str())
}

#[test]
fn descending_ordinals_warn() {
    assert!(ordinal_order("W-1", F, &vec![1, 2, 2, 5]).is_none());
    assert!(ordinal_order("W-1", F, &vec![]).is_none());
    let d = ordinal_order("W-1", F, &vec![1, 3, 2]).unwrap();
    assert_eq!(
        triple(&d),
        (
            Severity::Warn,
            "composition.ordinal-order",
            Some(F),
            "W-1: atom ordinals are not in ascending order; the parent renders in declared order"
        )
    );
}

#[test]
fn an_unanswered_preset_question_warns_in_a_draft_and_fails_once_signed() {
    let text = "## Problem\n<!-- required -->\n<!-- What is wrong? -->\n";
    let draft = preset_findings("W-1", "w/intent.md", "intent.md", text, false);
    assert_eq!(draft.len(), 1);
    assert_eq!(
        triple(&draft[0]),
        (
            Severity::Warn,
            "atom.preset-unanswered",
            Some("w/intent.md"),
            "W-1: atom intent.md — the preset's required heading `Problem` is unanswered: its body is only the preset's comment. Answer it before asking for authorization; a draft may be unfinished"
        )
    );
    let signed = preset_findings("W-1", "w/intent.md", "intent.md", text, true);
    assert_eq!(signed[0].severity, Severity::Error);
    assert!(signed[0].message.ends_with(". An authorization is on record for this Warrant, and a signed atom may not leave a required question open"));
    assert!(preset_findings("W-1", "w/intent.yaml", "intent.yaml", text, true).is_empty());
}

fn revs() -> Vec<SasRevision> {
    vec![
        SasRevision { version: "1.0".into(), requirements: vec!["RQ-001".into()] },
        SasRevision { version: "1.1".into(), requirements: vec!["RQ-001".into(), "RQ-002".into()] },
    ]
}

fn imps() -> Vec<Implements> {
    vec![
        Implements { reference: "sas://RQ-002".into(), canonical: Some("RQ-002".into()) },
        Implements { reference: "garbled".into(), canonical: None },
    ]
}

#[test]
fn a_repin_is_held_to_the_revision_it_names() {
    let amended = Some(("1.0".to_string(), "w/amendments/a.yaml".to_string()));
    let r = repin_findings("W-1", &amended, &revs(), &imps(), true);
    assert_eq!(r.len(), 2);
    assert_eq!(
        triple(&r[0]),
        (
            Severity::Error,
            "sas.repin-unknown-requirement",
            Some("w/amendments/a.yaml"),
            "W-1: re-pinned to SAS 1.0, whose §106 has no sas://RQ-002 — the Warrant implements a requirement that revision does not have"
        )
    );
    assert_eq!(
        triple(&r[1]),
        (
            Severity::Warn,
            "sas.repin-resolved",
            Some("w/amendments/a.yaml"),
            "W-1: re-pinned to SAS 1.0 after resolution; the resolution binds the contract as it was and is reported stale, never moved (§56.3)"
        )
    );
    let fine = Some(("1.1".to_string(), "a".to_string()));
    assert!(repin_findings("W-1", &fine, &revs(), &imps(), false).is_empty());
    let unknown = Some(("2.0".to_string(), "a".to_string()));
    let r = repin_findings("W-1", &unknown, &revs(), &imps(), false);
    assert_eq!(
        triple(&r[0]),
        (
            Severity::Error,
            "sas.pin-unknown",
            Some("a"),
            "W-1: an amendment re-pins to SAS revision 2.0, and no record of it exists under docs/sas/revisions/ — `war sas propose 2.0` first"
        )
    );
    assert!(repin_findings("W-1", &None, &revs(), &imps(), true).is_empty());
}

#[test]
fn the_authorization_pin_is_on_record_and_current() {
    let at = "w/authorization.toml";
    let v = Some("1.0".to_string());
    let latest = Some("1.1".to_string());
    let d = auth_pin_finding("W-1", at, &v, false, &revs(), &latest, false).unwrap();
    assert_eq!(
        triple(&d),
        (
            Severity::Warn,
            "sas.pin-superseded",
            Some(at),
            "W-1: authorized against SAS 1.0; the latest recorded revision is 1.1 — the contract keeps its Basis until an amendment carrying `sas_revision: \"1.1\"` re-pins it and a human re-authorizes (OW-ADR-0016)"
        )
    );
    let d = auth_pin_finding("W-1", at, &v, false, &revs(), &latest, true).unwrap();
    assert_eq!(
        triple(&d),
        (
            Severity::Pass,
            "sas.pin-historical",
            None,
            "W-1: resolved under SAS 1.0; 1.1 is in force now and asks nothing of a Warrant that executes no further"
        )
    );
    let d = auth_pin_finding("W-1", at, &Some("9".into()), false, &revs(), &latest, true).unwrap();
    assert_eq!(d.message, "W-1: authorized against SAS revision 9, and no record of it exists under docs/sas/revisions/");
    assert_eq!(d.rule, "sas.pin-unknown");
    assert!(auth_pin_finding("W-1", at, &v, true, &revs(), &latest, false).is_none());
    assert!(auth_pin_finding("W-1", at, &latest, false, &revs(), &latest, false).is_none());
    assert!(auth_pin_finding("W-1", at, &None, false, &revs(), &latest, false).is_none());
}

#[test]
fn signed_acts_pass_and_others_fail_at_their_record() {
    let signed = Verdict::Signed { principal: "ada".into(), response: "r.toml".into() };
    let d = act_finding("W-1", " resolution", "w/resolution.toml", &signed);
    assert_eq!(triple(&d), (Severity::Pass, "authority.signed", None, "W-1 resolution: signed by ada over r.toml"));
    let unsigned = Verdict::Unsigned { why: "no signature".into() };
    let d = act_finding("W-1", "", "w/authorization.toml", &unsigned);
    assert_eq!(
        triple(&d),
        (Severity::Error, "authority.unsigned", Some("w/authorization.toml"), "W-1: no signature")
    );
    assert_eq!(actor_of("person://person://ada"), "ada");
    assert_eq!(actor_of("ada"), "ada");
}

#[test]
fn cited_gates_must_resolve_and_be_bindable() {
    let cited = vec![
        GateCitation { uri: "gate://a".into(), resolved: Ok(("qualified".into(), true)) },
        GateCitation { uri: "gate://b".into(), resolved: Ok(("draft".into(), false)) },
        GateCitation { uri: "gate://c".into(), resolved: Err("gate://c is not registered".into()) },
    ];
    let r = gate_citations("W-1", F, &cited);
    assert_eq!(r.len(), 2);
    assert_eq!(
        triple(&r[0]),
        (
            Severity::Error,
            "gate.not-bindable",
            Some(F),
            "W-1: cites gate://b, whose lifecycle is draft. §43.4 permits binding only a qualified gate"
        )
    );
    assert_eq!(triple(&r[1]), (Severity::Error, "gate.unresolved", Some(F), "W-1: gate://c is not registered"));
    let ok = gate_citations("W-1", F, &cited[..1].iter().map(|c| GateCitation { uri: c.uri.clone(), resolved: Ok(("qualified".into(), true)) }).collect());
    assert_eq!(triple(&ok[0]), (Severity::Pass, "gate.resolved", None, "W-1: 1 cited gate(s) resolve to a bindable definition"));
    assert!(gate_citations("W-1", F, &Vec::new()).is_empty());
}

#[test]
fn an_adequacy_review_must_attack_and_conclude_where_required() {
    let a = AdequacyReview {
        level: "high".into(),
        requires_review: true,
        requires_executed_controls: true,
        validated: Ok(()),
        has_executed_attacks: false,
        has_outcome: false,
    };
    let r = adequacy_findings("W-1", F, &a);
    assert_eq!(r.len(), 3);
    assert_eq!(
        triple(&r[0]),
        (Severity::Pass, "assurance.adequacy-review", None, "W-1: high assurance carries an adequacy review with an adversarial question")
    );
    assert_eq!(
        triple(&r[1]),
        (
            Severity::Error,
            "assurance.executed-attacks",
            Some(F),
            "W-1: the adequacy review has executed no attacks. §39.3 wants violating artifacts planted and run; 'recorded here when run' is a plan, not evidence"
        )
    );
    assert_eq!(
        triple(&r[2]),
        (
            Severity::Warn,
            "assurance.adequacy-outcome",
            Some(F),
            "W-1: the adequacy review records no §39.2 outcome; a review that reaches no outcome is a question, not a review"
        )
    );
    let b = AdequacyReview { requires_executed_controls: false, has_outcome: true, validated: Err("no review".into()), ..a };
    let r = adequacy_findings("W-1", F, &b);
    assert_eq!(r.len(), 2);
    assert_eq!(triple(&r[0]), (Severity::Error, "assurance.adequacy-review", Some(F), "W-1: no review"));
    assert_eq!(r[1].severity, Severity::Warn);
    let c = AdequacyReview { requires_review: false, validated: Ok(()), ..b };
    assert!(adequacy_findings("W-1", F, &c).is_empty());
}

#[test]
fn jurisdiction_is_parsed_and_held_to_role_and_place() {
    let unknown = AtomJurisdiction { source: "a.md".into(), written: "mine".into(), declared: None, owned: true, role: None };
    let r = jurisdiction_findings("W-1", F, &unknown);
    assert_eq!(
        triple(&r[0]),
        (
            Severity::Error,
            "atom.unknown-jurisdiction",
            Some(F),
            "W-1: atom a.md declares jurisdiction \"mine\", which is not one of §13.3's three: authored, bound, generated"
        )
    );
    let generated = AtomJurisdiction {
        source: "a.md".into(),
        written: "generated".into(),
        declared: Some(Jurisdiction::Generated),
        owned: true,
        role: Some(("intent".into(), Some(Jurisdiction::Authored))),
    };
    let r = jurisdiction_findings("W-1", F, &generated);
    assert_eq!(r.len(), 2);
    assert_eq!(
        r[0].message,
        "W-1: atom a.md lives in this Warrant's own directory but is declared `generated`, which §13.3 says is not directly editable. A projection that is hand-edited is no longer a projection."
    );
    assert_eq!(r[0].rule, "atom.generated-as-source");
    assert_eq!(
        r[1].message,
        "W-1: atom a.md has role `intent`, which §16.1 places under `authored`, but declares `generated`"
    );
    assert_eq!(r[1].rule, "atom.jurisdiction-mismatch");
    let bound = AtomJurisdiction { source: "../adr.md".into(), written: "bound".into(), declared: Some(Jurisdiction::Bound), owned: false, role: Some(("adr".into(), None)) };
    assert!(jurisdiction_findings("W-1", F, &bound).is_empty());
}

#[test]
fn a_role_no_projection_renders_is_refused() {
    let roles = vec!["intent".to_string(), "assurance".to_string()];
    assert!(role_unprojected("W-1", F, "a.md", "intent", &roles).is_none());
    let d = role_unprojected("W-1", F, "a.md", "musings", &roles).unwrap();
    assert_eq!(
        triple(&d),
        (
            Severity::Error,
            "atom.role-unprojected",
            Some(F),
            "W-1: atom a.md has role `musings`, which no projection renders — the master document and the history compose only the roles in `current.rs`'s ROLE_SECTIONS (intent, assurance). Give it one of those roles, or fold its text into the atom whose question it answers"
        )
    );
}

#[test]
fn the_milestone_graph_is_reported() {
    let g = MilestoneGraph {
        milestones: 2,
        stages: 3,
        bad_executor_args: vec!["stage s1: executor_args is not JSON".into()],
        unreferenced: vec!["s2".into(), "s3".into()],
    };
    let r = milestone_findings("W-1", F, &Ok(g));
    assert_eq!(r.len(), 3);
    assert_eq!(triple(&r[0]), (Severity::Error, "milestones.bad-executor-args", Some(F), "W-1: stage s1: executor_args is not JSON"));
    assert_eq!(triple(&r[1]), (Severity::Pass, "milestones.valid", None, "W-1: 2 milestone(s), 3 stage(s), acyclic with no dangling refs"));
    assert_eq!(triple(&r[2]), (Severity::Warn, "milestones.unreferenced-stage", Some(F), "W-1: stage(s) no milestone references: s2, s3"));
    let r = milestone_findings("W-1", F, &Err("cycle".into()));
    assert_eq!(triple(&r[0]), (Severity::Error, "milestones.invalid", Some(F), "W-1: cycle"));
}

#[test]
fn records_amendments_lineage_obligations_and_scope() {
    let recs = EpistemicRecords { total: 4, evidence: 1, observations: 1, inferences: 1, judgments: 1 };
    let d = records_finding("W-1", F, &Ok(recs)).unwrap();
    assert_eq!(d.message, "W-1: 4 §40 record(s) — 1 evidence, 1 observation(s), 1 inference(s), 1 judgment(s)");
    assert_eq!(d.rule, "evidence.valid");
    let none = EpistemicRecords { total: 0, evidence: 0, observations: 0, inferences: 0, judgments: 0 };
    assert!(records_finding("W-1", F, &Ok(none)).is_none());
    assert_eq!(records_finding("W-1", F, &Err("bad".into())).unwrap().rule, "evidence.invalid");

    let d = amendment_finding("W-1", "a.yaml", &Some(Ok(("AM-1".into(), "narrowing".into(), 2))));
    assert_eq!(triple(&d), (Severity::Pass, "amendment.valid", None, "W-1: amendment AM-1 is a narrowing carrying 2 semantic change(s)"));
    let d = amendment_finding("W-1", "a.yaml", &None);
    assert_eq!(triple(&d), (Severity::Error, "amendment.unreadable", Some("a.yaml"), "W-1: amendment could not be read"));
    let d = amendment_finding("W-1", "a.yaml", &Some(Err("missing id".into())));
    assert_eq!(triple(&d), (Severity::Error, "amendment.invalid", Some("a.yaml"), "W-1: missing id"));

    let r = lineage_findings("W-1", F, "notes.md", &vec![(7, "run_id".into())]);
    assert_eq!(
        r[0].message,
        "W-1: atom notes.md, line 7 carries BLUT's `run_id` as a key with a value. §49.3 — lineage stays authoritative in BLUT and the Warrant stores a reference. Write the shape inline in backticks if you need to show it; prose naming the field is not a copy."
    );

    let r = obligation_findings("W-1", F, &Ok(ObligationSet { obligations: 3, references: Err("M1 cites OB-9".into()) }));
    assert_eq!(triple(&r[0]), (Severity::Pass, "obligations.valid", None, "W-1: 3 obligation(s), each with a bounded scope and evidence"));
    assert_eq!(triple(&r[1]), (Severity::Error, "obligations.dangling-ref", Some(F), "W-1: M1 cites OB-9"));
    assert_eq!(obligation_findings("W-1", F, &Ok(ObligationSet { obligations: 0, references: Ok(()) })).len(), 1);
    assert_eq!(obligation_findings("W-1", F, &Err("x".into()))[0].rule, "obligations.invalid");

    assert_eq!(triple(&scope_finding("W-1", "s.toml", &Ok(()))), (Severity::Pass, "bonsai-scope.valid", None, "W-1: machine scope resolves to declared obligations"));
    assert_eq!(triple(&scope_finding("W-1", "s.toml", &Err("unknown OB-2".into()))), (Severity::Error, "bonsai-scope.invalid", Some("s.toml"), "unknown OB-2"));
}

#[test]
fn amendment_records_are_yaml_files_in_order() {
    let names: Vec<String> = ["b.yaml", "a.yml", ".yaml", "c.txt", "notes", "a.b.yaml", "z.YAML"]
        .iter()
        .map(|s| s.to_string())
        .collect();
    assert_eq!(amendment_files(&names), vec!["a.b.yaml", "a.yml", "b.yaml"]);
}
