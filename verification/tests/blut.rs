use openwarrant::structured::{JsonValue, Scalar};
use openwarrant::blut::{
    lower_findings, port_mappings, unverified_note, verdict_finding, verdict_note, LowerStage, Port,
};
use openwarrant::blut::{args_refusal, executor_args_refusal};
use openwarrant::blut::{blut_kind, describe_count, map_port, verdict_of, BlutAnswer};

fn answer(accepted: Option<bool>, name: Option<&str>, error: Option<&str>) -> BlutAnswer {
    BlutAnswer {
        accepted,
        name: name.map(str::to_owned),
        error: error.map(str::to_owned),
        fingerprint: Some("fp".to_owned()),
        recipes_registered: None,
        rendered: "{}".to_owned(),
    }
}

#[test]
fn an_unstated_count_is_not_zero() {
    assert_eq!(describe_count(None), "an unstated number of");
    assert_eq!(describe_count(Some(0)), "0");
    assert_eq!(describe_count(Some(42)), "42");
}

#[test]
fn an_unmapped_port_type_is_incompatible_and_named_as_itself() {
    assert_eq!(blut_kind("war/model"), Some("model.gguf"));
    assert_eq!(blut_kind("war/unknown"), None);
    let m = map_port("train", "weights", "war/checkpoint");
    assert_eq!(m.war_port, "train.weights");
    assert_eq!(m.blut_kind, "checkpoint.hf");
    assert!(m.compatible);
    let u = map_port("train", "blob", "war/blob");
    assert_eq!(u.blut_kind, "war/blob");
    assert!(!u.compatible);
}

#[test]
fn a_verdict_agrees_with_its_exit_status_or_is_refused() {
    let ok = verdict_of("blut", Some(0), &answer(Some(true), Some("plan-a"), None)).unwrap();
    assert!(ok.accepted);
    assert_eq!(ok.detail, "plan-a");
    assert_eq!(ok.exit_code, 0);
    let refused = verdict_of("blut", Some(3), &answer(Some(false), None, Some("bad kind"))).unwrap();
    assert!(!refused.accepted);
    assert_eq!(refused.detail, "bad kind");
    assert_eq!(
        verdict_of("blut", Some(1), &answer(Some(true), Some("plan-a"), None)).unwrap_err(),
        "`blut plan check` reported accepted=true but exited with 1. A verdict that disagrees with its own exit status is not recordable."
    );
    assert_eq!(
        verdict_of("blut", Some(-2), &answer(Some(true), Some("p"), None)).unwrap_err(),
        "`blut plan check` reported accepted=true but exited with -2. A verdict that disagrees with its own exit status is not recordable."
    );
    assert!(verdict_of("blut", None, &answer(Some(true), Some("p"), None))
        .unwrap_err()
        .contains("killed by a signal"));
    assert!(verdict_of("blut", Some(0), &answer(None, Some("p"), None))
        .unwrap_err()
        .contains("no `accepted` field"));
    assert!(verdict_of("blut", Some(0), &answer(Some(true), None, None))
        .unwrap_err()
        .contains("but no `name` field"));
}

fn stage(id: &str, blut: bool, r: Option<&str>, ins: &[(&str, &str)], outs: &[(&str, &str)]) -> LowerStage {
    let ports = |v: &[(&str, &str)]| v.iter().map(|(n, t)| Port { name: n.to_string(), port_type: t.to_string() }).collect();
    LowerStage { id: id.into(), blut, executor_ref: r.map(str::to_owned), inputs: ports(ins), outputs: ports(outs) }
}

#[test]
fn a_graph_without_blut_stages_is_refused_not_degraded() {
    let (r, plan) = lower_findings("W-1", "w/manifest.toml", "w/atoms/45-milestones.yaml", &vec![], 0);
    assert!(plan.is_none());
    assert_eq!(r[0].rule, "blut.no-stages");
    assert_eq!(r[0].file.as_deref(), Some("w/manifest.toml"));
    assert_eq!(r[0].message, "W-1: declares no stages, so there is nothing to lower");
    let stages = vec![stage("S1", false, None, &[], &[]), stage("S2", false, None, &[], &[])];
    let (r, plan) = lower_findings("W-1", "m", "w/atoms/45-milestones.yaml", &stages, 0);
    assert!(plan.is_none());
    assert_eq!(
        r[0].message,
        "W-1: no stage declares `executor_kind: blut`, so this Warrant is not a computational WAR. Refused rather than lowered — §49.2 says reject, not degrade. Foreign executors present: S1, S2"
    );
}

#[test]
fn an_unbound_stage_is_an_error_and_a_bound_graph_lowers() {
    let stages = vec![stage("S1", true, Some("  "), &[], &[]), stage("S2", true, None, &[], &[]), stage("S3", false, None, &[], &[])];
    let (r, plan) = lower_findings("W-1", "m", "ms", &stages, 0);
    assert!(plan.is_none());
    assert_eq!(r.len(), 2);
    assert_eq!(r[0].rule, "blut.no-ports");
    assert_eq!(r[0].message, "W-1: 2 lowerable stage(s) declare no inputs or outputs, so §49.2's port-kind check had nothing to check. This is not a passed check — the PlanSpec below carries no typed edges at all.");
    assert_eq!(r[1].rule, "blut.unbound-stage");
    assert_eq!(r[1].message, "W-1: stage(s) S1, S2 declare `executor_kind: blut` but no `executor_ref`, so nothing says which BLUT stage they are. Refused rather than lowered under the WAR id — guessing produces a PlanSpec that names a stage the author never chose.");
    let stages = vec![
        stage("S1", true, Some("ingest"), &[("raw", "dataset")], &[("out", "nonsense")]),
        stage("S2", false, None, &[("x", "dataset")], &[]),
        stage("S3", true, Some("report"), &[], &[]),
        stage("S4", true, Some("publish"), &[], &[]),
    ];
    let maps = port_mappings(&stages);
    assert_eq!(maps.len(), 2);
    assert_eq!(maps[0].war_port, "S1.raw");
    assert_eq!(maps[1].war_port, "S1.out");
    assert!(!maps[1].compatible);
    assert_eq!(maps[1].blut_kind, "nonsense");
    let (r, plan) = lower_findings("W-1", "m", "ms", &stages, maps.len());
    let plan = plan.unwrap();
    assert_eq!(plan.nodes, vec!["ingest", "report", "publish"]);
    assert_eq!(plan.edges, vec![(0, 1), (1, 2)]);
    assert_eq!(r[0].message, "W-1: 2 port(s) map to kinds BLUT declares at 33b3e047fd8e");
    assert_eq!(r[1].message, "W-1: lowered 3 stage(s) against a pinned registry (blut@33b3e047fd8e)");
}

#[test]
fn blut_verdicts_and_notes() {
    let v = openwarrant::blut::BlutVerdict {
        accepted: true,
        detail: "plan".into(),
        fingerprint: Some("abcdef0123456789".into()),
        recipes_registered: Some(4),
        binary: "/usr/bin/blut".into(),
        exit_code: 0,
    };
    let d = verdict_finding("W-1", "ms", &v);
    assert_eq!(d.rule, "blut.accepted");
    assert!(d.message.starts_with("W-1: BLUT accepted the lowering (fingerprint abcdef012345, "));
    assert!(d.message.ends_with(" recipes registered, exit 0) — reported by /usr/bin/blut"));
    let v2 = openwarrant::blut::BlutVerdict { accepted: false, detail: "unknown stage".into(), fingerprint: None, exit_code: 2, ..v };
    let d = verdict_finding("W-1", "ms", &v2);
    assert_eq!(d.rule, "blut.refused");
    assert_eq!(d.severity, openwarrant::diagnostic::Severity::Unknown);
    assert!(d.message.ends_with(" recipes registered) — unknown stage"));
    assert!(d.message.starts_with("W-1: BLUT refused the lowering (exit 2, "));
    assert!(unverified_note("{}").starts_with("This PlanSpec is structurally faithful to a schema read from BLUT at 33b3e047fd8e, and has NOT"));
    assert!(unverified_note("{}").ends_with("establishes.\n\n{}"));
    assert!(verdict_note("/b", "{}").starts_with("Verdict obtained from /b — a separate program"));
}

#[test]
fn executor_args_must_be_a_json_object() {
    assert_eq!(executor_args_refusal("S1", None), None);
    assert_eq!(executor_args_refusal("S1", Some("{\"steps\": 3}")), None);
    assert_eq!(
        executor_args_refusal("S1", Some("[1, 2]")),
        Some("stage S1: `executor_args` must be a JSON object — stage arguments are named".to_owned())
    );
    let refused = executor_args_refusal("S1", Some("{")).expect("not JSON");
    assert!(refused.starts_with("stage S1: `executor_args` is not JSON: "), "{refused}");
    assert!(refused.len() > "stage S1: `executor_args` is not JSON: ".len());
    assert_eq!(
        args_refusal("S2", &Err("expected value at line 1 column 1".to_owned())),
        Some("stage S2: `executor_args` is not JSON: expected value at line 1 column 1".to_owned())
    );
    assert_eq!(args_refusal("S2", &Ok(JsonValue::Object(vec![]))), None);
    assert_eq!(
        args_refusal("S2", &Ok(JsonValue::Plain(Scalar::Number(Some(3))))),
        Some("stage S2: `executor_args` must be a JSON object — stage arguments are named".to_owned())
    );
    assert_eq!(executor_args_refusal("S1", Some("null")).is_some(), true);
    assert_eq!(executor_args_refusal("S1", Some("\"text\"")).is_some(), true);
}
