use openwarrant::authority::{ActorKind, ActorRole, AuthorityRegister, RoleAssignment};
use openwarrant::correct::{
    correction_refusal, drift, sequence_of, CorrectionResponse, CorrectionState, RESPONSE_SCHEMA,
};

fn register() -> AuthorityRegister {
    AuthorityRegister {
        assignments: vec![
            RoleAssignment {
                actor: "brian".to_owned(),
                actor_kind: ActorKind::Human,
                roles: vec![ActorRole::Authorizer],
                ssh_principal: None,
            },
            RoleAssignment {
                actor: "scribe".to_owned(),
                actor_kind: ActorKind::Agent,
                roles: vec![ActorRole::Authorizer],
                ssh_principal: None,
            },
        ],
    }
}

fn response(by: &str) -> CorrectionResponse {
    CorrectionResponse {
        schema: RESPONSE_SCHEMA.to_owned(),
        warrant: "OW-WAR-0005".to_owned(),
        deliverable_id: "D-001".to_owned(),
        superseded_digest: "sha256:old".to_owned(),
        new_digest: "sha256:new".to_owned(),
        reason: "The licence header moved.".to_owned(),
        kind: "behaviour-change".to_owned(),
        corrected_by: by.to_owned(),
        acting_role: "owner".to_owned(),
        effective_time: "2026-09-02T00:00:00Z".to_owned(),
        signed_via: None,
    }
}

fn state() -> CorrectionState {
    CorrectionState {
        unknown_deliverable: None,
        resolved: true,
        head: Ok("sha256:old".to_owned()),
        current: "sha256:new".to_owned(),
        bad_time: None,
        performer: "scribe".to_owned(),
    }
}

fn rule_of(r: &CorrectionResponse, st: &CorrectionState) -> Option<String> {
    correction_refusal(r, "OW-WAR-0005", "D-001", st, &register()).map(|f| f.rule)
}

#[test]
fn a_human_correction_of_a_drifted_file_is_admitted() {
    assert_eq!(rule_of(&response("brian"), &state()), None);
}

#[test]
fn every_refusal_is_named_in_order() {
    let mut r = response("brian");
    r.schema = "x".to_owned();
    assert_eq!(rule_of(&r, &state()).as_deref(), Some("correction.schema"));
    let mut r = response("brian");
    r.deliverable_id = "D-002".to_owned();
    let f = correction_refusal(&r, "OW-WAR-0005", "D-001", &state(), &register()).unwrap();
    assert_eq!(f.rule, "correction.wrong-warrant");
    assert_eq!(f.message, "the response names OW-WAR-0005/D-002; ingesting for OW-WAR-0005/D-001");
    let mut st = state();
    st.resolved = false;
    assert_eq!(rule_of(&response("brian"), &st).as_deref(), Some("correction.not-resolved"));
    let mut st = state();
    st.head = Err("a broken chain".to_owned());
    assert_eq!(rule_of(&response("brian"), &st).as_deref(), Some("correction.chain"));
    let mut st = state();
    st.current = "sha256:old".to_owned();
    assert_eq!(rule_of(&response("brian"), &st).as_deref(), Some("correction.no-drift"));
    let mut r = response("brian");
    r.new_digest = "sha256:other".to_owned();
    assert_eq!(rule_of(&r, &state()).as_deref(), Some("correction.stale"));
    let mut r = response("brian");
    r.superseded_digest = "sha256:older".to_owned();
    assert_eq!(rule_of(&r, &state()).as_deref(), Some("correction.superseded-mismatch"));
    let mut r = response("brian");
    r.reason = "  \n".to_owned();
    assert_eq!(rule_of(&r, &state()).as_deref(), Some("correction.reason-empty"));
    let mut st = state();
    st.bad_time = Some("is not RFC 3339".to_owned());
    assert_eq!(rule_of(&response("brian"), &st).as_deref(), Some("correction.effective-time"));
    assert_eq!(rule_of(&response("nobody"), &state()).as_deref(), Some("correction.unknown-actor"));
    assert_eq!(rule_of(&response("scribe"), &state()).as_deref(), Some("correction.agent"));
    let mut st = state();
    st.performer = "brian".to_owned();
    assert_eq!(rule_of(&response("brian"), &st).as_deref(), Some("correction.not-permitted"));
}

#[test]
fn the_request_counts_and_drift() {
    assert_eq!(sequence_of(0), (0, 1));
    assert_eq!(sequence_of(2), (2, 3));
    assert!(drift("sha256:a", "sha256:b"));
    assert!(!drift("sha256:a", "sha256:a"));
}
