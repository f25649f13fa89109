use openwarrant::authority::{ActorKind, ActorRole, AuthorityRegister, RoleAssignment};
use openwarrant::authorize::{
    authorizes_current_contract, eligible_authorizers, judgment_failures, judgment_is_permitted,
    residual_risks_in, revision_step, validate_response, Assumption, AuthorizationRecord,
    AuthorizationResponse, ContractRevision, Judgment, Refusal, RevisionState, RevisionStep,
    AUTHORIZATION_SCHEMA, RESPONSE_SCHEMA,
};

fn register() -> AuthorityRegister {
    AuthorityRegister {
        assignments: vec![
            RoleAssignment {
                actor: "brian".to_owned(),
                actor_kind: ActorKind::Human,
                roles: vec![ActorRole::Authorizer, ActorRole::Judge, ActorRole::Resolver],
                ssh_principal: None,
            },
            RoleAssignment {
                actor: "scribe".to_owned(),
                actor_kind: ActorKind::Agent,
                roles: vec![
                    ActorRole::Performer,
                    ActorRole::Authorizer,
                    ActorRole::Judge,
                    ActorRole::RiskAcceptor,
                ],
                ssh_principal: None,
            },
        ],
    }
}

fn response(authorizer: &str, digest: &str) -> AuthorizationResponse {
    AuthorizationResponse {
        schema: RESPONSE_SCHEMA.to_owned(),
        warrant: "OW-WAR-0014".to_owned(),
        contract_digest: digest.to_owned(),
        authorizer: authorizer.to_owned(),
        acting_role: "owner".to_owned(),
        meaning: "Accept the declared deliverables against the bounded obligations.".to_owned(),
        effective_time: "2026-08-25T12:00:00Z".to_owned(),
        policy_basis: None,
        judgment: vec![],
    }
}

#[test]
fn a_well_formed_human_authorization_is_accepted() {
    assert!(validate_response(
        &response("brian", "sha256:abc"),
        "OW-WAR-0014",
        "sha256:abc",
        "scribe",
        &register(),
    )
    .is_ok());
}

#[test]
fn an_agent_cannot_authorize_even_holding_the_role() {
    let refusal = validate_response(
        &response("scribe", "sha256:abc"),
        "OW-WAR-0014",
        "sha256:abc",
        "brian",
        &register(),
    )
    .expect_err("an agent must be refused");
    assert!(matches!(refusal, Refusal::NotPermitted { .. }), "got {refusal:?}");
}

#[test]
fn an_authorizer_who_proposed_it_is_refused() {
    let refusal = validate_response(
        &response("brian", "sha256:abc"),
        "OW-WAR-0014",
        "sha256:abc",
        "brian",
        &register(),
    )
    .expect_err("self-authorization must be refused");
    assert!(matches!(refusal, Refusal::NotPermitted { .. }));
}

#[test]
fn a_signature_against_a_moved_digest_is_refused() {
    let refusal = validate_response(
        &response("brian", "sha256:old"),
        "OW-WAR-0014",
        "sha256:new",
        "scribe",
        &register(),
    )
    .expect_err("a stale digest must be refused");
    assert!(matches!(refusal, Refusal::StaleDigest { .. }));
    assert_eq!(refusal.rule(), "authorize.stale-digest");
    assert!(refusal.message().starts_with(
        "the response authorizes contract sha256:old but the Warrant now compiles to sha256:new."
    ));
}

#[test]
fn an_actor_with_no_assignment_has_no_authority() {
    let refusal = validate_response(
        &response("someone", "sha256:abc"),
        "OW-WAR-0014",
        "sha256:abc",
        "scribe",
        &register(),
    )
    .expect_err("an unknown actor must be refused");
    assert!(matches!(refusal, Refusal::UnknownActor { .. }));
    assert!(refusal.message().starts_with("\"someone\" holds no role assignment"));
}

#[test]
fn a_response_for_another_warrant_is_refused() {
    let mut r = response("brian", "sha256:abc");
    r.warrant = "OW-WAR-0001".to_owned();
    let refusal = validate_response(&r, "OW-WAR-0014", "sha256:abc", "scribe", &register())
        .expect_err("a mismatched warrant must be refused");
    assert!(matches!(refusal, Refusal::WrongWarrant { .. }));
    assert_eq!(
        refusal.message(),
        "response names \"OW-WAR-0001\" but is being ingested for OW-WAR-0014"
    );
}

#[test]
fn an_unknown_schema_is_refused() {
    let mut r = response("brian", "sha256:abc");
    r.schema = "oh.war/something-else/v1".to_owned();
    let refusal = validate_response(&r, "OW-WAR-0014", "sha256:abc", "scribe", &register())
        .expect_err("an unknown schema must be refused");
    assert!(matches!(refusal, Refusal::UnknownSchema { .. }));
    assert_eq!(
        refusal.message(),
        "unknown response schema \"oh.war/something-else/v1\"; expected \"oh.war/authorization-response/v1\""
    );
}

fn judgment(actor: &str, kind: &str) -> Judgment {
    Judgment {
        id: "J-001".to_owned(),
        kind: kind.to_owned(),
        statement: "The residual risk is acceptable for this release.".to_owned(),
        actor: actor.to_owned(),
        acting_role: "owner".to_owned(),
        meaning: "Accepted knowingly, with the consequence stated.".to_owned(),
    }
}

#[test]
fn a_human_risk_acceptance_needs_the_risk_acceptor_role() {
    let err = judgment_is_permitted(&judgment("brian", "residual_risk_acceptance"), &register())
        .expect_err("holding judge is not holding risk_acceptor");
    assert!(err.contains("risk_acceptor"), "got {err}");
}

#[test]
fn an_agent_may_recommend_a_judgment_but_not_make_one() {
    let err = judgment_is_permitted(&judgment("scribe", "adequacy"), &register())
        .expect_err("an agent must not record a made judgment");
    assert!(err.contains("recommend"), "got {err}");
}

#[test]
fn a_judge_may_make_an_ordinary_judgment() {
    assert_eq!(judgment_is_permitted(&judgment("brian", "adequacy"), &register()), Ok(()));
    let failures = judgment_failures(
        &vec![judgment("brian", "adequacy"), judgment("nobody", "adequacy")],
        &register(),
    );
    assert_eq!(
        failures,
        vec!["J-001: \"nobody\" holds no role assignment, so it cannot make a judgment".to_owned()]
    );
}

#[test]
fn only_an_admissible_authorizer_is_listed() {
    assert_eq!(eligible_authorizers(&register(), "scribe"), vec!["brian".to_owned()]);
    assert!(eligible_authorizers(&register(), "brian").is_empty());
}

#[test]
fn only_accepted_residual_risks_are_put_to_the_authorizer() {
    let a = |id: &str, risk: bool| Assumption {
        id: id.to_owned(),
        statement: "s".to_owned(),
        consequence_if_false: "c".to_owned(),
        judgment_ref: String::new(),
        accepted_residual_risk: risk,
    };
    let risks = residual_risks_in(&vec![a("A-1", false), a("A-2", true)]);
    assert_eq!(risks.len(), 1);
    assert_eq!(risks[0].assumption_id, "A-2");
    assert_eq!(risks[0].consequence_if_false, "c");
}

#[test]
fn an_authorization_must_be_authorized_and_current() {
    let mut record = AuthorizationRecord {
        schema: AUTHORIZATION_SCHEMA.to_owned(),
        warrant: "OW-WAR-0014".to_owned(),
        revision: ContractRevision {
            revision: 1,
            contract_digest: "sha256:abc".to_owned(),
            state: RevisionState::Draft,
            authorizer: None,
        },
        sas_revision: None,
    };
    assert!(!authorizes_current_contract(&record, "sha256:abc"));
    record.revision.state = RevisionState::Authorized;
    record.revision.authorizer = Some("brian".to_owned());
    assert!(authorizes_current_contract(&record, "sha256:abc"));
    assert!(!authorizes_current_contract(&record, "sha256:something-else"));
}

#[test]
fn a_moved_contract_needs_its_amendments_before_it_is_signed_again() {
    let prev = Some(ContractRevision {
        revision: 2,
        contract_digest: "sha256:a".to_owned(),
        state: RevisionState::Authorized,
        authorizer: Some("brian".to_owned()),
    });
    assert_eq!(revision_step(&None, "sha256:a", 0), RevisionStep::First);
    assert_eq!(
        revision_step(&prev, "sha256:a", 5),
        RevisionStep::AlreadyAuthorized { revision: 2 }
    );
    assert_eq!(
        revision_step(&prev, "sha256:b", 1),
        RevisionStep::NeedsAmendment { revision: 2, needed: 2, found: 1 }
    );
    assert_eq!(revision_step(&prev, "sha256:b", 2), RevisionStep::Amend { revision: 3 });
}
