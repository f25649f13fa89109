use openwarrant::authority::{ActorKind, ActorRole, AuthorityRegister, RoleAssignment};
use openwarrant::authority_check::{
    batch_covering, candidate_paths, is_candidate_name, response_path, response_stem, verify, Act, BatchRecord,
    Candidate, SshFailure, Verdict,
};

#[test]
fn a_response_name_follows_its_act() {
    let a = response_path("/repo", Act::Authorize, "OW-WAR-0063");
    assert!(a.ends_with("OW-WAR-0063.response.toml"), "{a}");
    let c = response_path("/repo", Act::Correct, "OW-WAR-0055.D-001");
    assert!(c.ends_with("OW-WAR-0055.D-001.correction.response.toml"), "{c}");
    assert_eq!(response_stem(Act::Authorize, "OW-WAR-0063"), "OW-WAR-0063");
    assert!(is_candidate_name("OW-WAR-0063.sha256-ab.response.toml", "OW-WAR-0063"));
    assert!(!is_candidate_name("OW-WAR-0064.response.toml", "OW-WAR-0063"));
}

#[test]
fn every_unhappy_verdict_carries_its_reason_and_rule() {
    for v in [
        Verdict::Unsigned { why: "u".into() },
        Verdict::Invalid { why: "i".into() },
        Verdict::NotHuman { why: "n".into() },
        Verdict::Unavailable { why: "a".into() },
    ] {
        assert!(!v.is_signed(), "{v:?}");
        assert!(!v.why().is_empty(), "{v:?}");
        assert!(v.rule().starts_with("authority."), "{v:?}");
    }
    let ok = Verdict::Signed {
        principal: "brian".into(),
        response: "docs/authority/responses/X.response.toml".into(),
    };
    assert!(ok.is_signed());
    assert_eq!(ok.rule(), "authority.signed");
    assert!(ok.why().contains("brian"));
}

fn register() -> Result<AuthorityRegister, String> {
    Ok(AuthorityRegister {
        assignments: vec![
            RoleAssignment {
                actor: "brian".to_owned(),
                actor_kind: ActorKind::Human,
                roles: vec![ActorRole::Authorizer],
                ssh_principal: Some("brian@example".to_owned()),
            },
            RoleAssignment {
                actor: "scribe".to_owned(),
                actor_kind: ActorKind::Agent,
                roles: vec![ActorRole::Authorizer],
                ssh_principal: Some("scribe@example".to_owned()),
            },
        ],
    })
}

fn candidate(text: &str, sidecar: bool, signature: Result<(), SshFailure>) -> Candidate {
    Candidate {
        relative: "docs/authority/responses/OW-WAR-0001.response.toml".to_owned(),
        is_primary: true,
        text: Ok(text.to_owned()),
        sidecar,
        name: "OW-WAR-0001.response.toml".to_owned(),
        digest: Some("d1".to_owned()),
        signature,
    }
}

const TEXT: &str = "schema = \"oh.war/authorization-response/v1\"\ncontract_digest = \"sha256:abc\"\n";

#[test]
fn a_human_signature_over_the_bound_digest_is_signed() {
    let v = verify(
        Act::Authorize,
        "OW-WAR-0001",
        "brian",
        Some("sha256:abc"),
        &register(),
        &vec![],
        &vec![candidate(TEXT, true, Ok(()))],
    );
    assert_eq!(
        v,
        Verdict::Signed {
            principal: "brian@example".to_owned(),
            response: "docs/authority/responses/OW-WAR-0001.response.toml".to_owned(),
        }
    );
}

#[test]
fn every_way_to_fail_is_named() {
    let reg = register();
    let none = verify(Act::Authorize, "OW-WAR-0001", "brian", None, &reg, &vec![], &vec![]);
    assert_eq!(none.rule(), "authority.unsigned");
    let agent = verify(
        Act::Authorize,
        "OW-WAR-0001",
        "scribe",
        None,
        &reg,
        &vec![],
        &vec![candidate(TEXT, true, Ok(()))],
    );
    assert_eq!(agent.rule(), "authority.actor-not-human");
    assert!(agent.why().contains("is agent in the register"));
    let moved = verify(
        Act::Authorize,
        "OW-WAR-0001",
        "brian",
        Some("sha256:def"),
        &reg,
        &vec![],
        &vec![candidate(TEXT, true, Ok(()))],
    );
    assert_eq!(moved.rule(), "authority.signature-invalid");
    let nosig = verify(
        Act::Authorize,
        "OW-WAR-0001",
        "brian",
        Some("sha256:abc"),
        &reg,
        &vec![],
        &vec![candidate(TEXT, false, Ok(()))],
    );
    assert_eq!(nosig.rule(), "authority.unsigned");
    assert!(nosig.why().contains("carries no `.sig` sidecar"));
    let rejected = verify(
        Act::Authorize,
        "OW-WAR-0001",
        "brian",
        Some("sha256:abc"),
        &reg,
        &vec![],
        &vec![candidate(TEXT, true, Err(SshFailure::Rejected("bad key".to_owned())))],
    );
    assert_eq!(rejected, Verdict::Invalid { why: "bad key".to_owned() });
    let unavailable = verify(
        Act::Authorize,
        "OW-WAR-0001",
        "brian",
        Some("sha256:abc"),
        &Err("no file".to_owned()),
        &vec![],
        &vec![candidate(TEXT, true, Ok(()))],
    );
    assert_eq!(
        unavailable,
        Verdict::Unavailable { why: "docs/authority/roles.toml could not be read: no file".to_owned() }
    );
    let other_act = verify(
        Act::Resolve,
        "OW-WAR-0001",
        "brian",
        None,
        &reg,
        &vec![],
        &vec![candidate(TEXT, true, Ok(()))],
    );
    assert_eq!(other_act.rule(), "authority.unsigned");
    assert!(other_act.why().contains("1 file(s) there carry this subject's name"));
}

#[test]
fn a_batch_that_lists_the_response_signs_it() {
    let c = candidate(TEXT, false, Ok(()));
    let bs = vec![batch("B-1", "brian", &[("OW-WAR-0001.response.toml", "d1")], true, Ok(()))];
    let v = verify(Act::Authorize, "OW-WAR-0001", "brian", Some("sha256:abc"), &register(), &bs, &vec![c]);
    assert!(v.is_signed());
    assert_eq!(v.why(), Verdict::Signed {
        principal: "brian@example".to_owned(),
        response: "docs/authority/responses/OW-WAR-0001.response.toml (in batch B-1)".to_owned(),
    }.why());
}

fn batch(id: &str, signer: &str, listed: &[(&str, &str)], sig: bool, signature: Result<(), SshFailure>) -> BatchRecord {
    BatchRecord {
        batch_id: id.to_owned(),
        signer: signer.to_owned(),
        listed: listed.iter().map(|(n, d)| ((*n).to_owned(), (*d).to_owned())).collect(),
        sig_present: sig,
        signature,
    }
}

#[test]
fn a_batch_covers_only_the_actors_listing_of_the_exact_bytes() {
    let c = candidate(TEXT, false, Ok(()));
    let name = "OW-WAR-0001.response.toml";
    // signed by someone else, listing another digest, or without a signature file: nothing
    assert_eq!(batch_covering("brian@example", "brian", &c, &vec![batch("B-1", "ana", &[(name, "d1")], true, Ok(()))]), None);
    assert_eq!(batch_covering("brian@example", "brian", &c, &vec![batch("B-1", "brian", &[(name, "d2")], true, Ok(()))]), None);
    assert_eq!(batch_covering("brian@example", "brian", &c, &vec![batch("B-1", "brian", &[(name, "d1")], false, Ok(()))]), None);
    // a rejected batch is remembered; a later verifying one signs
    let bs = vec![
        batch("B-1", "brian", &[(name, "d1")], true, Err(SshFailure::Rejected("bad".to_owned()))),
        batch("B-2", "brian", &[("x", "y"), (name, "d1")], true, Ok(())),
    ];
    assert_eq!(
        batch_covering("brian@example", "brian", &c, &bs),
        Some(Verdict::Signed {
            principal: "brian@example".to_owned(),
            response: "docs/authority/responses/OW-WAR-0001.response.toml (in batch B-2)".to_owned(),
        })
    );
    assert_eq!(
        batch_covering("brian@example", "brian", &c, &vec![batch("B-1", "brian", &[(name, "d1")], true, Err(SshFailure::Rejected("bad".to_owned())))]),
        Some(Verdict::Invalid { why: "bad".to_owned() })
    );
    let v = verify(Act::Authorize, "OW-WAR-0001", "brian", Some("sha256:abc"), &register(), &bs, &vec![c]);
    assert_eq!(
        v,
        Verdict::Signed {
            principal: "brian@example".to_owned(),
            response: "docs/authority/responses/OW-WAR-0001.response.toml (in batch B-2)".to_owned(),
        }
    );
}

#[test]
fn candidate_paths_lists_each_response_of_the_subject_once_in_order() {
    let e = |p: &str, n: &str| (p.to_owned(), n.to_owned());
    let entries = vec![
        e("/r/OW-WAR-0001.response.toml", "OW-WAR-0001.response.toml"),
        e("/r/OW-WAR-0001.z.response.toml", "OW-WAR-0001.z.response.toml"),
        e("/r/OW-WAR-0001.b.response.toml", "OW-WAR-0001.b.response.toml"),
        e("/r/OW-WAR-0002.response.toml", "OW-WAR-0002.response.toml"),
        e("/r/OW-WAR-0001.notes.txt", "OW-WAR-0001.notes.txt"),
    ];
    assert_eq!(
        candidate_paths("/r/OW-WAR-0001.response.toml", true, None, &entries, "OW-WAR-0001."),
        vec![
            "/r/OW-WAR-0001.b.response.toml".to_owned(),
            "/r/OW-WAR-0001.response.toml".to_owned(),
            "/r/OW-WAR-0001.z.response.toml".to_owned(),
        ]
    );
    // the path left out is not a candidate, and a missing primary is not listed
    assert_eq!(
        candidate_paths("/r/OW-WAR-0001.response.toml", false, Some("/r/OW-WAR-0001.z.response.toml"), &entries, "OW-WAR-0001."),
        vec!["/r/OW-WAR-0001.b.response.toml".to_owned()]
    );
}
