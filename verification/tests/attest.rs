use openwarrant::attest::{
    attestation_name, fingerprint_in, names_exhausted, signature_finding, signature_stage, subject_check, subject_findings,
    verify_all,
    SubjectCheck,
};
use openwarrant::diagnostic::{Diagnostic, Severity};

const ABC: &str = "ba7816bf8f01cfea414140de5dae2223b00361a396177a9cb410ff61f20015ad";

#[test]
fn a_subject_is_rechecked_against_its_file_today() {
    assert_eq!(
        subject_check("contract:OW-WAR-0001", None, &Ok(vec![]), "authorize"),
        SubjectCheck::NotAFile
    );
    assert_eq!(
        subject_check("docs/a.toml", Some(ABC), &Ok(b"abc".to_vec()), "authorize"),
        SubjectCheck::Intact
    );
    assert_eq!(
        subject_check("docs/a.toml", Some(ABC), &Ok(b"abd".to_vec()), "authorize"),
        SubjectCheck::Drifted {
            message: format!(
                "docs/a.toml no longer matches the digest attested for it (sha256:{ABC}); the record was edited after the authorize was attested"
            )
        }
    );
    assert_eq!(
        subject_check("docs/a.toml", None, &Ok(vec![]), "authorize"),
        SubjectCheck::NoDigest { message: "subject docs/a.toml carries no sha256".to_owned() }
    );
    assert_eq!(
        subject_check("docs/a.toml", Some(ABC), &Err("gone".to_owned()), "authorize"),
        SubjectCheck::Drifted { message: "docs/a.toml: gone".to_owned() }
    );
}

#[test]
fn a_signature_over_drifted_subjects_is_not_a_verified_attestation() {
    let ok = signature_finding("a.dsse.json", "authorize", "brian", "SHA256:k", 2, false, &Ok(()));
    assert_eq!(ok.rule, "attest.verified");
    assert_eq!(ok.message, "a.dsse.json: authorize attested by brian (SHA256:k), 2 subject(s) intact");
    let drifted = signature_finding("a.dsse.json", "authorize", "brian", "SHA256:k", 2, true, &Ok(()));
    assert_eq!(drifted.rule, "attest.signature-verified");
    let failed = signature_finding("a.dsse.json", "authorize", "brian", "k", 2, false, &Err("no".to_owned()));
    assert_eq!(failed.severity, Severity::Error);
    assert_eq!(failed.rule, "attest.failed");
}

#[test]
fn every_attestation_is_counted() {
    let r = verify_all(vec![
        vec![Diagnostic::pass("attest.verified", "one")],
        vec![],
        vec![Diagnostic::error("attest.failed", "b", "two")],
    ]);
    assert_eq!(r.diagnostics.len(), 3);
    assert_eq!(r.diagnostics[2].message, "3 attestation(s) checked");
    assert_eq!(r.diagnostics[1].rule, "attest.failed");
}

#[test]
fn attest_keyid_is_the_sha256_fingerprint_word() {
    assert_eq!(
        fingerprint_in("256 SHA256:abcDEF+/x alice@example (ED25519)\n"),
        Ok("SHA256:abcDEF+/x".to_owned())
    );
    assert_eq!(
        fingerprint_in("256 MD5:aa:bb (RSA)"),
        Err("no SHA256 fingerprint in \"256 MD5:aa:bb (RSA)\"".to_owned())
    );
}

#[test]
fn attest_file_names_count_up_to_the_limit() {
    assert_eq!(attestation_name("sign", 1), "sign-1.dsse.json");
    assert_eq!(attestation_name("sas-accept-3", 42), "sas-accept-3-42.dsse.json");
    assert_eq!(
        names_exhausted("docs/w/attestations", "sign"),
        "docs/w/attestations: more than 10000 sign-N.dsse.json files; refusing to allocate another"
    );
}

#[test]
fn attest_signature_stage_is_unchecked_without_ssh_keygen() {
    let p: Result<String, String> = Ok("brian@example".to_owned());
    let d = signature_stage("a.dsse.json", "authorize", "brian", &p, "SHA256:k", 2, false, true, false, &Ok(()));
    assert_eq!(d.severity, Severity::Unknown);
    assert_eq!(d.rule, "attest.unchecked");
    assert_eq!(d.message, "ssh-keygen is not on PATH; the signature was not verified");
    assert_eq!(d.file.as_deref(), Some("a.dsse.json"));
    let bad = signature_stage("a.dsse.json", "authorize", "brian", &p, "SHA256:k", 2, false, false, true, &Ok(()));
    assert_eq!((bad.rule.as_str(), bad.message.as_str()), ("attest.malformed", "signature is not base64"));
    let who: Result<String, String> = Err("no principal".to_owned());
    let unknown = signature_stage("a.dsse.json", "authorize", "eve", &who, "SHA256:k", 2, false, true, true, &Ok(()));
    assert_eq!(unknown.rule, "attest.unknown-principal");
    assert_eq!(unknown.message, "predicate actor \"eve\": no principal");
    let ok = signature_stage("a.dsse.json", "authorize", "brian", &p, "SHA256:k", 2, false, true, true, &Ok(()));
    assert_eq!(ok.rule, "attest.verified");
    assert_eq!(ok.message, "a.dsse.json: authorize attested by brian@example (SHA256:k), 2 subject(s) intact");
}

#[test]
fn attest_subject_stage_names_every_drift() {
    let checks = vec![
        SubjectCheck::NotAFile,
        SubjectCheck::Intact,
        SubjectCheck::NoDigest { message: "subject a.md carries no sha256".to_owned() },
        SubjectCheck::Drifted { message: "b.md no longer matches".to_owned() },
    ];
    let (ds, drifted) = subject_findings("x.dsse.json", &checks);
    assert!(drifted);
    let rows: Vec<(&str, &str)> = ds.iter().map(|d| (d.rule.as_str(), d.message.as_str())).collect();
    assert_eq!(
        rows,
        vec![("attest.malformed", "subject a.md carries no sha256"), ("attest.subject-drift", "b.md no longer matches")]
    );
    assert!(ds.iter().all(|d| d.severity == Severity::Error && d.file.as_deref() == Some("x.dsse.json")));
    let (none, clean) = subject_findings("x.dsse.json", &vec![SubjectCheck::Intact, SubjectCheck::NotAFile]);
    assert!(none.is_empty());
    assert!(!clean);
}
