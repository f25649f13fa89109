use openwarrant::evidence::{
    admissibility, admissible_runs, contract_subject, finding, EvidenceFinding, GateEvidence, GateReceipt, GateRun,
    ReceiptChecks,
};

const C: &str = "sha256:0123";

fn run(verdict: &str) -> GateRun {
    GateRun {
        id: "GR-x".to_owned(),
        gate: "g@1.0.0".to_owned(),
        askability: "askable".to_owned(),
        execution_status: "completed".to_owned(),
        verdict: verdict.to_owned(),
    }
}

fn receipt(verdict: &str, subject: &str) -> GateReceipt {
    GateReceipt {
        subject_digests: vec![subject.to_owned()],
        verdict: verdict.to_owned(),
        receipt_digest: "sha256:seal".to_owned(),
    }
}

fn evidence(run: GateRun, receipt: Option<GateReceipt>) -> GateEvidence {
    GateEvidence {
        run,
        run_path: "x.run.toml".to_owned(),
        receipt,
        receipt_path: "x.receipt.json".to_owned(),
    }
}

fn sealed() -> ReceiptChecks {
    ReceiptChecks { incomplete: None, reseals: true }
}

#[test]
fn a_sealed_bound_passing_receipt_is_admissible() {
    let e = evidence(run("pass"), Some(receipt("pass", &contract_subject(C))));
    assert!(admissibility(&e, &sealed(), Some(C)).is_ok());
    assert_eq!(finding(&e, &sealed(), Some(C)), EvidenceFinding::Admissible);
}

#[test]
fn an_edited_receipt_does_not_reseal() {
    let e = evidence(run("pass"), Some(receipt("pass", &contract_subject(C))));
    let checks = ReceiptChecks { incomplete: None, reseals: false };
    let why = admissibility(&e, &checks, Some(C)).unwrap_err();
    assert!(why.contains("does not recompute"), "{why}");
    assert_eq!(finding(&e, &checks, Some(C)), EvidenceFinding::ReceiptInvalid);
}

#[test]
fn a_receipt_for_an_earlier_contract_is_a_record_not_evidence() {
    let e = evidence(run("pass"), Some(receipt("pass", "contract:sha256:ffff")));
    let why = admissibility(&e, &sealed(), Some(C)).unwrap_err();
    assert!(why.contains("earlier revision"), "{why}");
    assert_eq!(
        why,
        "the receipt is bound to contract:sha256:ffff and the contract now compiles to \
contract:sha256:0123 — a run against an earlier revision is a record, not evidence about this one"
    );
    assert_eq!(finding(&e, &sealed(), Some(C)), EvidenceFinding::StaleBinding);
    assert_eq!(EvidenceFinding::StaleBinding.rule(), "evidence.stale-binding");
}

#[test]
fn a_run_without_a_receipt_is_not_admissible() {
    let e = evidence(run("pass"), None);
    assert!(admissibility(&e, &sealed(), Some(C))
        .unwrap_err()
        .contains("no §44.6 receipt"));
}

#[test]
fn a_run_and_receipt_that_disagree_are_refused() {
    let e = evidence(run("pass"), Some(receipt("fail", &contract_subject(C))));
    assert!(admissibility(&e, &sealed(), Some(C))
        .unwrap_err()
        .contains("says verdict"));
}

#[test]
fn a_failing_run_is_not_a_pass_however_well_sealed() {
    let e = evidence(run("fail"), Some(receipt("fail", &contract_subject(C))));
    assert!(admissibility(&e, &sealed(), Some(C))
        .unwrap_err()
        .contains("not a §44.5"));
    assert_eq!(finding(&e, &sealed(), Some(C)), EvidenceFinding::NotAPass);
}

#[test]
fn no_contract_means_nothing_to_bind_to() {
    let e = evidence(run("pass"), Some(receipt("pass", &contract_subject(C))));
    assert!(admissibility(&e, &sealed(), None).is_err());
}

#[test]
fn a_contract_subject_drops_one_prefix_form() {
    assert_eq!(contract_subject("sha256:abc"), "contract:sha256:abc");
    assert_eq!(contract_subject("abc"), "contract:sha256:abc");
    assert_eq!(contract_subject("sha256:sha256:abc"), "contract:sha256:abc");
}

#[test]
fn an_incomplete_receipt_says_why() {
    let e = evidence(run("pass"), Some(receipt("pass", &contract_subject(C))));
    let checks = ReceiptChecks { incomplete: Some("no runner".to_owned()), reseals: true };
    assert_eq!(
        admissibility(&e, &checks, Some(C)),
        Err("the receipt is incomplete: no runner".to_owned())
    );
}

#[test]
fn only_admissible_runs_count_as_evidence() {
    let good = evidence(run("pass"), Some(receipt("pass", &contract_subject(C))));
    let stale = evidence(run("pass"), Some(receipt("pass", "contract:sha256:ffff")));
    let missing = evidence(run("pass"), None);
    let es = vec![stale, good.clone(), missing, good];
    let cs = vec![sealed(), sealed(), sealed(), sealed()];
    assert_eq!(admissible_runs(&es, &cs, Some(C)), vec![1, 3]);
    assert_eq!(admissible_runs(&es, &cs, None), Vec::<usize>::new());
}
