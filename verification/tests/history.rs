use openwarrant::history::{
    authorization_step, contract_step, history_ready, resolved_source, AuthorizationStep, Found,
    RetainedAuthorization, RetainedContract,
};
use openwarrant::history::{charge, ls_tree_object, selector};

#[test]
fn a_contract_selector_is_canonical_and_positive() {
    assert_eq!(selector("HEAD~1"), Ok(None));
    assert_eq!(selector("contract:3"), Ok(Some(3)));
    assert_eq!(selector("contract:4294967295"), Ok(Some(4294967295)));
    let err = Err("contract selector requires canonical positive revision: contract:N".to_owned());
    assert_eq!(selector("contract:0"), err);
    assert_eq!(selector("contract:03"), err);
    assert_eq!(selector("contract:"), err);
    assert_eq!(selector("contract:+3"), err);
    assert_eq!(selector("contract:4294967296"), err);
}

#[test]
fn only_a_regular_blob_is_read() {
    let f = |a: &str, b: &str, c: &str| vec![a.to_owned(), b.to_owned(), c.to_owned()];
    assert_eq!(ls_tree_object(&f("100644", "blob", "abc")), Ok("abc".to_owned()));
    assert_eq!(ls_tree_object(&f("100755", "blob", "abc")), Ok("abc".to_owned()));
    assert!(ls_tree_object(&f("120000", "blob", "abc")).is_err());
    assert!(ls_tree_object(&f("040000", "tree", "abc")).is_err());
    assert!(ls_tree_object(&vec!["100644".to_owned()]).is_err());
}

#[test]
fn the_scan_budget_is_charged_and_bounded() {
    let mut budget = 10usize;
    assert_eq!(charge(4, &mut budget), Ok(()));
    assert_eq!(budget, 6);
    assert_eq!(charge(7, &mut budget), Err("history scan exceeds 32 MiB".to_owned()));
    assert_eq!(budget, 6);
    let mut big = usize::MAX;
    assert_eq!(charge(4 * 1024 * 1024 + 1, &mut big), Err("history source exceeds 4 MiB".to_owned()));
}

#[test]
fn history_needs_a_full_clone_at_the_root() {
    assert!(history_ready("false\n", "\n").is_ok());
    assert_eq!(history_ready("true\n", "").unwrap_err(), "contract history unavailable: shallow repository");
    assert_eq!(history_ready("false", "sub/\n").unwrap_err(), "contract history requires OpenWarrant at Git repository root");
}

fn auth(rev: u32, warrant: &str, authorized: bool) -> RetainedAuthorization {
    RetainedAuthorization {
        schema: "oh.war/authorization/v1".into(),
        warrant: warrant.into(),
        revision: rev,
        authorized,
        contract_digest: "d2".into(),
    }
}

fn contract(alias: &str, digest: &str, uuid: &str) -> RetainedContract {
    RetainedContract {
        api_version: "oh.war/v1".into(),
        kind: "work_authorization_record".into(),
        alias: alias.into(),
        uuid: uuid.into(),
        digest: digest.into(),
        same_coverage: true,
    }
}

#[test]
fn each_retained_record_is_held_to_its_warrant_and_digest() {
    assert!(matches!(authorization_step("W-1", 2, &auth(1, "W-1", true)), AuthorizationStep::Skip));
    assert!(matches!(authorization_step("W-1", 2, &auth(2, "W-1", true)), AuthorizationStep::ReadContract));
    match authorization_step("W-1", 2, &auth(2, "W-9", true)) {
        AuthorizationStep::Refuse(m) => assert_eq!(m, "retained authorization identity or state mismatch"),
        _ => panic!("refused"),
    }
    let f = contract_step("W-1", 2, "c1", "d2", &contract("W-1", "d2", "u"), None).unwrap().unwrap();
    assert_eq!((f.digest.as_str(), f.uuid.as_str(), f.commit.as_str()), ("d2", "u", "c1"));
    let kept = contract_step("W-1", 2, "c0", "d2", &contract("W-1", "d2", "u"), Some(f)).unwrap().unwrap();
    assert_eq!(kept.commit, "c1");
    assert_eq!(contract_step("W-1", 2, "c3", "d2", &contract("W-1", "d9", "u"), None).unwrap_err(), "retained contract digest mismatch at c3");
    assert_eq!(contract_step("W-1", 2, "c3", "d2", &contract("W-2", "d2", "u"), None).unwrap_err(), "retained contract IR identity or version mismatch");
    let first = Found { digest: "d2".into(), uuid: "u".into(), commit: "c1".into() };
    assert_eq!(contract_step("W-1", 2, "c0", "d2", &contract("W-1", "d2", "other"), Some(first)).unwrap_err(), "ambiguous contract:2: conflicting retained records");
    let found = Some(Found { digest: "d2".into(), uuid: "u".into(), commit: "c1".into() });
    assert_eq!(resolved_source(2, &found, "h").unwrap(), "contract:2 at c1, digest d2; record-bound comparison, not signature verification");
    assert_eq!(resolved_source(2, &None, "abc\n").unwrap_err(), "contract:2 unavailable in retained history of abc");
}
