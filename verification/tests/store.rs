use openwarrant::store::{
    bootstrap_refusal, guard, guard_for_operator, load_refusal, receipts_refusal, shape_refusal,
    store_full, Meta, Receipt, TransitionDigests,
};

fn dir(uid: u32, mode: u32) -> Meta {
    Meta { is_dir: true, is_symlink: false, uid, mode }
}

#[test]
fn relative_or_dotted_store_paths_are_refused() {
    let chain = vec![dir(1000, 0o700), dir(0, 0o755)];
    assert_eq!(
        guard(false, false, 1000, Some(2000), false, &chain, dir(1000, 0o700)),
        Some("authority-store-absolute-path-required".to_string())
    );
    assert_eq!(
        guard(true, true, 1000, Some(2000), true, &chain, dir(1000, 0o700)),
        Some("authority-store-absolute-path-required".to_string())
    );
}

#[test]
fn the_agent_account_never_holds_a_protected_store() {
    let chain = vec![dir(1000, 0o700), dir(0, 0o755)];
    assert_eq!(
        guard(true, false, 1000, Some(1000), false, &chain, dir(1000, 0o700)),
        Some("authority-store-separate-account-required".to_string())
    );
    assert_eq!(
        guard(true, false, 1000, None, false, &chain, dir(1000, 0o700)),
        Some("authority-store-separate-account-required".to_string())
    );
}

#[test]
fn a_private_operator_store_is_accepted() {
    let chain = vec![dir(1000, 0o700), dir(1000, 0o755), dir(0, 0o755)];
    assert_eq!(guard(true, false, 1000, Some(2000), false, &chain, dir(1000, 0o700)), None);
}

#[test]
fn a_symlinked_ancestor_is_refused_even_in_a_test_store() {
    let link = Meta { is_dir: false, is_symlink: true, uid: 1000, mode: 0o777 };
    let chain = vec![dir(1000, 0o700), link, dir(0, 0o755)];
    assert_eq!(
        guard(true, false, 1000, None, true, &chain, dir(1000, 0o700)),
        Some("authority-store-directory-required".to_string())
    );
}

#[test]
fn writable_or_foreign_ancestors_are_refused() {
    let writable = vec![dir(1000, 0o700), dir(0, 0o777)];
    assert_eq!(
        guard(true, false, 1000, Some(2000), false, &writable, dir(1000, 0o700)),
        Some("authority-store-unsafe-owner-or-mode".to_string())
    );
    let foreign = vec![dir(1000, 0o700), dir(3000, 0o755)];
    assert_eq!(
        guard(true, false, 1000, Some(2000), false, &foreign, dir(1000, 0o700)),
        Some("authority-store-unsafe-owner-or-mode".to_string())
    );
    let agents = vec![dir(1000, 0o700), dir(2000, 0o755)];
    assert_eq!(
        guard(true, false, 1000, Some(2000), false, &agents, dir(1000, 0o700)),
        Some("authority-store-unsafe-owner-or-mode".to_string())
    );
}

#[test]
fn a_shared_store_root_is_refused() {
    let chain = vec![dir(1000, 0o700), dir(0, 0o755)];
    assert_eq!(
        guard(true, false, 1000, Some(2000), false, &chain, dir(1000, 0o750)),
        Some("authority-store-private-owner-required".to_string())
    );
    assert_eq!(
        guard(true, false, 1000, Some(2000), false, &chain, dir(0, 0o700)),
        Some("authority-store-private-owner-required".to_string())
    );
}

#[test]
fn a_test_store_skips_ownership_checks() {
    let chain = vec![dir(4000, 0o777), dir(0, 0o755)];
    assert_eq!(guard(true, false, 1000, None, true, &chain, dir(4000, 0o777)), None);
}

#[test]
fn the_running_account_is_the_one_checked() {
    let chain = vec![dir(0, 0o755)];
    let (uid, verdict) = guard_for_operator(true, false, None, true, &chain, dir(0, 0o777));
    assert_eq!(verdict, guard(true, false, uid, None, true, &chain, dir(0, 0o777)));
    let (uid, verdict) = guard_for_operator(true, false, Some(u32::MAX), false, &chain, dir(0, 0o700));
    assert_eq!(verdict, guard(true, false, uid, Some(u32::MAX), false, &chain, dir(0, 0o700)));
}

fn transition(d: &str, prev: &str, next: &str, signers: &[&str]) -> TransitionDigests {
    TransitionDigests {
        digest: d.to_owned(),
        previous: prev.to_owned(),
        next: next.to_owned(),
        signers: signers.iter().map(|s| (*s).to_owned()).collect(),
    }
}

fn receipt(sequence: u64, d: &str, prev: &str, next: &str, signers: &[&str]) -> Receipt {
    Receipt {
        sequence,
        transition_digest: d.to_owned(),
        previous_head: prev.to_owned(),
        new_head: next.to_owned(),
        authenticated_signers: signers.iter().map(|s| (*s).to_owned()).collect(),
    }
}

#[test]
fn store_receipts_must_record_the_transition_they_name() {
    let ts = vec![transition("t1", "h0", "h1", &["alice"]), transition("t2", "h1", "h2", &["alice", "bob"])];
    assert_eq!(receipts_refusal(&ts, &vec![]), None);
    assert_eq!(
        receipts_refusal(&ts, &vec![receipt(1, "t1", "h0", "h1", &["alice"]), receipt(2, "t2", "h1", "h2", &["alice", "bob"])]),
        None
    );
    assert_eq!(
        receipts_refusal(&ts, &vec![receipt(0, "t1", "h0", "h1", &["alice"])]),
        Some("authority-receipt-sequence".to_owned())
    );
    assert_eq!(
        receipts_refusal(&ts, &vec![receipt(3, "t1", "h0", "h1", &["alice"])]),
        Some("authority-receipt-sequence".to_owned())
    );
    assert_eq!(
        receipts_refusal(&ts, &vec![receipt(2, "t2", "h1", "h2", &["bob"])]),
        Some("authority-receipt-subject".to_owned())
    );
    assert_eq!(
        receipts_refusal(&ts, &vec![receipt(1, "t1", "hX", "h1", &["alice"]), receipt(9, "t", "", "", &[])]),
        Some("authority-receipt-subject".to_owned())
    );
}

#[test]
fn store_snapshot_shape_and_mode_are_checked() {
    assert_eq!(shape_refusal("oh.war/authority-store/1", 3, 0), None);
    assert_eq!(shape_refusal("oh.war/authority-store/2", 3, 0), Some("authority-store-format".to_owned()));
    assert_eq!(shape_refusal("oh.war/authority-store/1", 4097, 0), Some("authority-store-format".to_owned()));
    assert_eq!(shape_refusal("oh.war/authority-store/1", 4096, 1), Some("authority-bootstrap-sequence".to_owned()));
    assert_eq!(load_refusal(false, true, true), Some("authority-store-noncanonical".to_owned()));
    assert_eq!(load_refusal(true, true, false), Some("authority-store-mode-mismatch".to_owned()));
    assert_eq!(load_refusal(true, false, false), None);
    assert!(store_full(4096, 10));
    assert!(store_full(0, 8_388_609));
    assert!(!store_full(4095, 8_388_608));
    assert_eq!(bootstrap_refusal(true, 0, "d", "d"), Some("authority-already-bootstrapped".to_owned()));
    assert_eq!(bootstrap_refusal(false, 1, "d", "d"), Some("authority-bootstrap-digest-or-sequence".to_owned()));
    assert_eq!(bootstrap_refusal(false, 0, "d", "e"), Some("authority-bootstrap-digest-or-sequence".to_owned()));
    assert_eq!(bootstrap_refusal(false, 0, "d", "d"), None);
}
