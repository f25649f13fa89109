use openwarrant::diagnostic::{Diagnostic, Severity};
use openwarrant::ownership::ownership_findings;
use openwarrant::pins::{deliverable_digests, pin_finding, ChainHead, NewerOwner, Pin, PinState};

const ABC: &str = "ba7816bf8f01cfea414140de5dae2223b00361a396177a9cb410ff61f20015ad";
const FILE: &str = "warrants/w/deliverables.toml";

fn pin(digest: Option<&str>, chain: ChainHead, target: Result<&[u8], &str>) -> Pin {
    Pin {
        id: "D1".to_owned(),
        target_ref: "out/report.md".to_owned(),
        content_digest: digest.map(str::to_owned),
        chain,
        target: target.map(|b| b.to_vec()).map_err(str::to_owned),
        newer: None,
    }
}

fn head(h: &str, n: usize) -> ChainHead {
    ChainHead::Head { head: h.to_owned(), corrections: n }
}

fn one(d: &Option<Diagnostic>) -> (Severity, String, Option<String>, String) {
    let d = d.as_ref().expect("a finding");
    (d.severity, d.rule.clone(), d.file.clone(), d.message.clone())
}

#[test]
fn matching_bytes_hold_without_a_finding() {
    let recorded = format!("sha256:{ABC}");
    let p = pin(Some(&recorded), head(&recorded, 0), Ok(b"abc"));
    let (state, finding) = pin_finding("W-1", FILE, true, &p);
    assert_eq!(state, PinState::Holds);
    assert!(finding.is_none());
    let all = deliverable_digests("W-1", FILE, true, &vec![p]);
    assert_eq!(all.len(), 1);
    assert_eq!(all[0].rule, "deliverable.digests");
    assert_eq!(all[0].severity, Severity::Pass);
    assert_eq!(all[0].message, "W-1: 1 content-addressed deliverable(s) match their bytes");
}

#[test]
fn a_bound_pin_that_moved_is_drift() {
    let p = pin(Some("sha256:00"), head("sha256:00", 0), Ok(b"abc"));
    let (state, finding) = pin_finding("W-1", FILE, true, &p);
    assert_eq!(state, PinState::Drifted);
    let (sev, rule, file, msg) = one(&finding);
    assert_eq!(sev, Severity::Error);
    assert_eq!(rule, "deliverable.digest-drift");
    assert_eq!(file.as_deref(), Some(FILE));
    assert_eq!(
        msg,
        format!(
            "W-1: D1 records sha256:00 for out/report.md but the file is now sha256:{ABC}. A resolution binds this manifest and no later authorized Warrant declares out/report.md, so the artifact moved outside any authorization — restore it; declare it as a deliverable of a Warrant and have that Warrant authorized (OW-ADR-0021); or record why it moved: `war correct W-1 D1` (OW-WAR-0064)"
        )
    );
    let all = deliverable_digests("W-1", FILE, true, &vec![p]);
    assert_eq!(all.len(), 1);
}

#[test]
fn an_unbound_pin_that_moved_is_only_stale() {
    let p = pin(Some("sha256:00"), head("sha256:00", 0), Ok(b"abc"));
    let (state, finding) = pin_finding("W-1", FILE, false, &p);
    assert_eq!(state, PinState::Stale);
    let (sev, rule, _, msg) = one(&finding);
    assert_eq!(sev, Severity::Warn);
    assert_eq!(rule, "deliverable.pin-stale");
    assert_eq!(
        msg,
        format!(
            "W-1: D1 records sha256:00 for out/report.md and the file is now sha256:{ABC}. No resolution binds this manifest, so the pin is out of date rather than violated — `war pins --refresh W-1`"
        )
    );
    let all = deliverable_digests("W-1", FILE, false, &vec![p]);
    assert_eq!(all.len(), 2);
    assert_eq!(all[1].rule, "deliverable.digests");
}

#[test]
fn a_correction_that_matches_is_counted() {
    let now = format!("sha256:{ABC}");
    let p = pin(Some("sha256:00"), head(&now, 2), Ok(b"abc"));
    let (state, finding) = pin_finding("W-1", FILE, true, &p);
    assert_eq!(state, PinState::Corrected);
    let (sev, rule, file, msg) = one(&finding);
    assert_eq!((sev, rule.as_str(), file), (Severity::Pass, "deliverable.corrected", None));
    assert_eq!(msg, format!("W-1: D1 corrected 2 time(s); sha256:00 superseded, now {now}"));
    let all = deliverable_digests("W-1", FILE, true, &vec![p]);
    assert_eq!(
        all[1].message,
        "W-1: 1 content-addressed deliverable(s) match their bytes (1 through an authorized correction)"
    );
}

#[test]
fn a_correction_that_corrects_nothing_is_refused() {
    let p = pin(Some("sha256:00"), head("sha256:11", 1), Ok(b"abc"));
    let (state, finding) = pin_finding("W-1", FILE, false, &p);
    assert_eq!(state, PinState::Drifted);
    let (_, rule, _, msg) = one(&finding);
    assert_eq!(rule, "correction.new-digest-mismatch");
    assert_eq!(
        msg,
        format!("W-1: D1 — the latest correction records sha256:11 but the file is sha256:{ABC}; it corrects nothing. A further change is a further correction, `war correct W-1 D1`")
    );
}

#[test]
fn a_later_owner_makes_a_bound_pin_historical() {
    let mut p = pin(Some("sha256:00"), head("sha256:00", 0), Ok(b"abc"));
    p.newer = Some(NewerOwner {
        alias: "W-2".to_owned(),
        deliverable_id: "D9".to_owned(),
        authorized_at: "2025-01-01T00:00:00Z".to_owned(),
    });
    let (state, finding) = pin_finding("W-1", FILE, true, &p);
    assert_eq!(state, PinState::Historical);
    let (sev, rule, _, msg) = one(&finding);
    assert_eq!((sev, rule.as_str()), (Severity::Pass, "deliverable.superseded-by"));
    assert_eq!(
        msg,
        "W-1: D1 pinned out/report.md at sha256:00; W-2/D9 (authorized 2025-01-01T00:00:00Z) now governs that path, so this pin is historical and the bytes are that Warrant's to answer for (OW-ADR-0021) — `war pins --history out/report.md`"
    );
    let all = deliverable_digests("W-1", FILE, true, &vec![p]);
    assert_eq!(
        all[1].message,
        "W-1: 1 content-addressed deliverable(s) match their bytes (1 historical, governed by a later Warrant)"
    );
    let mut q = pin(Some("sha256:00"), head("sha256:00", 0), Ok(b"abc"));
    q.newer = Some(NewerOwner { alias: "W-2".into(), deliverable_id: "D9".into(), authorized_at: "t".into() });
    assert_eq!(pin_finding("W-1", FILE, false, &q).0, PinState::Stale);
}

#[test]
fn records_that_cannot_be_checked_are_drift() {
    let p = pin(None, head("", 0), Ok(b""));
    let (_, rule, _, msg) = one(&pin_finding("W-1", FILE, false, &p).1);
    assert_eq!(rule, "deliverable.no-provenance");
    assert_eq!(msg, "W-1: D1 declares content addressing and carries no provenance, so there is no digest to check");
    let p = pin(Some("md5:abc"), head("", 0), Ok(b""));
    let (state, finding) = pin_finding("W-1", FILE, false, &p);
    assert_eq!(state, PinState::Drifted);
    let (_, rule, _, msg) = one(&finding);
    assert_eq!(rule, "deliverable.unsupported-digest");
    assert_eq!(
        msg,
        format!(
            "W-1: D1 records \"md5:abc\", and only sha256: is supported. This is not{}drift — the record cannot be checked at all",
            " ".repeat(22)
        )
    );
    let p = pin(Some("sha256:00"), ChainHead::Gap { expected: 2, found: 3 }, Ok(b""));
    let (_, rule, _, msg) = one(&pin_finding("W-1", FILE, false, &p).1);
    assert_eq!(rule, "correction.sequence-gap");
    assert_eq!(msg, "W-1: D1 corrections are numbered 1..n without gaps; expected 2, found 3");
    let p = pin(Some("sha256:00"), ChainHead::SupersededNeverDelivered { why: "why".into() }, Ok(b""));
    let (_, rule, _, msg) = one(&pin_finding("W-1", FILE, false, &p).1);
    assert_eq!(rule, "correction.superseded-never-delivered");
    assert_eq!(msg, "W-1: D1 — why");
}

#[test]
fn an_unreadable_target_is_not_a_verified_one() {
    let p = pin(Some("sha256:00"), head("sha256:00", 0), Err("No such file"));
    let (state, finding) = pin_finding("W-1", FILE, true, &p);
    assert_eq!(state, PinState::Drifted);
    let (sev, rule, _, msg) = one(&finding);
    assert_eq!((sev, rule.as_str()), (Severity::Error, "deliverable.target-unreadable"));
    assert_eq!(msg, "W-1: D1 names out/report.md and it cannot be read: No such file. An unreadable artifact is not a verified one");
    let (state, finding) = pin_finding("W-1", FILE, false, &p);
    assert_eq!(state, PinState::Stale);
    assert_eq!(one(&finding).0, Severity::Warn);
}

#[test]
fn no_content_addressed_deliverables_report_nothing() {
    assert!(deliverable_digests("W-1", FILE, true, &Vec::new()).is_empty());
}

fn claims(v: &[(&str, &str)]) -> Vec<(String, String)> {
    v.iter().map(|(a, b)| (a.to_string(), b.to_string())).collect()
}

#[test]
fn the_signed_set_is_the_owned_set() {
    let declared = claims(&[("D2", "b.md"), ("D1", "a.md"), ("D1", "a.md")]);
    let owned = claims(&[("D1", "a.md"), ("D2", "b.md")]);
    let r = ownership_findings("W-1", FILE, &declared, &owned, false);
    assert_eq!(r.len(), 1);
    assert_eq!(r[0].rule, "deliverable.owned");
    assert_eq!(r[0].severity, Severity::Pass);
    assert_eq!(r[0].message, "W-1: the 2 deliverable(s) declared are the 2 the authorization signed for");
}

#[test]
fn added_and_removed_claims_are_reported_in_order() {
    let declared = claims(&[("D3", "c.md"), ("D1", "a.md"), ("D0", "z.md")]);
    let owned = claims(&[("D2", "b.md"), ("D1", "a.md"), ("D1", "0.md")]);
    let r = ownership_findings("W-1", FILE, &declared, &owned, false);
    let rules: Vec<(&str, &str)> = r.iter().map(|d| (d.rule.as_str(), d.message.as_str())).collect();
    assert_eq!(rules.len(), 4);
    assert_eq!(rules[0].0, "deliverable.undeclared-at-authorization");
    assert_eq!(
        rules[0].1,
        "W-1: D0 → z.md is declared now but was not in the set the authorization signed for, so W-1 does not own it and no other Warrant's pin on it becomes historical. Ownership widens only through an amendment and a re-authorization (§31, OW-ADR-0021)"
    );
    assert!(rules[1].1.starts_with("W-1: D3 → c.md is declared now"));
    assert_eq!(rules[2].0, "deliverable.declared-then-removed");
    assert_eq!(
        rules[2].1,
        "W-1: the authorization signed for D1 → 0.md and deliverables.toml no longer declares it. A signed claim on a path cannot be withdrawn by deleting the line — restore the declaration, or amend and re-authorize (§31, OW-ADR-0021)"
    );
    assert!(rules[3].1.starts_with("W-1: the authorization signed for D2 → b.md"));
    assert_eq!(r[2].severity, Severity::Error);
    assert_eq!(r[0].severity, Severity::Warn);
    assert_eq!(r[0].file.as_deref(), Some(FILE));
}

#[test]
fn no_signed_set_or_a_malformed_file_compares_nothing() {
    let declared = claims(&[("D1", "a.md")]);
    assert!(ownership_findings("W-1", FILE, &declared, &Vec::new(), false).is_empty());
    assert!(ownership_findings("W-1", FILE, &declared, &claims(&[("D2", "b.md")]), true).is_empty());
}
