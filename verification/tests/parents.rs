use openwarrant::diagnostic::Severity;
use openwarrant::parents::{
    find_parent, parent_findings, ParentAuthorization, ParentCitation, ParentRecord,
};

const F: &str = "w/manifest.toml";

fn cite(revision: Option<u32>, digest: Option<&str>) -> ParentCitation {
    ParentCitation { reference: "war://u-1".into(), revision, digest: digest.map(str::to_owned) }
}

fn parent(auth: ParentAuthorization, current: Option<&str>) -> Option<ParentRecord> {
    Some(ParentRecord { alias: "P-1".into(), current: current.map(str::to_owned), authorization: auth })
}

fn authorized() -> ParentAuthorization {
    ParentAuthorization::Authorized {
        latest: 3,
        latest_digest: "cc".into(),
        earlier: vec![Ok("aa".into()), Ok("bb".into())],
    }
}

fn rows(v: &[openwarrant::diagnostic::Diagnostic]) -> Vec<(Severity, String, Option<String>, String)> {
    v.iter().map(|d| (d.severity, d.rule.clone(), d.file.clone(), d.message.clone())).collect()
}

#[test]
fn a_parent_outside_the_repository_is_unknown() {
    let r = parent_findings(F, "C-1", false, &cite(Some(1), Some("sha256:aa")), &None);
    assert_eq!(
        rows(&r),
        vec![(
            Severity::Unknown,
            "relations.parent-digest".into(),
            Some(F.into()),
            "C-1: parent war://u-1 is not in this repository, so its contract digest cannot be computed; cross-repository resolution needs federation".into()
        )]
    );
}

#[test]
fn a_citation_without_a_digest_offers_one() {
    let r = parent_findings(F, "C-1", false, &cite(Some(1), None), &parent(ParentAuthorization::Draft, Some("dd")));
    assert_eq!(
        r[0].message,
        "C-1: parent war://u-1 cites a revision but no contract_digest (§20.2). its current digest is sha256:dd — add `contract_digest = \"sha256:dd\"` to pin it."
    );
    let r = parent_findings(F, "C-1", false, &cite(Some(1), None), &parent(ParentAuthorization::Draft, None));
    assert_eq!(
        r[0].message,
        "C-1: parent war://u-1 cites a revision but no contract_digest (§20.2). its contract does not compile, so no digest can be offered."
    );
}

#[test]
fn a_draft_parent_has_only_revision_one() {
    let r = parent_findings(F, "C-1", false, &cite(Some(2), Some("sha256:dd")), &parent(ParentAuthorization::Draft, Some("dd")));
    assert_eq!(
        rows(&r)[0],
        (
            Severity::Error,
            "relations.parent-revision".into(),
            Some(F.into()),
            "C-1: parent P-1 is cited at revision 2, which does not exist: P-1 has no authorized revision, so a citation of it can only be revision 1".into()
        )
    );
    let r = parent_findings(F, "C-1", false, &cite(Some(1), Some("sha256:dd")), &parent(ParentAuthorization::Draft, Some("dd")));
    assert_eq!(rows(&r), vec![(Severity::Pass, "relations.parent-digest".into(), None, "C-1: parent war://u-1 contract digest matches".into())]);
    let r = parent_findings(F, "C-1", false, &cite(None, Some("dd")), &parent(ParentAuthorization::Draft, Some("ee")));
    assert_eq!(r[0].severity, Severity::Error);
    assert_eq!(r[0].rule, "relations.parent-digest");
}

#[test]
fn unreadable_or_unauthorized_records_are_unknown() {
    let r = parent_findings(F, "C-1", false, &cite(Some(2), Some("aa")), &parent(ParentAuthorization::Unreadable { why: "bad toml".into() }, None));
    assert_eq!(r[0].message, "C-1: parent P-1's authorization record cannot be read, so revision 2 cannot be looked up: bad toml");
    assert_eq!(r[0].severity, Severity::Unknown);
    let r = parent_findings(F, "C-1", false, &cite(Some(2), Some("aa")), &parent(ParentAuthorization::NotAuthorized, None));
    assert_eq!(r[0].message, "C-1: parent P-1's authorization record is not in the authorized state, so its revisions cannot be read from it");
}

#[test]
fn a_revision_the_parent_never_had_is_an_error() {
    let r = parent_findings(F, "C-1", false, &cite(Some(4), Some("aa")), &parent(authorized(), Some("cc")));
    assert_eq!(
        rows(&r),
        vec![(
            Severity::Error,
            "relations.parent-revision".into(),
            Some(F.into()),
            "C-1: parent P-1 is cited at revision 4, which does not exist: its latest authorized revision is 3".into()
        )]
    );
}

#[test]
fn an_exact_older_citation_passes_and_notes_the_move() {
    let r = parent_findings(F, "C-1", false, &cite(Some(2), Some("sha256:bb")), &parent(authorized(), Some("cc")));
    assert_eq!(
        rows(&r),
        vec![
            (Severity::Pass, "relations.parent-revision".into(), None, "C-1: parent P-1 is cited at revision 2, at that revision's digest".into()),
            (
                Severity::Warn,
                "relations.parent-moved".into(),
                Some(F.into()),
                "C-1: parent P-1 has moved from revision 2 to revision 3; the citation of revision 2 is exact and stays sound. Re-citing revision 3 is an amendment of C-1".into()
            ),
        ]
    );
    let r = parent_findings(F, "C-1", false, &cite(Some(3), Some("cc")), &parent(authorized(), Some("cc")));
    assert_eq!(r.len(), 2);
    assert_eq!(r[1].message, "C-1: parent war://u-1 contract digest matches");
}

#[test]
fn another_revisions_digest_is_named_as_that_revision() {
    let r = parent_findings(F, "C-1", false, &cite(Some(3), Some("aa")), &parent(authorized(), Some("cc")));
    assert_eq!(
        rows(&r),
        vec![(
            Severity::Error,
            "relations.parent-revision".into(),
            Some(F.into()),
            "C-1: parent P-1 is cited as revision 3 at sha256:aa, which is the digest of revision 1; cite revision 1, or revision 3 at its own digest — `war new --parent P-1` writes the latest exactly".into()
        )]
    );
    let r = parent_findings(F, "C-1", true, &cite(Some(1), Some("cc")), &parent(authorized(), Some("cc")));
    assert_eq!(
        r[0].message,
        "C-1: parent P-1 is cited as revision 1 at sha256:cc, which is the digest of revision 3; C-1's contract is authorized, so the signed record stands as it is; making the number and the digest agree is an amendment of C-1"
    );
    assert_eq!(r[0].severity, Severity::Warn);
    assert_eq!(r.len(), 2);
    assert_eq!(r[1].rule, "relations.parent-digest");
}

#[test]
fn a_digest_of_no_revision_is_an_error_unless_history_is_missing() {
    let r = parent_findings(F, "C-1", false, &cite(Some(3), Some("zz")), &parent(authorized(), Some("cc")));
    assert_eq!(r[0].message, "C-1: parent P-1 is cited as revision 3 at sha256:zz, which is the digest of no authorized revision of it; revision 3 is sha256:cc");
    let gappy = ParentAuthorization::Authorized {
        latest: 3,
        latest_digest: "cc".into(),
        earlier: vec![Ok("aa".into()), Err("shallow clone".into())],
    };
    let r = parent_findings(F, "C-1", false, &cite(Some(3), Some("zz")), &parent(gappy, Some("cc")));
    assert_eq!(r[0].severity, Severity::Error);
    assert_eq!(r[0].message, "C-1: parent P-1 is cited as revision 3 at sha256:zz, which is not revision 3's digest sha256:cc; whether it is an earlier revision's could not be read (shallow clone)");
    let gappy = ParentAuthorization::Authorized {
        latest: 3,
        latest_digest: "cc".into(),
        earlier: vec![Ok("aa".into()), Err("shallow clone".into())],
    };
    let r = parent_findings(F, "C-1", true, &cite(Some(3), Some("zz")), &parent(gappy, Some("cc")));
    assert_eq!(r[0].severity, Severity::Unknown);
    assert_eq!(r[0].message, "C-1: parent P-1 is cited as revision 3 at sha256:zz, which is not revision 3's digest; which revision it names needs retained history that cannot be read: shallow clone");
    let gappy = ParentAuthorization::Authorized {
        latest: 3,
        latest_digest: "cc".into(),
        earlier: vec![Ok("aa".into()), Err("shallow clone".into())],
    };
    let r = parent_findings(F, "C-1", false, &cite(Some(2), Some("bb")), &parent(gappy, Some("cc")));
    assert_eq!(r[0].message, "C-1: parent P-1 is cited at revision 2, whose digest only retained history holds, and it cannot be read: shallow clone. Neither pass nor error — run `war check` in a full clone");
}

#[test]
fn parents_are_found_by_uuid() {
    let uuids = vec!["u-0".to_string(), "u-1".to_string()];
    assert_eq!(find_parent("war://u-1", &uuids), Some(1));
    assert_eq!(find_parent("u-0", &uuids), Some(0));
    assert_eq!(find_parent("war://u-9", &uuids), None);
}
