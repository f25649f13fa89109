use openwarrant::diagnostic::Severity;
use openwarrant::section_refs::{
    governing_value, latest_accepted, pinned_revision, section_ref_findings, section_ref_unparsed,
    SectionCitation, SectionsAt,
};

const F: &str = "w/amendments/a.yaml";
const V: &str = "sas://OW-SAS-31.2";

fn cite() -> SectionCitation {
    SectionCitation { namespace: "OW".into(), section: "31.2".into() }
}

fn at(ns: Option<&str>, digest: Option<&str>) -> Result<SectionsAt, String> {
    Ok(SectionsAt { namespace: ns.map(str::to_owned), digest: digest.map(str::to_owned) })
}

fn rows(v: &[openwarrant::diagnostic::Diagnostic]) -> Vec<(Severity, &str, Option<&str>, &str)> {
    v.iter().map(|d| (d.severity, d.rule.as_str(), d.file.as_deref(), d.message.as_str())).collect()
}

#[test]
fn a_section_at_the_latest_revision_passes_twice() {
    let r = section_ref_findings("W-1", F, "AM-1", V, &cite(), "1.1", &at(Some("OW"), Some("d1")), &Some("1.1".into()), &Ok(None));
    assert_eq!(
        rows(&r),
        vec![
            (Severity::Pass, "sas.section-ref", None, "W-1: sas://OW-SAS-31.2 names a section of SAS 1.1"),
            (Severity::Pass, "sas.section-current", None, "W-1: sas://OW-SAS-31.2 is cited at SAS 1.1, the latest accepted revision"),
        ]
    );
}

#[test]
fn a_section_is_compared_with_the_latest_accepted_revision() {
    let same = section_ref_findings("W-1", F, "AM-1", V, &cite(), "1.0", &at(None, Some("d1")), &Some("1.1".into()), &Ok(Some("d1".into())));
    assert_eq!(same[1].message, "W-1: sas://OW-SAS-31.2 is unchanged between SAS 1.0 and SAS 1.1");
    let moved = section_ref_findings("W-1", F, "AM-1", V, &cite(), "1.0", &at(None, Some("d1")), &Some("1.1".into()), &Ok(Some("d2".into())));
    assert_eq!(
        rows(&moved)[1],
        (
            Severity::Warn,
            "sas.section-current",
            Some(F),
            "W-1: sas://OW-SAS-31.2 changed between SAS 1.0, which the Warrant is pinned to, and SAS 1.1, the latest accepted revision; what the amendment relied on is not what the SAS now says"
        )
    );
    let gone = section_ref_findings("W-1", F, "AM-1", V, &cite(), "1.0", &at(None, Some("d1")), &Some("1.1".into()), &Ok(None));
    assert_eq!(gone[1].message, "W-1: sas://OW-SAS-31.2 exists at SAS 1.0, which the Warrant is pinned to, and not at SAS 1.1, the latest accepted revision");
    let unread = section_ref_findings("W-1", F, "AM-1", V, &cite(), "1.0", &at(None, Some("d1")), &Some("1.1".into()), &Err("io".into()));
    assert_eq!(rows(&unread)[1], (Severity::Unknown, "sas.section-current", Some(F), "W-1: sas://OW-SAS-31.2 at SAS 1.0 cannot be compared with SAS 1.1: io"));
    let none = section_ref_findings("W-1", F, "AM-1", V, &cite(), "1.0", &at(None, Some("d1")), &None, &Ok(None));
    assert_eq!(none[1].message, "W-1: sas://OW-SAS-31.2 — no SAS revision is accepted, so there is nothing to compare SAS 1.0 with");
}

#[test]
fn a_wrong_namespace_or_missing_section_is_an_error() {
    let r = section_ref_findings("W-1", F, "AM-1", V, &cite(), "1.0", &at(Some("XY"), Some("d1")), &None, &Ok(None));
    assert_eq!(
        rows(&r),
        vec![(Severity::Error, "sas.section-ref", Some(F), "W-1: amendment AM-1 cites sas://OW-SAS-31.2, but SAS 1.0 is namespace XY; a section is cited as sas://XY-SAS-31.2")]
    );
    let r = section_ref_findings("W-1", F, "AM-1", V, &cite(), "1.0", &at(Some("OW"), None), &None, &Ok(None));
    assert_eq!(r[0].message, "W-1: amendment AM-1 cites sas://OW-SAS-31.2, and SAS 1.0 has no subsection 31.2. A citation names a section of the revision the Warrant is pinned to (docs/sas/generated/SECTIONS.md lists the revision in force)");
    let whole = SectionCitation { namespace: "OW".into(), section: "31".into() };
    let r = section_ref_findings("W-1", F, "AM-1", "sas://OW-SAS-31", &whole, "1.0", &at(None, None), &None, &Ok(None));
    assert!(r[0].message.contains("has no section 31."));
}

#[test]
fn an_unreadable_pin_is_unknown_under_both_rules() {
    let r = section_ref_findings("W-1", F, "AM-1", V, &cite(), "1.0", &Err("missing".into()), &None, &Ok(None));
    let m = "W-1: amendment AM-1 cites sas://OW-SAS-31.2; SAS 1.0, which the Warrant is pinned to, cannot be read: missing";
    assert_eq!(rows(&r), vec![(Severity::Unknown, "sas.section-ref", Some(F), m), (Severity::Unknown, "sas.section-current", Some(F), m)]);
    let d = section_ref_unparsed("W-1", F, "AM-1", "not a section");
    assert_eq!(d.message, "W-1: amendment AM-1 — not a section");
}

#[test]
fn the_pin_and_the_latest_revision_are_chosen() {
    let versions = vec!["1.0".to_string(), "1.1".to_string()];
    assert_eq!(pinned_revision(&Some("1.1".into()), &Some("1.0".into()), &None, &versions).as_deref(), Some("1.1"));
    assert_eq!(pinned_revision(&None, &Some("1.0".into()), &Some("1.1".into()), &versions).as_deref(), Some("1.0"));
    assert_eq!(pinned_revision(&None, &None, &Some("1.1".into()), &versions).as_deref(), Some("1.1"));
    assert_eq!(pinned_revision(&Some("2.0".into()), &Some("1.0".into()), &None, &versions), None);
    let revs = vec![("1.0".to_string(), true), ("1.2".to_string(), false), ("1.10".to_string(), true), ("1.1".to_string(), true)];
    assert_eq!(latest_accepted(&revs).as_deref(), Some("1.10"));
    assert_eq!(latest_accepted(&vec![("1.0".to_string(), false)]), None);
    assert_eq!(governing_value("  sas://OW-SAS-3 \n"), "sas://OW-SAS-3");
}
