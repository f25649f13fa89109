use openwarrant::corpus_rules::independence_findings;
use openwarrant::authority_check::Verdict;
use openwarrant::corpus_rules::{
    acceptance_finding, adr_findings, corpus_empty, cycle_findings, drift_compile_error,
    drift_finding, independence_finding, independence_undeclared, level_counts,
    sas_document_finding, sas_unrecorded, scope_notes, stray_temp_finding, undisposed_note, SasPin,
};
use openwarrant::diagnostic::{Diagnostic, Severity};

const ABC: &str = "ba7816bf8f01cfea414140de5dae2223b00361a396177a9cb410ff61f20015ad";

fn row(d: &Diagnostic) -> (Severity, &str, Option<&str>, &str) {
    (d.severity, d.rule.as_str(), d.file.as_deref(), d.message.as_str())
}

fn pin(v: &str, state: &str, sha: &str) -> SasPin {
    SasPin { version: v.into(), state: state.into(), sha256: sha.into() }
}

#[test]
fn the_sas_document_is_held_to_its_recorded_digest() {
    let p = pin("1.1", "accepted", ABC);
    let d = sas_document_finding("docs/sas/SAS.md", &p, &vec![], b"abc");
    assert_eq!(row(&d), (Severity::Pass, "sas.pinned", None, "docs/sas/SAS.md matches revision 1.1 (accepted), sha256:ba7816bf8f01"));
    let old = pin("1.0", "accepted", "00000000000000000000");
    let proposed = pin("1.2", "proposed", ABC);
    let d = sas_document_finding("docs/sas/SAS.md", &old, &vec![old_clone(&old), proposed], b"abc");
    assert_eq!(
        row(&d),
        (
            Severity::Warn,
            "sas.proposed-unaccepted",
            Some("docs/sas/SAS.md"),
            "the document is revision 1.2 (proposed), sha256:ba7816bf8f01; the accepted revision 1.0 remains normative until `war sign 1.2` accepts it"
        )
    );
    let d = sas_document_finding("docs/sas/SAS.md", &old, &vec![], b"abc");
    assert_eq!(d.rule, "sas.digest-drift");
    assert_eq!(
        d.message,
        format!("the document is sha256:{ABC} but revision 1.0 (accepted) records sha256:00000000000000000000. §101.6: the accepted revision is normative and mirrors state its exact digest. Either restore the bytes or propose a new revision — an edited document under an unchanged record is the failure this check exists for")
    );
    let u = sas_unrecorded("docs/sas/SAS.md");
    assert_eq!(u.message, "no SAS revision is recorded; the document is pinned by prose only. `war sas propose <version>` records one");
}

fn old_clone(p: &SasPin) -> SasPin {
    pin(&p.version, &p.state, &p.sha256)
}

#[test]
fn an_unsigned_acceptance_fails_only_for_the_revision_in_force() {
    let signed = Verdict::Signed { principal: "ada".into(), response: "SAS-1.1.toml".into() };
    let d = acceptance_finding("1.1", &Some("1.1".into()), &signed);
    assert_eq!(row(&d), (Severity::Pass, "authority.signed", None, "SAS-1.1: signed by ada over SAS-1.1.toml"));
    let unsigned = Verdict::Unsigned { why: "no signature".into() };
    let d = acceptance_finding("1.1", &Some("1.1".into()), &unsigned);
    assert_eq!(row(&d), (Severity::Error, "authority.unsigned", Some("docs/sas/revisions/1.1.toml"), "SAS-1.1: no signature"));
    let d = acceptance_finding("1.0", &Some("1.1".into()), &unsigned);
    assert_eq!(row(&d), (Severity::Warn, "authority.unsigned", Some("docs/sas/revisions/1.0.toml"), "SAS-1.0: superseded by 1.1 and normative for nothing; no signature"));
    let d = acceptance_finding("1.0", &None, &unsigned);
    assert_eq!(d.message, "SAS-1.0: superseded by no accepted revision and normative for nothing; no signature");
}

#[test]
fn projections_are_compared_with_a_fresh_compilation() {
    let same = drift_finding("generated", "w/CURRENT.md", &Some("CURRENT.md".into()), "x", &Some("x".into()), true).unwrap();
    assert_eq!(row(&same), (Severity::Pass, "generated.drift", None, "CURRENT.md matches a fresh compilation"));
    let edited = drift_finding("generated", "w/CURRENT.md", &Some("CURRENT.md".into()), "x", &Some("y".into()), true).unwrap();
    assert_eq!(row(&edited), (Severity::Error, "generated.drift", Some("w/CURRENT.md"), "the committed CURRENT.md differs from a fresh compilation; it was edited by hand or its sources changed without recompiling"));
    let missing = drift_finding("warrant-overview", "o.md", &None, "x", &None, true).unwrap();
    assert_eq!(row(&missing), (Severity::Error, "warrant-overview.missing", Some("o.md"), "overview is missing and this repository commits generated views; run `war compile`"));
    assert!(drift_finding("warrant-overview", "o.md", &None, "x", &None, false).is_none());
    let d = drift_compile_error("sas-normative", "docs/warrants", "boom");
    assert_eq!(row(&d), (Severity::Error, "sas-normative.compile", Some("docs/warrants"), "boom"));
}

#[test]
fn stray_temps_and_an_empty_corpus_warn() {
    let d = stray_temp_finding("docs/.a.toml.1.0001.war-tmp", "docs/a.toml");
    assert_eq!(
        row(&d),
        (
            Severity::Warn,
            "storage.stray-temp",
            Some("docs/.a.toml.1.0001.war-tmp"),
            "docs/.a.toml.1.0001.war-tmp is a temp file left by a write that stopped before its rename; it was meant to replace docs/a.toml, which is whole as it stands (the previous bytes, or absent). Nothing reads the temp file. Remove it once you know which act stopped"
        )
    );
    assert_eq!(row(&corpus_empty("docs/warrants")), (Severity::Warn, "corpus.empty", Some("docs/warrants"), "no Warrants found; nothing to check"));
}

#[test]
fn independence_is_reported_once_per_level() {
    let levels: Vec<String> = ["standard", "high", "standard"].iter().map(|s| s.to_string()).collect();
    assert_eq!(level_counts(&levels), vec![("high".to_string(), 1), ("standard".to_string(), 2)]);
    let d = independence_finding("openwarrant.toml", "standard", 2, &Ok(()));
    assert_eq!(row(&d), (Severity::Pass, "independence.sufficient", None, "2 standard Warrant(s): declared independence meets §46.3's minimum"));
    let d = independence_finding("openwarrant.toml", "high", 1, &Err("high needs two independent verifiers".into()));
    assert_eq!(row(&d), (Severity::Warn, "independence.insufficient", Some("openwarrant.toml"), "1 high Warrant(s): high needs two independent verifiers"));
    assert_eq!(independence_undeclared("openwarrant.toml").rule, "independence.undeclared");
}

#[test]
fn parent_cycles_and_adrs() {
    let r = cycle_findings("docs/warrants", &vec![], 3);
    assert_eq!(row(&r[0]), (Severity::Pass, "composition.acyclic", None, "parent graph is acyclic across 3 Warrant(s)"));
    let cyc = vec![vec!["A".to_string(), "B".to_string(), "A".to_string()]];
    let r = cycle_findings("docs/warrants", &cyc, 3);
    assert_eq!(row(&r[0]), (Severity::Error, "composition.cycle", Some("docs/warrants"), "parent cycle: A → B → A"));
    let r = adr_findings(&vec![], 2);
    assert_eq!(row(&r[0]), (Severity::Pass, "adr.parsed", None, "2 ADR(s) parsed"));
    let r = adr_findings(&vec![("docs/adr/1.md".to_string(), "no status".to_string())], 2);
    assert_eq!(r.len(), 1);
    assert_eq!(row(&r[0]), (Severity::Error, "adr.malformed", Some("docs/adr/1.md"), "no status"));
    assert!(adr_findings(&vec![], 0).is_empty());
}

#[test]
fn the_notes_say_what_is_not_asked() {
    let sp = " ".repeat(14);
    assert_eq!(
        undisposed_note(2, 5).unwrap(),
        format!("2 of 5 Warrant(s) have no disposed{sp}obligations — §38.6 yields no resolution verdict for them, which is the{sp}expected state of work that has not been assessed")
    );
    assert!(undisposed_note(0, 5).is_none());
    assert_eq!(scope_notes(true).len(), 4);
    let n = scope_notes(false);
    assert_eq!(n.len(), 5);
    assert_eq!(n[4], "generated-view drift — pass --generated to compare committed projections");
    assert_eq!(n[2], "bound-atom resolution — `ref =` atoms cannot be fetched offline");
}

#[test]
fn independence_is_reported_once_per_level_or_once_undeclared() {
    let counts = vec![("high".to_owned(), 2usize), ("low".to_owned(), 1usize)];
    let meets = vec![Err("requires separate_role".to_owned()), Ok(())];
    let ds = independence_findings("openwarrant.toml", true, &counts, &meets);
    let got: Vec<(&str, &str)> = ds.iter().map(|d| (d.rule.as_str(), d.message.as_str())).collect();
    assert_eq!(
        got,
        vec![
            ("independence.insufficient", "2 high Warrant(s): requires separate_role"),
            ("independence.sufficient", "1 low Warrant(s): declared independence meets §46.3's minimum"),
        ]
    );
    let none = independence_findings("openwarrant.toml", false, &counts, &vec![]);
    assert_eq!(none.len(), 1);
    assert_eq!(none[0].rule, "independence.undeclared");
}
