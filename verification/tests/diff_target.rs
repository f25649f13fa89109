use openwarrant::diagnostic::Severity;
use openwarrant::diff_target::{changes_note, diff_findings, digest_note, is_contract_input, sources_note, Change};

fn ch(p: &str, a: &str, b: &str) -> Change {
    Change { path: p.into(), from: a.into(), to: b.into() }
}

#[test]
fn digest_inputs_are_the_contract_roots() {
    assert!(is_contract_input("identity"));
    assert!(is_contract_input("identity.uuid"));
    assert!(is_contract_input("relations.parents[0]"));
    assert!(!is_contract_input("identityx"));
    assert!(!is_contract_input("generated.title"));
}

#[test]
fn a_comparison_reports_each_change() {
    let cs = vec![ch("identity.title", "\"a\"", "\"b\""), ch("notes", "1", "2")];
    let r = diff_findings("W-1", "new.json", &cs, true);
    let rows: Vec<(Severity, &str, &str)> = r.iter().map(|d| (d.severity, d.rule.as_str(), d.message.as_str())).collect();
    assert_eq!(
        rows,
        vec![
            (Severity::Warn, "diff.contract-input", "Digest input identity.title: \"a\" -> \"b\""),
            (Severity::Warn, "diff.changed", "identity.title: \"a\" -> \"b\""),
            (Severity::Warn, "diff.changed", "notes: 1 -> 2"),
        ]
    );
    assert_eq!(diff_findings("W-1", "new.json", &cs, false).len(), 2);
    let same = diff_findings("W-1", "new.json", &vec![], true);
    assert_eq!(same[0].rule, "diff.identical");
    assert_eq!(same[0].message, "W-1: no semantic difference");
    assert_eq!(sources_note("a.json", "b.json"), "Baseline: a.json. Target: b.json.");
    assert_eq!(digest_note("x", "y"), "Recomputed contract digest: x -> y. Covers only declared contract inputs; this does not authenticate signatures.");
    assert_eq!(changes_note(2, "a", "b"), "2 field change(s), comparing a to b. JSON whitespace and object-key order are ignored. Supplied digests are reported, not authenticated or independently attributed to a cause.");
}
