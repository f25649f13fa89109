use openwarrant::bundle::{bundle_file_name, excerpt};
use openwarrant::bundle::{
    emit, plants_in, test_names, BundleContents, BundledDeliverable, BundledPlant,
};

#[test]
fn test_names_are_read_from_test_attributes_only() {
    let src = "fn helper() {}\n#[test]\nfn one_works() {}\n#[test]\n#[ignore]\nfn two_is_ignored() {}\nfn three() {}\n";
    assert_eq!(test_names(src), vec!["one_works", "two_is_ignored"]);
}

#[test]
fn a_comment_keeps_the_scan_armed_and_code_disarms_it() {
    let src = "  #[test]\n  // why\n  fn über_läuft() {}\n#[test]\nlet x = 1;\nfn not_a_test() {}\n#[test]\nfn (\n";
    assert_eq!(test_names(src), vec!["über_läuft"]);
}

#[test]
fn plant_lines_naming_the_alias_are_numbered_and_trimmed() {
    let text = "echo start\n  plant OW-WAR-0042 refuses  \nprintf 'ok OW-WAR-0042\\n'\nplant OW-WAR-0001\n";
    let plants = plants_in("conformance/plants.d/10.sh", text, "OW-WAR-0042");
    assert_eq!(
        plants,
        vec![
            BundledPlant {
                file: "conformance/plants.d/10.sh".to_owned(),
                line: 2,
                text: "plant OW-WAR-0042 refuses".to_owned(),
            },
            BundledPlant {
                file: "conformance/plants.d/10.sh".to_owned(),
                line: 3,
                text: "printf 'ok OW-WAR-0042\\n'".to_owned(),
            },
        ]
    );
}

#[test]
fn the_summary_counts_what_the_bundle_holds() {
    let d = |t: bool| BundledDeliverable {
        id: "D-1".to_owned(),
        title: "t".to_owned(),
        target_ref: "a.rs".to_owned(),
        sha256: "00".to_owned(),
        bytes: 1,
        truncated: t,
        text: "x".to_owned(),
        test_names: vec![],
    };
    let b = BundleContents {
        obligations: 3,
        atoms: vec![],
        deliverables: vec![d(true), d(false)],
        plants: vec![],
        gate_runs: 1,
        prior_verifications: 0,
        estimated_tokens: 120,
        token_method: "bytes/4".to_owned(),
    };
    let r = emit("OW-WAR-0042", "docs/warrants/OW-WAR-0042/verifications/bundle-ab.json", "sha256:ab", &b);
    assert_eq!(r.diagnostics.len(), 1);
    assert_eq!(r.diagnostics[0].rule, "verify.bundle");
    assert_eq!(
        r.diagnostics[0].message,
        "OW-WAR-0042: bundle sha256:ab written to docs/warrants/OW-WAR-0042/verifications/bundle-ab.json — 3 obligation(s), 0 atom(s), 2 deliverable(s) (1 truncated), 0 plant line(s), 1 gate run(s), 0 prior verification(s), ~120 tokens (bytes/4)"
    );
}

#[test]
fn a_deliverable_is_quoted_whole_under_the_cap_and_by_its_head_above_it() {
    let e = excerpt(b"abc", 8);
    assert!(!e.truncated);
    assert_eq!(e.head, b"abc".to_vec());
    assert_eq!(e.bytes, 3);
    assert_eq!(e.sha256, "ba7816bf8f01cfea414140de5dae2223b00361a396177a9cb410ff61f20015ad");
    let e = excerpt(b"abcdef", 4);
    assert!(e.truncated);
    assert_eq!(e.head, b"abcd".to_vec());
    assert_eq!(e.bytes, 6);
    assert_eq!(bundle_file_name("sha256:0123456789abcdef0123"), "bundle-0123456789abcdef.json");
    assert_eq!(bundle_file_name("abc"), "bundle-abc.json");
}
