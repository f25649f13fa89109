use openwarrant::bonsai::{
    github_identity, is_architecture_error, safe_glob, scope_evidence, scope_findings, EvidenceVerdict,
    Finding, ScopeContract, ScopeEntry,
};

#[test]
fn scope_paths_are_small_and_unambiguous() {
    assert!(safe_glob("crates/openwarrant-cli/**"));
    assert!(safe_glob("bonsai.toml"));
    assert!(!safe_glob("../outside/**"));
    assert!(!safe_glob("crates/*/src/**"));
    assert!(!safe_glob("/absolute/**"));
}

#[test]
fn github_remote_is_normalized() {
    assert_eq!(
        github_identity("git@github.com:Quitetall/OpenWarrant.git"),
        Some("github:Quitetall/OpenWarrant".to_owned())
    );
    assert_eq!(
        github_identity("https://github.com/Quitetall/OpenWarrant.git"),
        Some("github:Quitetall/OpenWarrant".to_owned())
    );
}

#[test]
fn only_architecture_errors_block() {
    let v: serde_json::Value = serde_json::from_str(r#"{"rule":"contract-seal", "severity":"error"}"#).unwrap();
    let w: serde_json::Value = serde_json::from_str(r#"{"rule":"leanness-ratchet", "severity":"error"}"#).unwrap();
    let f = |x: &serde_json::Value| Finding {
        rule: x.get("rule").and_then(|r| r.as_str()).map(str::to_owned),
        severity: x.get("severity").and_then(|r| r.as_str()).map(str::to_owned),
    };
    assert!(is_architecture_error(&f(&v)));
    assert!(!is_architecture_error(&f(&w)));
}

#[test]
fn scope_findings_follow_the_changed_paths_in_order() {
    let scope = scope_with(&["src/**"]);
    let changed = vec!["z/out.txt".to_owned(), "src/a.rs".to_owned(), "a/out.txt".to_owned()];
    let fs = scope_findings(&changed, &scope);
    let paths: Vec<&str> = fs.iter().map(|f| f.path.as_str()).collect();
    assert_eq!(paths, vec!["z/out.txt", "a/out.txt"]);
    assert!(fs.iter().all(|f| f.message == "changed path is outside Warrant machine scope"));
}

fn scope_with(globs: &[&str]) -> ScopeContract {
    ScopeContract {
        schema: "oh.war/bonsai-scope/v1".to_owned(),
        repository: "github.com/o/r".to_owned(),
        base_ref: "main".to_owned(),
        policy_path: "bonsai.toml".to_owned(),
        policy_digest: "sha256:00".to_owned(),
        scope: globs
            .iter()
            .map(|g| ScopeEntry { path_glob: (*g).to_owned(), obligation_refs: vec![] })
            .collect(),
    }
}

#[test]
fn scope_evidence_fails_on_a_path_outside_scope() {
    let scope = scope_with(&["src/**"]);
    let inside = vec!["src/a.rs".to_owned()];
    let outside = vec!["src/a.rs".to_owned(), "README.md".to_owned()];
    assert_eq!(scope_evidence(&inside, &scope, &vec![], true).verdict, EvidenceVerdict::Pass);
    assert_eq!(scope_evidence(&inside, &scope, &vec![], false).verdict, EvidenceVerdict::Unknown);
    let ev = scope_evidence(&outside, &scope, &vec![], true);
    assert_eq!(ev.verdict, EvidenceVerdict::Fail);
    assert_eq!(ev.scope_findings.len(), 1);
    assert_eq!(ev.scope_findings[0].path, "README.md");
}
