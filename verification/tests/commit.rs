use openwarrant::commit::{classify, message, status_paths, subject, warrant_of, Kind};

#[test]
fn paths_classify_by_what_they_record() {
    assert_eq!(
        classify("docs/warrants/OW-WAR-0064/authorization.toml"),
        Kind::Authorization
    );
    assert_eq!(
        classify("docs/warrants/OW-WAR-0005/corrections/D-001-1.toml"),
        Kind::Correction
    );
    assert_eq!(classify("docs/sas/revisions/1.0.0.toml"), Kind::SasRevision);
    assert_eq!(
        classify("docs/authority/responses/OW-WAR-0064.response.toml"),
        Kind::Response
    );
    assert_eq!(
        classify("docs/warrants/generated/CORPUS_STATUS.json"),
        Kind::Projection
    );
    assert_eq!(classify("crates/openwarrant-cli/src/sign.rs"), Kind::Code);
    assert_eq!(
        classify("conformance/plants.d/91-questions.sh"),
        Kind::Conformance
    );
    assert_eq!(classify("docs/SKILLS.md"), Kind::Docs);
}

#[test]
fn a_signature_leads_the_subject_over_its_consequences() {
    let paths = vec![
        "docs/warrants/generated/CORPUS_STATUS.json".to_owned(),
        "docs/warrants/OW-WAR-0064/authorization.toml".to_owned(),
    ];
    let text = message(&paths).unwrap();
    let first = text.lines().next().unwrap();
    assert!(first.starts_with("warrant"));
    assert_eq!(Kind::Authorization.conventional(), "warrant");
    assert!(subject(Kind::Authorization, 1, 0).contains("authorization"));
    assert_eq!(first, "warrant(OW-WAR-0064): 1 authorization(s) recorded");
}

#[test]
fn a_warrant_alias_becomes_the_scope() {
    assert_eq!(
        warrant_of("docs/warrants/OW-WAR-0042/manifest.toml").as_deref(),
        Some("OW-WAR-0042")
    );
    assert_eq!(warrant_of("docs/warrants/generated/CORPUS_STATUS.md"), None);
    assert_eq!(warrant_of("crates/openwarrant-cli/src/main.rs"), None);
}

#[test]
fn nothing_changed_is_refused() {
    let paths: Vec<String> = Vec::new();
    assert_eq!(
        message(&paths),
        Err("nothing has changed, so there is nothing to describe".to_owned())
    );
}

#[test]
fn the_whole_message_names_each_kind_and_the_signature_note() {
    let paths = vec![
        "docs/warrants/OW-WAR-0001/authorization.toml".to_owned(),
        "docs/warrants/OW-WAR-0002/a.toml".to_owned(),
        "crates/x/src/a.rs".to_owned(),
        "crates/x/src/b.rs".to_owned(),
        "crates/x/src/c.rs".to_owned(),
        "crates/x/src/d.rs".to_owned(),
        "crates/x/src/e.rs".to_owned(),
    ];
    let text = message(&paths).unwrap();
    let expected = "warrant(OW-WAR-0001, OW-WAR-0002): 1 authorization(s) recorded\n\n\
- authorization (1): docs/warrants/OW-WAR-0001/authorization.toml\n\
- Warrant record (1): docs/warrants/OW-WAR-0002/a.toml\n\
- code (5): crates/x/src/a.rs, crates/x/src/b.rs, crates/x/src/c.rs, crates/x/src/d.rs, and 1 more\n\
\nEvery signature here is the signer's own ssh confirmation; the tool drafted the records and confirmed nothing.\n";
    assert_eq!(text, expected);
}

#[test]
fn many_warrants_are_counted_in_the_scope() {
    let paths = vec![
        "docs/warrants/OW-WAR-0004/x.toml".to_owned(),
        "docs/warrants/OW-WAR-0003/x.toml".to_owned(),
        "docs/warrants/OW-WAR-0002/x.toml".to_owned(),
        "docs/warrants/OW-WAR-0001/x.toml".to_owned(),
    ];
    let text = message(&paths).unwrap();
    assert!(text.starts_with("records(4 Warrants): records edited across 4 Warrants\n"));
    assert_eq!(subject(Kind::Warrant, 3, 1), "Warrant records edited");
    assert_eq!(subject(Kind::Other, 3, 1), "files changed");
}

#[test]
fn porcelain_lines_name_their_paths() {
    let out = " M docs/a.md\nR  old.rs -> new.rs\n?? x y.txt \n\nM\n";
    assert_eq!(
        status_paths(out),
        vec!["docs/a.md".to_owned(), "new.rs".to_owned(), "x y.txt".to_owned()]
    );
}
