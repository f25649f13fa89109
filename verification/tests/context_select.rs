use openwarrant::context_select::{
    atom_fate, find_atom, refusals, role_for, Atom, AtomFate, ContextRole, ContextStage,
    SectionLookup,
};

fn atom(source: &str, role: &str, required: bool) -> Atom {
    Atom {
        source: source.to_owned(),
        role: role.to_owned(),
        required,
        bytes: b"abc".to_vec(),
    }
}

fn atoms() -> Vec<Atom> {
    vec![
        atom("basis.md", "basis", true),
        atom("notes/design.md", "design", false),
        atom("extra.md", "extra", false),
    ]
}

fn stage() -> ContextStage {
    ContextStage {
        id: "build".to_owned(),
        context_atoms: vec![],
        context_sections: vec![],
        context_artifacts: vec![],
        context_external: vec![],
    }
}

#[test]
fn an_atom_is_named_by_its_source_or_its_file_name() {
    assert_eq!(find_atom(&atoms(), "notes/design.md"), Some(1));
    assert_eq!(find_atom(&atoms(), "design.md"), Some(1));
    assert_eq!(find_atom(&atoms(), "nope.md"), None);
    assert_eq!(role_for("basis"), ContextRole::Governing);
    assert_eq!(role_for("assurance"), ContextRole::Normative);
    assert_eq!(role_for("design"), ContextRole::Informative);
}

#[test]
fn a_declaration_that_names_nothing_is_refused_by_name() {
    let mut s = stage();
    s.context_atoms = vec!["ghost.md".to_owned()];
    s.context_sections = vec!["design.md#Goals".to_owned(), "design.md".to_owned(), "nope.md#X".to_owned()];
    s.context_artifacts = vec!["src/lib.rs".to_owned()];
    let lookups = vec![
        SectionLookup::Missing { headings: vec!["Intro".to_owned(), "Plan".to_owned()] },
        SectionLookup::Found { body: String::new() },
        SectionLookup::Found { body: String::new() },
    ];
    let r = refusals(&s, &atoms(), &lookups, &vec![Some("No such file".to_owned())]);
    let rules: Vec<&str> = r.iter().map(|x| x.rule.as_str()).collect();
    assert_eq!(
        rules,
        vec![
            "dispatch.unknown-atom",
            "dispatch.section-missing",
            "dispatch.section-missing",
            "dispatch.unknown-atom",
            "dispatch.artifact-missing",
        ]
    );
    assert_eq!(
        r[0].message,
        "build: context_atoms names \"ghost.md\", which is not an atom of this Warrant; declared: basis.md, notes/design.md, extra.md"
    );
    assert_eq!(
        r[1].message,
        "build: design.md has no section \"Goals\"; its headings are: Intro | Plan"
    );
    assert_eq!(
        r[2].message,
        "build: context_sections entry \"design.md\": not of the form `<atom>#<heading>`"
    );
    assert_eq!(r[4].message, "build: context_artifacts names \"src/lib.rs\": No such file");
}

#[test]
fn required_atoms_are_kept_and_the_rest_have_a_reason() {
    let s = stage();
    match atom_fate(&atoms()[0], &s, &vec![]) {
        AtomFate::Included { role, content_digest } => {
            assert_eq!(role, ContextRole::Governing);
            assert_eq!(
                content_digest,
                "sha256:ba7816bf8f01cfea414140de5dae2223b00361a396177a9cb410ff61f20015ad"
            );
        }
        other => panic!("{other:?}"),
    }
    assert_eq!(atom_fate(&atoms()[1], &s, &vec!["notes/design.md".to_owned()]), AtomFate::Sectioned);
    assert_eq!(
        atom_fate(&atoms()[2], &s, &vec![]),
        AtomFate::Omitted {
            reason: "optional atom of role \"extra\"; build declares neither it nor a section of it (§47.2 \"select only stage-relevant context\")".to_owned()
        }
    );
    let mut d = stage();
    d.context_atoms = vec!["extra.md".to_owned()];
    assert!(matches!(atom_fate(&atoms()[2], &d, &vec![]), AtomFate::Included { .. }));
}
