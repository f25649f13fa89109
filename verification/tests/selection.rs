use openwarrant::context_select::{Atom, ContextRole, ContextStage, SectionLookup};
use openwarrant::selection::{select, ContextItem, Precedence, TrustClass};

fn atom(source: &str, role: &str, required: bool, bytes: &[u8]) -> Atom {
    Atom {
        source: source.to_owned(),
        role: role.to_owned(),
        required,
        bytes: bytes.to_vec(),
    }
}

fn atoms() -> Vec<Atom> {
    vec![
        atom("intent.md", "intent", true, b"abc"),
        atom("notes/extra.md", "notes", false, b"x"),
        atom("basis.md", "basis", false, b"B"),
        atom("misc.md", "notes", false, b"m"),
    ]
}

fn stage() -> ContextStage {
    ContextStage {
        id: "STAGE-001".to_owned(),
        context_atoms: vec!["basis.md".to_owned()],
        context_sections: vec!["intent.md#Goal".to_owned(), "extra.md# Scope ".to_owned()],
        context_artifacts: vec!["docs/a.txt".to_owned()],
        context_external: vec!["https://example.com/x".to_owned()],
    }
}

fn lookups() -> Vec<SectionLookup> {
    vec![
        SectionLookup::Found { body: "goal body".to_owned() },
        SectionLookup::Found { body: "scope".to_owned() },
    ]
}

fn ids(items: &[ContextItem]) -> Vec<&str> {
    items.iter().map(|i| i.id.as_str()).collect()
}

#[test]
fn select_assembles_every_kind_of_item_sorted() {
    let reads = vec![Ok(b"hello".to_vec())];
    let glossary = Some(b"gloss".to_vec());
    let sel = select(&stage(), &atoms(), &lookups(), &reads, &glossary, "demo", "c0ffee", "warrants/W1")
        .expect("nothing refused");
    assert_eq!(
        ids(&sel.included),
        vec![
            "CONTEXT.md",
            "basis.md",
            "docs/a.txt",
            "https://example.com/x",
            "intent.md",
            "notes/extra.md#Scope",
        ]
    );
    let intent = &sel.included[4];
    assert_eq!(intent.role, ContextRole::Normative);
    assert!(intent.required);
    assert_eq!(intent.selector_sections, vec!["Goal".to_owned()]);
    assert_eq!(
        intent.content_digest,
        "sha256:ba7816bf8f01cfea414140de5dae2223b00361a396177a9cb410ff61f20015ad"
    );
    assert_eq!(intent.holder.kind, "git");
    assert_eq!(intent.holder.repository, "demo");
    assert_eq!(intent.holder.commit_sha, "c0ffee");
    assert_eq!(intent.holder.path, "warrants/W1/intent.md");
    assert_eq!(intent.trust, TrustClass::AuthoritativeInternal);
    assert_eq!(intent.precedence, Some(Precedence::AuthorizedWarContract));

    let basis = &sel.included[1];
    assert_eq!(basis.role, ContextRole::Governing);
    assert!(!basis.required);

    let section = &sel.included[5];
    assert_eq!(section.role, ContextRole::Informative);
    assert_eq!(section.selector_sections, vec!["Scope".to_owned()]);
    assert_eq!(
        section.content_digest,
        "sha256:5f161c9149882e0e10124bc5dd5c11f0fbe8ec452edd52bcec76b01e9252cb33"
    );
    assert_eq!(section.holder.path, "warrants/W1/notes/extra.md");

    let artifact = &sel.included[2];
    assert_eq!(artifact.role, ContextRole::Input);
    assert_eq!(artifact.trust, TrustClass::InternalUnverified);
    assert_eq!(artifact.holder.path, "docs/a.txt");
    assert_eq!(artifact.precedence, Some(Precedence::InformativeSource));
    assert_eq!(
        artifact.content_digest,
        "sha256:2cf24dba5fb0a30e26e83b2ac5b9e29e1b161e5c1fa7425e73043362938b9824"
    );

    let glossary_item = &sel.included[0];
    assert_eq!(glossary_item.role, ContextRole::Informative);
    assert_eq!(glossary_item.trust, TrustClass::AuthoritativeInternal);
    assert_eq!(
        glossary_item.content_digest,
        "sha256:d5da31aee80f1722d7b8379f997d24b90e657497a3cdbb7a51b3e73db6b38f01"
    );

    let external = &sel.included[3];
    assert_eq!(external.holder.kind, "external");
    assert_eq!(external.holder.repository, "");
    assert_eq!(external.content_digest, "");
    assert_eq!(external.trust, TrustClass::ExternalUntrusted);
    assert_eq!(external.taints, vec!["unfetched".to_owned()]);

    assert_eq!(sel.omitted.len(), 1);
    assert_eq!(sel.omitted[0].id, "misc.md");
    assert!(!sel.omitted[0].required);
    assert_eq!(
        sel.omitted[0].reason,
        "optional atom of role \"notes\"; STAGE-001 declares neither it nor a section of it (§47.2 \"select only stage-relevant context\")"
    );

    assert_eq!(
        sel.bytes,
        vec![
            ("CONTEXT.md".to_owned(), 5),
            ("basis.md".to_owned(), 1),
            ("docs/a.txt".to_owned(), 5),
            ("intent.md".to_owned(), 3),
            ("notes/extra.md#Scope".to_owned(), 5),
        ]
    );
}

#[test]
fn select_sections_of_an_included_atom_are_sorted_once() {
    let mut st = stage();
    st.context_sections = vec![
        "intent.md#Zeta".to_owned(),
        "intent.md#Alpha".to_owned(),
        "intent.md#Alpha".to_owned(),
    ];
    st.context_artifacts = vec![];
    st.context_external = vec![];
    let lk = vec![
        SectionLookup::Found { body: "z".to_owned() },
        SectionLookup::Found { body: "a".to_owned() },
        SectionLookup::Found { body: "a".to_owned() },
    ];
    let sel = select(&st, &atoms(), &lk, &vec![], &None, "demo", "", "w").expect("accepted");
    assert_eq!(ids(&sel.included), vec!["basis.md", "intent.md"]);
    assert_eq!(
        sel.included[1].selector_sections,
        vec!["Alpha".to_owned(), "Zeta".to_owned()]
    );
    assert_eq!(sel.included[1].holder.commit_sha, "");
    // the intent atom carries its whole bytes, not the sections'
    assert_eq!(sel.bytes, vec![("basis.md".to_owned(), 1), ("intent.md".to_owned(), 3)]);
    // the extra atom is neither declared nor sectioned now
    let omitted: Vec<&str> = sel.omitted.iter().map(|o| o.id.as_str()).collect();
    assert_eq!(omitted, vec!["misc.md", "notes/extra.md"]);
}

#[test]
fn select_refuses_every_unknown_declaration() {
    let mut st = stage();
    st.context_atoms = vec!["nope.md".to_owned()];
    let reads = vec![Err("No such file or directory (os error 2)".to_owned())];
    let refused = select(&st, &atoms(), &lookups(), &reads, &None, "demo", "", "w")
        .expect_err("refused");
    let rows: Vec<(&str, &str)> = refused.iter().map(|r| (r.rule.as_str(), r.message.as_str())).collect();
    assert_eq!(
        rows,
        vec![
            (
                "dispatch.unknown-atom",
                "STAGE-001: context_atoms names \"nope.md\", which is not an atom of this Warrant; declared: intent.md, notes/extra.md, basis.md, misc.md",
            ),
            (
                "dispatch.artifact-missing",
                "STAGE-001: context_artifacts names \"docs/a.txt\": No such file or directory (os error 2)",
            ),
        ]
    );
}
