use openwarrant::compile::{
    lossy_split, normative_body, sections_index, IndexRow, IndexSection, SectionKind, Sentence,
};
use openwarrant::compile::{atom_source, manifest_dir, phase_of, phases, tree_date, Objective};

fn obj(roadmap: Option<(&str, u32)>, title: &str, warrants: &[&str]) -> Objective {
    Objective {
        roadmap: roadmap.map(|(p, n)| (p.to_string(), n)),
        title: title.into(),
        warrants: warrants.iter().map(|w| w.to_string()).collect(),
    }
}

#[test]
fn atoms_are_named_from_their_manifest_directory() {
    assert_eq!(manifest_dir("docs/warrants/W-1/manifest.toml"), "docs/warrants/W-1");
    assert_eq!(manifest_dir("manifest.toml"), "");
    assert_eq!(atom_source("docs/warrants/W-1", "../shared/./intent.md"), "docs/warrants/shared/intent.md");
    assert_eq!(atom_source("", "intent.md"), "intent.md");
}

#[test]
fn phases_follow_the_record_then_the_objectives() {
    let record = vec![("OW-PHASE-2".to_string(), "Second".to_string())];
    let objectives = vec![
        obj(Some(("OW", 2)), "ignored title", &["W-1"]),
        obj(Some(("OW", 3)), "Third", &["W-2", "W-1"]),
        obj(None, "loose", &["W-3"]),
        obj(Some(("OW", 3)), "again", &["W-4"]),
    ];
    assert_eq!(
        phases(&record, &objectives),
        vec![("OW-PHASE-2".to_string(), "Second".to_string()), ("OW-PHASE-3".to_string(), "Third".to_string())]
    );
    assert_eq!(phase_of("W-1", &objectives).as_deref(), Some("OW-PHASE-2"));
    assert_eq!(phase_of("W-4", &objectives).as_deref(), Some("OW-PHASE-3"));
    assert_eq!(phase_of("W-3", &objectives), None);
}

#[test]
fn the_projection_is_dated_by_its_latest_dated_day() {
    let days = vec!["2026-01-01".to_string(), "2026-01-02".to_string(), "undated".to_string()];
    assert_eq!(tree_date(&days).as_deref(), Some("2026-01-02"));
    assert_eq!(tree_date(&vec!["?".to_string()]), None);
    assert_eq!(tree_date(&Vec::new()), None);
}

fn sentence(section: &str, heading: &str, keyword: &str, words: &str) -> Sentence {
    Sentence {
        section: section.to_owned(),
        heading: heading.to_owned(),
        keyword: keyword.to_owned(),
        sentence: words.to_owned(),
    }
}

#[test]
fn normative_statements_are_grouped_by_section() {
    let body = normative_body(&vec![
        sentence("4.1", "Scope", "MUST", "Name the scope."),
        sentence("4.1", "Scope", "SHOULD", "Keep it small."),
        sentence("5", "Pins", "MUST NOT", "Drift."),
    ]);
    assert_eq!(
        body,
        "\n## §4.1 Scope\n\n- **MUST** §4.1: Name the scope.\n- **SHOULD** §4.1: Keep it small.\n\n## §5 Pins\n\n- **MUST NOT** §5: Drift.\n"
    );
    assert_eq!(normative_body(&vec![]), "");
}

fn row(id: &str, title: &str, start: u64, end: u64) -> IndexRow {
    IndexRow {
        id: id.to_owned(),
        title: title.to_owned(),
        start,
        end,
        sha256: "0123456789abcdef0123456789abcdef0123456789abcdef0123456789abcdef".to_owned(),
    }
}

#[test]
fn the_section_index_lists_every_unit_and_subsection() {
    let sections = vec![
        IndexSection { kind: SectionKind::Preamble, row: row("preamble", "Preamble", 0, 10), subsections: vec![] },
        IndexSection { kind: SectionKind::Part, row: row("part-1", "Part I", 10, 20), subsections: vec![] },
        IndexSection {
            kind: SectionKind::Numbered,
            row: row("SAS-1", "A | B", 20, 90),
            subsections: vec![row("SAS-1.1", "First", 40, 90)],
        },
    ];
    let md = sections_index("docs/sas/SAS.md", "feed", Some("3"), Some("OW"), &sections);
    let expected = "# Sections of docs/sas/SAS.md\n\n<!-- GENERATED by `war compile` from sha256:feed (revision 3); do not edit. -->\n\n3 unit(s): the preamble, 1 part and appendix heading(s), 1 numbered section(s), and 1 subsection(s) within them. Joined in order, the units are the document byte for byte. A numbered section is cited as `sas://OW-SAS-<n>`, a subsection as `sas://OW-SAS-<n>.<m>` (OW-ADR-0028); `war check` resolves each such citation in an amendment against the revision its Warrant is pinned to.\n\n| id | title | bytes | sha256 (first 16) |\n| --- | --- | ---: | --- |\n| `preamble` | Preamble | 0–10 | `0123456789abcdef` |\n| `part-1` | Part I | 10–20 | `0123456789abcdef` |\n| `SAS-1` | A \\| B | 20–90 | `0123456789abcdef` |\n| `SAS-1.1` | ↳ First | 40–90 | `0123456789abcdef` |\n";
    assert_eq!(md, expected);
    let bare = sections_index("S.md", "feed", None, None, &vec![]);
    assert!(bare.starts_with("# Sections of S.md\n\n<!-- GENERATED by `war compile` from sha256:feed; do not edit. -->\n\n0 unit(s)"));
    assert!(bare.contains("`sas://<NS>-SAS-<n>`"));
}

#[test]
fn a_lossy_split_is_refused_with_both_digests() {
    assert_eq!(
        lossy_split("aa", "bb"),
        "the SAS split does not join back to the document (sha256:aa, document sha256:bb); no section index is written from a lossy split"
    );
}
