use openwarrant::document::{
    citation_kind, cites_review_gate, digest_finding, missing_citation, placeholder_findings,
    review_finding, reviewed_total, url_note, CitationKind, Verification,
};
use openwarrant::document::{citations, placeholders};

#[test]
fn citations_and_placeholders_are_read_outside_fences_only() {
    let text = "See [the SAS](../sas/x.md) and [web](https://example.org) and [a](#local).\n\n```\n[not](a-link) TODO\n```\n\nTBD here; mastodon is not a placeholder; Lorem Ipsum is.\n";
    let c = citations(text);
    assert_eq!(
        c,
        vec![
            (1, "../sas/x.md".to_owned()),
            (1, "https://example.org".to_owned()),
            (1, "#local".to_owned())
        ]
    );
    let p = placeholders(text);
    assert_eq!(p, vec![(7, "TBD"), (7, "lorem ipsum")]);
}

#[test]
fn a_link_target_is_its_first_word_up_to_the_first_paren() {
    let c = citations("[x](url_(y)) [t]( spaced  title ) [e]() [open](never");
    assert_eq!(c, vec![(1, "url_(y".to_owned()), (1, "spaced".to_owned())]);
}

#[test]
fn uppercase_markers_are_whole_words() {
    let p = placeholders("TODO: x\nmy_TODO\nFIXME2 TBD.\n<PLACEHOLDER>\n");
    assert_eq!(p, vec![(1, "TODO"), (2, "TODO"), (3, "TBD"), (4, "<placeholder>")]);
}

const ABC_HEX: &str = "ba7816bf8f01cfea414140de5dae2223b00361a396177a9cb410ff61f20015ad";

#[test]
fn a_document_is_held_to_its_recorded_digest() {
    let d = digest_finding("W-1", "docs/out.md", "D1", &Some(format!("sha256:{ABC_HEX}")), &Some(b"abc".to_vec()));
    assert_eq!((d.rule.as_str(), d.message.as_str()), ("document.digested", "W-1: D1 is at its recorded digest"));
    let d = digest_finding("W-1", "docs/out.md", "D1", &Some("sha256:00".into()), &Some(b"abc".to_vec()));
    assert_eq!(d.rule, "document.undigested");
    assert_eq!(d.message, "W-1: D1 has moved since its digest was recorded; re-record the deliverable, or for a resolved Warrant `war correct W-1 D1`");
    let d = digest_finding("W-1", "docs/out.md", "D1", &None, &Some(b"abc".to_vec()));
    assert_eq!(d.message, "W-1: D1 records no content digest");
    let d = digest_finding("W-1", "docs/out.md", "D1", &None, &None);
    assert_eq!(d.message, "W-1: D1 does not exist");
    assert_eq!(d.file.as_deref(), Some("docs/out.md"));
}

#[test]
fn citations_are_sorted_into_urls_anchors_and_paths() {
    assert!(matches!(citation_kind("https://example.org"), CitationKind::Url));
    assert!(matches!(citation_kind("http://x"), CitationKind::Url));
    assert!(matches!(citation_kind("#local"), CitationKind::Skipped));
    assert!(matches!(citation_kind("mailto:a@b"), CitationKind::Skipped));
    match citation_kind("../sas/x.md#s-3") {
        CitationKind::Path { path } => assert_eq!(path, "../sas/x.md"),
        _ => panic!("a path"),
    }
    let d = missing_citation("W-1", "docs/out.md", 4, "gone.md");
    assert_eq!(d.message, "W-1: line 4 cites \"gone.md\", which does not exist");
    assert_eq!(url_note("W-1", 2, "docs/out.md"), "W-1: 2 URL citation(s) in docs/out.md recorded, not fetched");
}

#[test]
fn placeholders_and_reviews_are_reported() {
    let r = placeholder_findings("W-1", "docs/out.md", "Fine.\nTBD here\n");
    assert_eq!(r.len(), 1);
    assert_eq!(r[0].message, "W-1: line 2 still says \"TBD\"");
    let vs = vec![
        Verification { obligation: "OB-1".into(), disposition: "established".into(), verifier: "ada".into(), performer: "scribe".into() },
        Verification { obligation: "OB-2".into(), disposition: "established".into(), verifier: "scribe".into(), performer: "scribe".into() },
    ];
    let d = review_finding("W-1", "w/verifications", "OB-1", "scribe", &vs);
    assert_eq!((d.rule.as_str(), d.message.as_str()), ("document.reviewed", "W-1: OB-1 established by a verifier who is not the performer"));
    let d = review_finding("W-1", "w/verifications", "OB-2", "scribe", &vs);
    assert_eq!(d.rule, "document.review-absent");
    assert_eq!(d.message, "W-1: OB-2 has no `established` verification from someone other than the performer (scribe); `war verify W-1 --bundle` and hand it off");
    assert!(cites_review_gate("gates: gate://document.review@1"));
    assert!(!cites_review_gate("gates: gate://war-check@1"));
    assert_eq!(reviewed_total(3).message, "3 Warrant(s) with Markdown deliverables reviewed");
}
