use openwarrant::check::{
    current_comparison, resolution_binds, roadmap_status_claim, strip_comments,
    unanswered_required_headings,
};
use openwarrant::compile::{atom_body, normalize};
use openwarrant::diagnostic::Severity;

#[test]
fn a_required_heading_left_as_its_comment_is_unanswered() {
    let t = "# Intent\n\n## Problem\n<!-- required -->\n<!-- What is wrong? -->\n\n## Non-goals\n<!-- optional: delete if not applicable -->\n<!-- What is out? -->\n";
    assert_eq!(unanswered_required_headings(t), vec!["Problem".to_owned()]);
}

#[test]
fn an_answer_or_a_deleted_optional_heading_passes() {
    let t = "# Intent\n\n## Problem\n<!-- required -->\n<!-- What is wrong? -->\nThe parser drops a key.\n";
    assert!(unanswered_required_headings(t).is_empty());
}

#[test]
fn headings_in_a_fence_and_frontmatter_are_not_sections() {
    let t = "---\nid: x\n---\n\n\n## Steps\n<!-- required -->\n```\n# not a heading\n```\n## Notes\n<!-- required -->\n";
    assert_eq!(unanswered_required_headings(t), vec!["Notes".to_owned()]);
}

#[test]
fn comments_are_stripped_and_an_unclosed_one_runs_to_the_end() {
    let s = |x: &str| x.chars().collect::<Vec<char>>();
    assert_eq!(strip_comments(&s("a<!-- b -->c<!--d")), s("ac"));
    assert_eq!(strip_comments(&s("<!-->x")), s("x"));
    assert_eq!(strip_comments(&s("plain")), s("plain"));
}

#[test]
fn an_atom_body_follows_its_frontmatter() {
    assert_eq!(atom_body("---\na: 1\n---\n\n\nbody\n"), "body\n");
    assert_eq!(atom_body("no frontmatter\n"), "no frontmatter\n");
    assert_eq!(atom_body("---\nunclosed\n"), "---\nunclosed\n");
}

#[test]
fn an_atom_path_is_normalized() {
    assert_eq!(normalize("a/b/../c"), "a/c");
    assert_eq!(normalize("./a//b/."), "a/b");
    assert_eq!(normalize("../../x"), "x");
    assert_eq!(normalize(""), "");
}

#[test]
fn a_cited_parent_digest_is_compared_with_the_current_one() {
    let same = current_comparison("m.toml", "OW-WAR-0002", "OW-WAR-0001", "aa", Some("aa"));
    assert_eq!(same.severity, Severity::Pass);
    assert_eq!(same.message, "OW-WAR-0002: parent OW-WAR-0001 contract digest matches");
    let moved = current_comparison("m.toml", "OW-WAR-0002", "OW-WAR-0001", "aa", Some("bb"));
    assert_eq!(moved.severity, Severity::Error);
    assert_eq!(moved.file.as_deref(), Some("m.toml"));
    assert!(moved.message.contains("sha256:aa but the parent's actual contract digest is sha256:bb"));
    let none = current_comparison("m.toml", "OW-WAR-0002", "OW-WAR-0001", "aa", None);
    assert_eq!(none.severity, Severity::Unknown);
}

#[test]
fn a_resolved_claim_in_roadmap_prose_is_an_error() {
    assert!(roadmap_status_claim("docs/roadmap/a.md", "nothing here").is_none());
    let d = roadmap_status_claim("docs/roadmap/a.md", "x **resolved** y **resolved**").unwrap();
    assert_eq!(d.rule, "roadmap.status-claim");
    assert!(d.message.starts_with("docs/roadmap/a.md marks something **resolved** 2 time(s)"));
}

#[test]
fn only_a_readable_resolution_binds() {
    let ok: Result<Option<u8>, String> = Ok(Some(1));
    let none: Result<Option<u8>, String> = Ok(None);
    let err: Result<Option<u8>, String> = Err("bad".to_owned());
    assert!(resolution_binds(&ok));
    assert!(!resolution_binds(&none));
    assert!(!resolution_binds(&err));
}
