use openwarrant::diagnostic::{Diagnostic, Report, Severity};

#[test]
fn a_rendered_diagnostic_has_the_seventy_one_seven_shape() {
    for d in [
        Diagnostic::pass("manifest.valid", "ok"),
        Diagnostic::warn("independence.insufficient", &"x".to_owned(), "why"),
        Diagnostic::error("generated.drift", &"y".to_owned(), "why"),
        Diagnostic::unknown("gate-run.unaskable", &"z".to_owned(), "why"),
    ] {
        let line = d.line();
        let (sev, rest) = line.split_once(' ').expect("severity then rule");
        assert!(
            ["PASS", "WARN", "ERROR", "UNKNOWN"].contains(&sev),
            "{line}"
        );
        let rule = rest.split_whitespace().next().expect("rule");
        assert!(
            rule.chars()
                .all(|c| c.is_ascii_lowercase() || c == '.' || c == '-'),
            "{line}"
        );
    }
}

const ALL: [Severity; 4] = [
    Severity::Pass,
    Severity::Warn,
    Severity::Unknown,
    Severity::Error,
];

#[test]
fn severity_orders_pass_below_everything_that_matters() {
    assert!(Severity::Pass < Severity::Warn);
    assert!(Severity::Warn < Severity::Unknown);
    assert!(Severity::Unknown < Severity::Error);
}

#[test]
fn blocking_is_upward_closed_in_the_severity_order() {
    for lower in ALL {
        for higher in ALL {
            if lower <= higher && lower.blocks_readiness() {
                assert!(
                    higher.blocks_readiness(),
                    "{higher:?} ranks at or above blocking {lower:?} but does not block"
                );
            }
        }
    }
}

#[test]
fn a_blocking_diagnostic_blocks_regardless_of_company() {
    for blocking in ALL.iter().filter(|s| s.blocks_readiness()) {
        let mut report = Report::default();
        report.push(Diagnostic::pass("p", "fine"));
        report.push(Diagnostic::warn("w", "f", "eh"));
        report.push(Diagnostic::new(*blocking, "b", Some("f".into()), "blocks"));
        assert!(
            !report.is_ready(),
            "{blocking:?} must block even beside a warning"
        );
    }
}

#[test]
fn unknown_blocks_readiness_without_being_an_error() {
    assert!(Severity::Unknown.blocks_readiness());
    assert_ne!(Severity::Unknown, Severity::Error);
    assert!(!Severity::Warn.blocks_readiness());
    assert!(!Severity::Pass.blocks_readiness());
}

#[test]
fn an_empty_report_is_well_formed() {
    let report = Report::default();
    assert_eq!(report.worst(), Severity::Pass);
    assert!(report.is_ready());
}

#[test]
fn a_warning_does_not_block_but_an_unknown_does() {
    let mut report = Report::default();
    report.push(Diagnostic::warn("r", "f", "m"));
    assert!(report.is_ready());

    report.push(Diagnostic::unknown("r2", "f", "could not ask"));
    assert!(
        !report.is_ready(),
        "an unknown blocks even beside a warning"
    );
    assert_eq!(report.worst(), Severity::Unknown);
}

#[test]
fn errors_dominate() {
    let mut report = Report::default();
    report.push(Diagnostic::pass("a", "fine"));
    report.push(Diagnostic::warn("b", "f", "eh"));
    report.push(Diagnostic::error("c", "f", "bad"));
    assert_eq!(report.worst(), Severity::Error);
    assert_eq!(report.count(Severity::Error), 1);
    assert_eq!(report.verdict_line(), "NOT READY");
}

#[test]
fn the_ready_verdict_names_what_it_excludes() {
    let vline = Report::default().verdict_line();
    assert!(!vline.starts_with("READY"), "{vline:?}");
    assert!(vline.contains("Preflight"), "{vline:?}");
}

#[test]
fn notes_do_not_affect_readiness() {
    let mut report = Report::default();
    report.note("gate execution is not implemented");
    report.note("Preflight is not implemented");
    assert!(report.is_ready(), "notes must not block");
    assert_eq!(report.worst(), Severity::Pass);
    assert_eq!(report.notes.len(), 2);
}

#[test]
fn a_rendered_line_pads_severity_and_rule_and_names_the_file() {
    let d = Diagnostic::error("x.y", "docs/a.toml", "broken");
    let expected = format!("{:<7} {:<34} {}\n{:<7} {:<34}   → {}", "ERROR", "x.y", "broken", "", "", "docs/a.toml");
    assert_eq!(d.line(), expected);
    let p = Diagnostic::pass("manifest.valid", "ok");
    assert_eq!(p.line(), format!("{:<7} {:<34} {}", "PASS", "manifest.valid", "ok"));
}

#[test]
fn labels_and_counts_are_exact() {
    assert_eq!(Severity::Pass.label(), "PASS");
    assert_eq!(Severity::Warn.label(), "WARN");
    assert_eq!(Severity::Unknown.label(), "UNKNOWN");
    assert_eq!(Severity::Error.label(), "ERROR");
    let mut report = Report::default();
    report.push(Diagnostic::warn("a", "f", "1"));
    report.push(Diagnostic::warn("b", "f", "2"));
    report.push(Diagnostic::pass("c", "3"));
    assert_eq!(report.count(Severity::Warn), 2);
    assert_eq!(report.count(Severity::Pass), 1);
    assert_eq!(report.count(Severity::Error), 0);
    assert_eq!(report.worst(), Severity::Warn);
    assert!(report.verdict_line().starts_with("WELL-FORMED"));
}
