use openwarrant::diagnostic::{Diagnostic, Severity};
use openwarrant::traceability::{needs_record, traceability_findings, Implemented, RoadmapRef};

const F: &str = "w/manifest.toml";
const KNOWN: &str = "full, partial, supporting";

fn road(r: &str, parsed: Result<(&str, u32), &str>) -> RoadmapRef {
    RoadmapRef {
        reference: r.into(),
        parsed: parsed.map(|(p, n)| (p.to_string(), n)).map_err(str::to_owned),
        record: None,
    }
}

fn imp(r: &str, parsed: Result<&str, &str>, contribution: Option<Result<(), &str>>) -> Implemented {
    Implemented {
        reference: r.into(),
        parsed: parsed.map(str::to_owned).map_err(str::to_owned),
        contribution: contribution.map(|c| c.map_err(str::to_owned)),
    }
}

fn rows(v: &[Diagnostic]) -> Vec<(Severity, &str, &str)> {
    v.iter().map(|d| (d.severity, d.rule.as_str(), d.message.as_str())).collect()
}

#[test]
fn clean_references_pass() {
    let r = traceability_findings(
        "W-1",
        F,
        "OW",
        false,
        vec![road("roadmap://OW-PHASE-3/x", Ok(("OW", 3)))],
        &Some(vec!["RQ-001".into()]),
        &vec![imp("sas://RQ-001", Ok("RQ-001"), Some(Ok(())))],
        KNOWN,
    );
    assert_eq!(rows(&r), vec![(Severity::Pass, "traceability.refs", "W-1: 1 requirement ref(s) and 1 roadmap ref(s) parse")]);
    assert!(traceability_findings("W-1", F, "OW", false, vec![], &None, &vec![], KNOWN).is_empty());
}

#[test]
fn roadmap_references_are_held_to_the_namespace_and_phases() {
    let r = traceability_findings(
        "W-1",
        F,
        "OW",
        false,
        vec![
            road("roadmap://XY-PHASE-3/x", Ok(("XY", 3))),
            road("roadmap://OW-PHASE-11/x", Ok(("OW", 11))),
            road("roadmap://nonsense", Err("roadmap://nonsense is not a roadmap ref")),
        ],
        &None,
        &vec![],
        KNOWN,
    );
    assert_eq!(
        rows(&r),
        vec![
            (Severity::Error, "roadmap.wrong-namespace", "W-1: roadmap://XY-PHASE-3/x names phase prefix \"XY\"; this repository's namespace is \"OW\", and its SAS is the only §98 a roadmap ref can point into"),
            (Severity::Error, "roadmap.malformed", "W-1: roadmap://OW-PHASE-11/x names phase 11; §98 defines 0..=10 and this program has no roadmap record to say otherwise"),
            (Severity::Error, "roadmap.malformed", "W-1: roadmap://nonsense is not a roadmap ref"),
        ]
    );
}

#[test]
fn a_roadmap_record_decides_the_phase() {
    let mut asked = road("roadmap://OW-PHASE-11/x", Ok(("OW", 11)));
    assert!(needs_record(&asked.parsed, "OW", true));
    assert!(!needs_record(&asked.parsed, "OW", false));
    asked.record = Some((false, vec![Diagnostic::error("roadmap.unknown-phase", F, "W-1: no phase 11")]));
    let r = traceability_findings("W-1", F, "OW", true, vec![asked], &None, &vec![], KNOWN);
    assert_eq!(rows(&r), vec![(Severity::Error, "roadmap.unknown-phase", "W-1: no phase 11")]);
    let mut fine = road("roadmap://OW-PHASE-11/x", Ok(("OW", 11)));
    fine.record = Some((true, vec![]));
    let r = traceability_findings("W-1", F, "OW", true, vec![fine], &None, &vec![], KNOWN);
    assert_eq!(r[0].rule, "traceability.refs");
}

#[test]
fn requirement_references_and_contributions() {
    let r = traceability_findings(
        "W-1",
        F,
        "OW",
        false,
        vec![],
        &Some(vec!["RQ-001".into()]),
        &vec![
            imp("sas://RQ-009", Ok("RQ-009"), None),
            imp("garbled", Err("garbled is not a requirement ref"), Some(Err("mostly is not a contribution"))),
        ],
        KNOWN,
    );
    assert_eq!(
        rows(&r),
        vec![
            (Severity::Error, "traceability.unknown-requirement", "W-1: implements sas://RQ-009 and §106 of the pinned SAS has no such row (§34.1: a Warrant implements a requirement that exists)"),
            (Severity::Warn, "traceability.contribution-unstated", "W-1: sas://RQ-009 declares no contribution; §34.2 says a WAR SHOULD state one of full, partial, supporting"),
            (Severity::Error, "traceability.requirement-ref", "W-1: garbled is not a requirement ref"),
            (Severity::Error, "traceability.contribution", "W-1: garbled: mostly is not a contribution"),
        ]
    );
    let r = traceability_findings("W-1", F, "OW", false, vec![], &None, &vec![imp("sas://RQ-009", Ok("RQ-009"), None)], KNOWN);
    assert_eq!(r.len(), 2);
    assert_eq!(r[1].rule, "traceability.refs");
}
