use openwarrant::eval::{
    cites_gate, first_stage, killed_after, no_tasks, program_path, short_sha, task_refusal,
    EvalNext, EvalStep,
    as_expected, default_expected, final_score, human_dependent_requirements, ladder_line,
    movement, refusals, requirements_unmet_by_the_loop, Envelope, EnvelopeDiagnostic, Movement,
    Score, Tokens,
};

fn envelope_of(stdout: &str) -> Envelope {
    let start = stdout
        .lines()
        .scan(0usize, |offset, line| {
            let at = *offset;
            *offset += line.len() + 1;
            Some((at, line))
        })
        .find(|(_, line)| *line == "{")
        .map(|(at, _)| at)
        .expect("an envelope");
    let v: serde_json::Value = serde_json::from_str(&stdout[start..]).expect("json");
    let s = |d: &serde_json::Value, k: &str| d.get(k).and_then(|x| x.as_str()).unwrap_or("").to_owned();
    Envelope {
        exit_code: v.get("exit_code").and_then(|x| x.as_i64()).unwrap_or(-1),
        verdict: s(&v, "verdict"),
        diagnostics: v
            .get("diagnostics")
            .and_then(|x| x.as_array())
            .map(|a| {
                a.iter()
                    .map(|d| EnvelopeDiagnostic {
                        severity: s(d, "severity"),
                        rule: s(d, "rule"),
                        message: s(d, "message"),
                    })
                    .collect()
            })
            .unwrap_or_default(),
    }
}

#[test]
fn a_refusal_in_a_bare_error_is_named() {
    let e = envelope_of(
        r#"compiled
{
  "schema": "oh.war/report/v1", "command": "error",
  "diagnostics": [{"severity":"error","rule":"cli.error","file":null,"message":"plan.drafter-wrote-files: the drafter changed the working tree"}],
  "notes": [], "counts": {"pass":0,"warn":0,"unknown":0,"error":1,"worst":"error"},
  "verdict": "not_ready", "verdict_line": "NOT READY", "exit_code": 2
}"#,
    );
    assert_eq!(e.refusal().as_deref(), Some("plan.drafter-wrote-files"));
    assert_eq!(e.exit_code, 2);
    let step = e.step("plan.apply");
    assert_eq!(step.rule.as_deref(), Some("cli.error"));
    assert_eq!(step.verdict, "not_ready");
}

#[test]
fn score_names_round_trip_through_the_expected_field() {
    let names = [
        (Score::WouldSatisfy, "would_satisfy"),
        (Score::Partial, "partial"),
        (Score::OverBudget, "over_budget"),
        (Score::Refused, "refused"),
        (Score::Errored, "errored"),
    ];
    for (s, n) in names {
        assert_eq!(s.name(), n);
        assert!(as_expected(s, n));
    }
    assert_eq!(default_expected(), "would_satisfy");
}

#[test]
fn a_refusal_rule_is_named_directly_and_other_errors_are_not_refusals() {
    let d = |sev: &str, rule: &str, message: &str| EnvelopeDiagnostic {
        severity: sev.to_owned(),
        rule: rule.to_owned(),
        message: message.to_owned(),
    };
    let e = Envelope {
        exit_code: 2,
        verdict: "not_ready".to_owned(),
        diagnostics: vec![
            d("warn", "verify.inadmissible", ""),
            d("error", "check.other", "verify.no-verifier at the start"),
            d("error", "dispatch.over-budget", ""),
        ],
    };
    assert_eq!(e.refusal().as_deref(), Some("dispatch.over-budget"));
    assert_eq!(e.first_error_rule().as_deref(), Some("check.other"));
    assert_eq!(refusals().len(), 15);
}

#[test]
fn the_loop_is_charged_only_for_what_no_human_could_meet() {
    let unmet = vec![
        "exact authorized Contract Revision".to_owned(),
        "artifact digests verify".to_owned(),
        "resolver holds the role".to_owned(),
    ];
    assert_eq!(
        requirements_unmet_by_the_loop(&unmet),
        vec!["artifact digests verify".to_owned()]
    );
    assert_eq!(human_dependent_requirements().len(), 6);
}

#[test]
fn the_ladder_is_climbed_in_order() {
    assert_eq!(final_score(11, 10, Some(true), 0), Score::OverBudget);
    assert_eq!(final_score(10, 10, Some(true), 0), Score::WouldSatisfy);
    assert_eq!(final_score(10, 10, Some(true), 1), Score::Partial);
    assert_eq!(final_score(1, 10, None, 0), Score::Partial);
    let t = Tokens::default();
    assert_eq!(t.total, 0);
}

#[test]
fn a_task_moves_by_its_own_expectation() {
    assert_eq!(movement(Score::Partial, false, Score::Partial, false), Movement::Same);
    assert_eq!(movement(Score::WouldSatisfy, true, Score::Partial, false), Movement::Regressed);
    assert_eq!(movement(Score::Partial, false, Score::WouldSatisfy, true), Movement::Improved);
    assert_eq!(movement(Score::Partial, false, Score::Errored, false), Movement::Moved);
    assert_eq!(Movement::Regressed.rule(), "eval.regressed");
    assert_eq!(
        ladder_line(&vec![("partial".to_owned(), 2), ("would_satisfy".to_owned(), 3)]),
        "2 partial, 3 would_satisfy"
    );
}

fn go(kind: &str, step: openwarrant::eval::EvalStep, refusal: Option<&str>, usable: bool) -> openwarrant::eval::EvalNext {
    openwarrant::eval::eval_after(kind, step, openwarrant::eval::StepOutcome { refusal: refusal.map(str::to_owned), usable })
}

#[test]
fn the_loop_of_a_code_task() {
    use_steps();
}

fn use_steps() {
    let mut step = openwarrant::eval::EvalStep::Plan;
    let mut seen = Vec::new();
    loop {
        seen.push(openwarrant::eval::step_name(step));
        match go("code", step, None, true) {
            openwarrant::eval::EvalNext::Go(openwarrant::eval::EvalStep::Assess) => break,
            openwarrant::eval::EvalNext::Go(next) => step = next,
            other => panic!("stopped: {other:?}"),
        }
    }
    assert_eq!(seen, vec!["plan.apply", "check", "dispatch", "perform", "compile", "evidence.record", "verify.run"]);
}

#[test]
fn the_loop_of_a_run_and_a_document_task() {
    let order = |kind: &str| {
        let mut step = openwarrant::eval::EvalStep::Plan;
        let mut seen = Vec::new();
        loop {
            seen.push(openwarrant::eval::step_name(step));
            match go(kind, step, None, true) {
                openwarrant::eval::EvalNext::Go(openwarrant::eval::EvalStep::Assess) => break,
                openwarrant::eval::EvalNext::Go(next) => step = next,
                other => panic!("stopped: {other:?}"),
            }
        }
        seen
    };
    assert_eq!(order("run"), vec!["plan.apply", "check", "dispatch", "run", "compile", "evidence.record", "perform", "compile.after-perform", "verify.run"]);
    assert_eq!(order("document"), vec!["plan.apply", "check", "dispatch", "perform", "compile", "evidence.record", "verify.run", "evidence.record.after-review"]);
}

#[test]
fn refusals_and_failures_stop_the_loop() {
    assert_eq!(go("code", EvalStep::Dispatch, Some("dispatch.unknown-atom"), true), EvalNext::Stop { score: Score::Refused, refusal: Some("dispatch.unknown-atom".into()) });
    assert_eq!(go("code", EvalStep::Plan, None, false), EvalNext::Stop { score: Score::Errored, refusal: None });
    assert_eq!(go("code", EvalStep::Perform, None, false), EvalNext::Stop { score: Score::Errored, refusal: None });
    assert_eq!(go("code", EvalStep::Check, Some("x"), true), EvalNext::Go(EvalStep::Dispatch));
    assert_eq!(
        openwarrant::eval::war_args(EvalStep::Dispatch, "s", "W-1", "STAGE-1", "/tmp/d.json"),
        vec!["dispatch", "W-1", "STAGE-1", "--emit", "/tmp/d.json"]
    );
    assert_eq!(openwarrant::eval::war_args(EvalStep::Plan, "make it so", "", "", ""), vec!["plan", "make it so", "--draft", "--apply", "--reviewed"]);
    assert!(openwarrant::eval::war_args(EvalStep::Perform, "", "", "", "").is_empty());
}

#[test]
fn eval_tasks_must_be_of_this_schema_and_a_known_kind() {
    assert_eq!(task_refusal("t/task.toml", "oh.war/eval-task/v1", "code"), None);
    assert_eq!(task_refusal("t/task.toml", "oh.war/eval-task/v1", "run"), None);
    assert_eq!(
        task_refusal("t/task.toml", "oh.war/eval-task/v2", "code"),
        Some("t/task.toml: schema is oh.war/eval-task/v2, not oh.war/eval-task/v1".to_owned())
    );
    assert_eq!(
        task_refusal("t/task.toml", "oh.war/eval-task/v1", "poem"),
        Some("t/task.toml: kind is poem; code, document or run".to_owned())
    );
    assert_eq!(no_tasks(Some("x"), "/r/evals"), "no task named x under /r/evals");
    assert_eq!(no_tasks(None, "/r/evals"), "no tasks under /r/evals");
}

#[test]
fn eval_first_stage_of_a_run_task_is_a_service() {
    let stages = vec![("STAGE-001".to_owned(), false), ("STAGE-002".to_owned(), true)];
    assert_eq!(first_stage(&stages, "code"), Some("STAGE-001".to_owned()));
    assert_eq!(first_stage(&stages, "run"), Some("STAGE-002".to_owned()));
    assert_eq!(first_stage(&vec![("S".to_owned(), false)], "run"), None);
    assert_eq!(first_stage(&vec![], "code"), None);
}

#[test]
fn eval_gate_citations_and_paths() {
    let texts = vec!["no gate".to_owned(), "cites gate://lint/strict here".to_owned()];
    assert!(cites_gate(&texts, "lint/strict"));
    assert!(!cites_gate(&texts, "lint/loose"));
    assert_eq!(program_path("/repo", "tools/draft.sh", false), "/repo/tools/draft.sh");
    assert_eq!(program_path("/repo", "draft.sh", true), "/repo/draft.sh");
    assert_eq!(program_path("/repo", "python3", false), "python3");
    assert_eq!(program_path("/repo", "/usr/bin/x", true), "/usr/bin/x");
    assert_eq!(short_sha(Some("abc1234\n")), "abc1234");
    assert_eq!(short_sha(Some("  \n")), "nogit");
    assert_eq!(short_sha(None), "nogit");
    assert_eq!(killed_after(0), "killed after 1s");
    assert_eq!(killed_after(30), "killed after 30s");
}
