//! `war eval`: the agent loop, measured.
//!
//! A task is one vague sentence and the rung of the ladder the loop around it
//! should reach. The harness never authorizes, resolves or signs; the score
//! is what a resolution would say under the blind verifier, and a comparison
//! against a baseline reports a movement per task, never a percentage.

use vstd::prelude::*;

use crate::text::{chars_of, decimal, push_decimal, push_str, starts_with, str_eq, string_of, strs};

verus! {

pub const TASK_SCHEMA: &'static str = "oh.war/eval-task/v1";

pub const PERFORM_SCHEMA: &'static str = "oh.war/eval-perform/v1";

pub const RESULT_SCHEMA: &'static str = "oh.war/eval-result/v1";

pub const TIMING_SCHEMA: &'static str = "oh.war/eval-timing/v1";

pub const DEFAULT_TASKS_DIR: &'static str = "evals/tasks";

pub const DEFAULT_BASELINE: &'static str = "evals/baseline.json";

pub const SCRATCH_NAMESPACE: &'static str = "EV";

/// One task file: `evals/tasks/<id>/task.toml`.
#[derive(Debug, Clone, PartialEq, Eq)]
pub struct Task {
    pub schema: String,
    /// The vague request, verbatim.
    pub sentence: String,
    /// code | document | run.
    pub kind: String,
    pub expected_gate: String,
    /// Estimated tokens the whole loop may spend.
    pub max_tokens: u64,
    pub max_wall_secs: u64,
    /// The rung the loop should reach.
    pub expected: String,
}

/// The rung a task expects when its file names none.
pub fn default_expected() -> (r: String)
    ensures
        r@ == "would_satisfy"@,
{
    string_of(&chars_of("would_satisfy"))
}

/// The ladder. `verify` compares against each task's own expectation, never
/// a rank.
#[derive(Debug, Clone, Copy, PartialEq, Eq, Structural)]
pub enum Score {
    /// Every declared obligation established by an admissible, independent
    /// verification.
    WouldSatisfy,
    /// The loop ran to the end; something is unestablished.
    Partial,
    /// The loop's estimated tokens exceeded the task's budget.
    OverBudget,
    /// A named refusal stopped the loop.
    Refused,
    /// A step failed for a reason that is not a refusal.
    Errored,
}

impl Score {
    pub open spec fn spec_name(self) -> Seq<char> {
        match self {
            Score::WouldSatisfy => "would_satisfy"@,
            Score::Partial => "partial"@,
            Score::OverBudget => "over_budget"@,
            Score::Refused => "refused"@,
            Score::Errored => "errored"@,
        }
    }

    /// The rung's name, as results and task files spell it.
    pub fn name(self) -> (r: &'static str)
        ensures
            r@ == self.spec_name(),
    {
        match self {
            Score::WouldSatisfy => "would_satisfy",
            Score::Partial => "partial",
            Score::OverBudget => "over_budget",
            Score::Refused => "refused",
            Score::Errored => "errored",
        }
    }
}

/// One step of the loop as the result records it.
#[derive(Debug, Clone, PartialEq, Eq)]
pub struct Step {
    pub name: String,
    pub exit_code: i64,
    pub verdict: String,
    /// The rule of the first error diagnostic, when there was one.
    pub rule: Option<String>,
}

/// The loop's estimated token spend.
#[derive(Debug, Clone, PartialEq, Eq)]
pub struct Tokens {
    pub request: u64,
    pub dispatch: u64,
    pub bundle: u64,
    pub total: u64,
    pub method: String,
    /// False for the run kind, whose bundle carries wall-clock durations.
    pub stable: bool,
}

impl Default for Tokens {
    fn default() -> (r: Self)
        ensures
            r.request == 0 && r.dispatch == 0 && r.bundle == 0 && r.total == 0,
            r.method@ == Seq::<char>::empty(),
            !r.stable,
    {
        Tokens { request: 0, dispatch: 0, bundle: 0, total: 0, method: String::new(), stable: false }
    }
}

/// The refusal rules the loop can hit; a step that ends in one is scored
/// `refused`.
pub open spec fn refusal_rules() -> Seq<Seq<char>> {
    seq![
        "plan.drafter-wrote-files"@,
        "plan.drafter-timeout"@,
        "plan.drafter-failed"@,
        "plan.v1-has-no-payloads"@,
        "plan.interview-required"@,
        "dispatch.over-budget"@,
        "dispatch.section-missing"@,
        "dispatch.unknown-atom"@,
        "dispatch.artifact-missing"@,
        "verify.inadmissible"@,
        "verify.no-verifier"@,
        "run.not-a-service"@,
        "run.unknown-gate"@,
        "submission.self-completion"@,
        "submission.unknown-dispatch"@,
    ]
}

/// The refusal rules, in their fixed order.
pub fn refusals() -> (r: Vec<&'static str>)
    ensures
        r@.map_values(|s: &'static str| s@) == refusal_rules(),
{
    let r = vec![
        "plan.drafter-wrote-files",
        "plan.drafter-timeout",
        "plan.drafter-failed",
        "plan.v1-has-no-payloads",
        "plan.interview-required",
        "dispatch.over-budget",
        "dispatch.section-missing",
        "dispatch.unknown-atom",
        "dispatch.artifact-missing",
        "verify.inadmissible",
        "verify.no-verifier",
        "run.not-a-service",
        "run.unknown-gate",
        "submission.self-completion",
        "submission.unknown-dispatch",
    ];
    assert(r@.map_values(|s: &'static str| s@) =~= refusal_rules());
    r
}

/// The requirements answered from the authority context, which cannot hold
/// in a scratch program no human has touched.
pub open spec fn human_dependent() -> Seq<Seq<char>> {
    seq![
        "exact authorized Contract Revision"@,
        "no required unknown remains"@,
        "no blocker remains"@,
        "required judgments exist"@,
        "residual risks have sufficient authority"@,
        "resolver holds the role"@,
    ]
}

/// The human-dependent requirements, in their fixed order.
pub fn human_dependent_requirements() -> (r: Vec<&'static str>)
    ensures
        r@.map_values(|s: &'static str| s@) == human_dependent(),
{
    let r = vec![
        "exact authorized Contract Revision",
        "no required unknown remains",
        "no blocker remains",
        "required judgments exist",
        "residual risks have sufficient authority",
        "resolver holds the role",
    ];
    assert(r@.map_values(|s: &'static str| s@) =~= human_dependent());
    r
}

fn member(list: &Vec<&'static str>, s: &str) -> (r: bool)
    ensures
        r == list@.map_values(|x: &'static str| x@).contains(s@),
{
    let ghost lv = list@.map_values(|x: &'static str| x@);
    let mut i: usize = 0;
    while i < list.len()
        invariant
            i <= list.len(),
            lv == list@.map_values(|x: &'static str| x@),
            forall|j: int| 0 <= j < i ==> lv[j] != s@,
        decreases list.len() - i,
    {
        if str_eq(list[i], s) {
            assert(lv[i as int] == s@);
            return true;
        }
        i = i + 1;
    }
    false
}

/// The first refusal rule `message` starts with, in list order.
pub open spec fn refusal_prefix_of(message: Seq<char>, rules: Seq<Seq<char>>) -> Option<Seq<char>>
    decreases rules.len(),
{
    if rules.len() == 0 {
        None
    } else if starts_with(message, rules[0]) {
        Some(rules[0])
    } else {
        refusal_prefix_of(message, rules.drop_first())
    }
}

/// A diagnostic of a child run's envelope: severity, rule, message.
#[derive(Debug, Clone, PartialEq, Eq)]
pub struct EnvelopeDiagnostic {
    pub severity: String,
    pub rule: String,
    pub message: String,
}

/// One report envelope from a child `war --json`.
#[derive(Debug, Clone, PartialEq, Eq)]
pub struct Envelope {
    pub exit_code: i64,
    pub verdict: String,
    pub diagnostics: Vec<EnvelopeDiagnostic>,
}

/// The rule of the first error diagnostic.
pub open spec fn first_error_of(ds: Seq<EnvelopeDiagnostic>) -> Option<Seq<char>>
    decreases ds.len(),
{
    if ds.len() == 0 {
        None
    } else if ds[0].severity@ == "error"@ {
        Some(ds[0].rule@)
    } else {
        first_error_of(ds.drop_first())
    }
}

/// The refusal an error diagnostic names: its rule when that is a refusal, or,
/// for a bare `cli.error`, the refusal its message starts with.
pub open spec fn refusal_in(d: EnvelopeDiagnostic) -> Option<Seq<char>> {
    if d.severity@ != "error"@ {
        None
    } else if refusal_rules().contains(d.rule@) {
        Some(d.rule@)
    } else if d.rule@ == "cli.error"@ {
        refusal_prefix_of(d.message@, refusal_rules())
    } else {
        None
    }
}

/// The first refusal the diagnostics name.
pub open spec fn refusal_of(ds: Seq<EnvelopeDiagnostic>) -> Option<Seq<char>>
    decreases ds.len(),
{
    if ds.len() == 0 {
        None
    } else {
        match refusal_in(ds[0]) {
            Some(r) => Some(r),
            None => refusal_of(ds.drop_first()),
        }
    }
}

pub open spec fn opt_view(o: Option<String>) -> Option<Seq<char>> {
    match o {
        Some(s) => Some(s@),
        None => None,
    }
}

impl Envelope {
    /// The rule of the first error diagnostic, when there was one.
    pub fn first_error_rule(&self) -> (r: Option<String>)
        ensures
            opt_view(r) == first_error_of(self.diagnostics@),
    {
        let ds = &self.diagnostics;
        let mut i: usize = 0;
        assert(ds@.skip(0) =~= ds@);
        while i < ds.len()
            invariant
                i <= ds.len(),
                ds@ == self.diagnostics@,
                first_error_of(ds@) == first_error_of(ds@.skip(i as int)),
            decreases ds.len() - i,
        {
            proof {
                assert(ds@.skip(i as int)[0] == ds@[i as int]);
                assert(ds@.skip(i as int).drop_first() =~= ds@.skip(i + 1));
            }
            if str_eq(ds[i].severity.as_str(), "error") {
                let r = string_of(&chars_of(ds[i].rule.as_str()));
                proof {
                    let t = ds@.skip(i as int);
                    assert(t.len() > 0);
                    assert(first_error_of(t) == Some(t[0].rule@));
                }
                return Some(r);
            }
            i = i + 1;
        }
        proof {
            assert(ds@.skip(i as int).len() == 0);
        }
        None
    }

    /// The refusal this envelope names, if any: a diagnostic rule from the
    /// list, or a bare `cli.error` whose message starts with one.
    pub fn refusal(&self) -> (r: Option<String>)
        ensures
            opt_view(r) == refusal_of(self.diagnostics@),
    {
        let rules = refusals();
        let ds = &self.diagnostics;
        let mut i: usize = 0;
        assert(ds@.skip(0) =~= ds@);
        while i < ds.len()
            invariant
                i <= ds.len(),
                ds@ == self.diagnostics@,
                rules@.map_values(|s: &'static str| s@) == refusal_rules(),
                refusal_of(ds@) == refusal_of(ds@.skip(i as int)),
            decreases ds.len() - i,
        {
            proof {
                assert(ds@.skip(i as int)[0] == ds@[i as int]);
                assert(ds@.skip(i as int).drop_first() =~= ds@.skip(i + 1));
            }
            let d = &ds[i];
            if str_eq(d.severity.as_str(), "error") {
                if member(&rules, d.rule.as_str()) {
                    let r = string_of(&chars_of(d.rule.as_str()));
                    proof {
                        let t = ds@.skip(i as int);
                        assert(t.len() > 0);
                        assert(refusal_in(t[0]) == Some(d.rule@));
                        assert(refusal_of(t) == Some(d.rule@));
                    }
                    return Some(r);
                }
                if str_eq(d.rule.as_str(), "cli.error") {
                    let m = chars_of(d.message.as_str());
                    let mut k: usize = 0;
                    assert(refusal_rules().skip(0) =~= refusal_rules());
                    while k < rules.len()
                        invariant
                            k <= rules.len(),
                            i < ds.len(),
                            ds@ == self.diagnostics@,
                            *d == ds@[i as int],
                            d.severity@ == "error"@,
                            !refusal_rules().contains(d.rule@),
                            d.rule@ == "cli.error"@,
                            refusal_of(ds@) == refusal_of(ds@.skip(i as int)),
                            m@ == d.message@,
                            rules@.map_values(|s: &'static str| s@) == refusal_rules(),
                            refusal_prefix_of(d.message@, refusal_rules()) == refusal_prefix_of(
                                d.message@,
                                refusal_rules().skip(k as int),
                            ),
                        decreases rules.len() - k,
                    {
                        proof {
                            let t = refusal_rules().skip(k as int);
                            assert(t[0] == rules@[k as int]@);
                            assert(t.drop_first() =~= refusal_rules().skip(k + 1));
                        }
                        if crate::text::starts_lit(&m, rules[k]) {
                            let r = string_of(&chars_of(rules[k]));
                            proof {
                                let t = ds@.skip(i as int);
                                assert(t.len() > 0);
                                assert(t[0] == *d);
                                assert(!refusal_rules().contains(d.rule@));
                                assert(refusal_in(t[0]) == Some(r@));
                                assert(refusal_of(t) == Some(r@));
                            }
                            return Some(r);
                        }
                        k = k + 1;
                    }
                    proof {
                        assert(refusal_rules().skip(k as int).len() == 0);
                    }
                }
            }
            i = i + 1;
        }
        proof {
            assert(ds@.skip(i as int).len() == 0);
        }
        None
    }

    /// The step this envelope records under `name`.
    pub fn step(&self, name: &str) -> (r: Step)
        ensures
            r.name@ == name@,
            r.exit_code == self.exit_code,
            r.verdict@ == self.verdict@,
            opt_view(r.rule) == first_error_of(self.diagnostics@),
    {
        Step {
            name: string_of(&chars_of(name)),
            exit_code: self.exit_code,
            verdict: string_of(&chars_of(self.verdict.as_str())),
            rule: self.first_error_rule(),
        }
    }
}

/// The unmet requirements that do not depend on a human act, in order.
pub open spec fn unmet_by_loop(unmet: Seq<Seq<char>>) -> Seq<Seq<char>> {
    unmet.filter(|u: Seq<char>| !human_dependent().contains(u))
}

/// What the loop itself left undone: the unmet requirements that no human
/// act could have met.
pub fn requirements_unmet_by_the_loop(unmet: &Vec<String>) -> (r: Vec<String>)
    ensures
        r@.map_values(|s: String| s@) == unmet_by_loop(unmet@.map_values(|s: String| s@)),
{
    let hd = human_dependent_requirements();
    let ghost uv = unmet@.map_values(|s: String| s@);
    let mut out: Vec<String> = Vec::new();
    let mut i: usize = 0;
    while i < unmet.len()
        invariant
            i <= unmet.len(),
            uv == unmet@.map_values(|s: String| s@),
            hd@.map_values(|s: &'static str| s@) == human_dependent(),
            out@.map_values(|s: String| s@) == unmet_by_loop(uv.take(i as int)),
        decreases unmet.len() - i,
    {
        proof {
            assert(uv.take(i + 1).drop_last() =~= uv.take(i as int));
            assert(uv.take(i + 1).last() == unmet@[i as int]@);
            reveal(Seq::filter);
        }
        let ghost before = out@;
        if !member(&hd, unmet[i].as_str()) {
            let s = string_of(&chars_of(unmet[i].as_str()));
            out.push(s);
            proof {
                assert(out@.map_values(|s: String| s@) =~= before.map_values(|s: String| s@).push(
                    s@,
                ));
            }
        }
        i = i + 1;
    }
    proof {
        assert(uv.take(unmet.len() as int) =~= uv);
    }
    out
}

/// The rung a loop that ran to the end reached: over budget first, then
/// would-satisfy when a resolution would be satisfied and nothing the loop
/// owed is unmet, else partial.
pub open spec fn spec_final_score(
    total_tokens: u64,
    max_tokens: u64,
    would_resolve_satisfied: Option<bool>,
    unmet_by_the_loop: nat,
) -> Score {
    if total_tokens > max_tokens {
        Score::OverBudget
    } else if would_resolve_satisfied == Some(true) && unmet_by_the_loop == 0 {
        Score::WouldSatisfy
    } else {
        Score::Partial
    }
}

/// The score of a loop that ran to the end.
pub fn final_score(
    total_tokens: u64,
    max_tokens: u64,
    would_resolve_satisfied: Option<bool>,
    unmet_by_the_loop: usize,
) -> (r: Score)
    ensures
        r == spec_final_score(
            total_tokens,
            max_tokens,
            would_resolve_satisfied,
            unmet_by_the_loop as nat,
        ),
{
    if total_tokens > max_tokens {
        Score::OverBudget
    } else if would_resolve_satisfied == Some(true) && unmet_by_the_loop == 0 {
        Score::WouldSatisfy
    } else {
        Score::Partial
    }
}

/// Whether a result met its task's expectation.
pub fn as_expected(score: Score, expected: &str) -> (r: bool)
    ensures
        r == (score.spec_name() == expected@),
{
    str_eq(score.name(), expected)
}

/// How a task moved between the baseline and a new result.
#[derive(Debug, Clone, Copy, PartialEq, Eq, Structural)]
pub enum Movement {
    /// The same rung both times.
    Same,
    /// It met its expectation before and no longer does.
    Regressed,
    /// It meets its expectation now and did not before.
    Improved,
    /// It moved, and neither run met the expectation (or both did).
    Moved,
}

pub open spec fn spec_movement(
    base: Score,
    base_as_expected: bool,
    now: Score,
    now_as_expected: bool,
) -> Movement {
    if base == now {
        Movement::Same
    } else if base_as_expected && !now_as_expected {
        Movement::Regressed
    } else if !base_as_expected && now_as_expected {
        Movement::Improved
    } else {
        Movement::Moved
    }
}

/// The movement of one task between the baseline and the result.
pub fn movement(base: Score, base_as_expected: bool, now: Score, now_as_expected: bool) -> (r:
    Movement)
    ensures
        r == spec_movement(base, base_as_expected, now, now_as_expected),
{
    if base == now {
        Movement::Same
    } else if base_as_expected && !now_as_expected {
        Movement::Regressed
    } else if !base_as_expected && now_as_expected {
        Movement::Improved
    } else {
        Movement::Moved
    }
}

impl Movement {
    pub open spec fn spec_rule(self) -> Seq<char> {
        match self {
            Movement::Same => "eval.same"@,
            Movement::Regressed => "eval.regressed"@,
            Movement::Improved => "eval.improved"@,
            Movement::Moved => "eval.moved"@,
        }
    }

    /// The diagnostic rule the movement is reported under.
    pub fn rule(self) -> (r: &'static str)
        ensures
            r@ == self.spec_rule(),
    {
        match self {
            Movement::Same => "eval.same",
            Movement::Regressed => "eval.regressed",
            Movement::Improved => "eval.improved",
            Movement::Moved => "eval.moved",
        }
    }
}

/// `count rung` for each rung, comma-separated, in the order given.
pub open spec fn spec_ladder_line(ladder: Seq<(Seq<char>, nat)>) -> Seq<char>
    decreases ladder.len(),
{
    if ladder.len() == 0 {
        seq![]
    } else if ladder.len() == 1 {
        decimal(ladder[0].1) + " "@ + ladder[0].0
    } else {
        spec_ladder_line(ladder.drop_last()) + ", "@ + decimal(ladder.last().1) + " "@
            + ladder.last().0
    }
}

/// The ladder in one line: `2 partial, 3 would_satisfy`.
pub fn ladder_line(ladder: &Vec<(String, u64)>) -> (r: String)
    ensures
        r@ == spec_ladder_line(ladder@.map_values(|e: (String, u64)| (e.0@, e.1 as nat))),
{
    let ghost lv = ladder@.map_values(|e: (String, u64)| (e.0@, e.1 as nat));
    let mut v: Vec<char> = Vec::new();
    let mut i: usize = 0;
    while i < ladder.len()
        invariant
            i <= ladder.len(),
            lv == ladder@.map_values(|e: (String, u64)| (e.0@, e.1 as nat)),
            v@ == spec_ladder_line(lv.take(i as int)),
        decreases ladder.len() - i,
    {
        proof {
            assert(lv.take(i + 1).drop_last() =~= lv.take(i as int));
        }
        if i > 0 {
            push_str(&mut v, ", ");
        }
        push_decimal(&mut v, ladder[i].1);
        push_str(&mut v, " ");
        push_str(&mut v, ladder[i].0.as_str());
        proof {
            let t = lv.take(i + 1);
            assert(t.last() == (ladder@[i as int].0@, ladder@[i as int].1 as nat));
            if i == 0 {
                assert(t.len() == 1);
                assert(lv.take(0).len() == 0);
            }
            assert(v@ =~= spec_ladder_line(t));
        }
        i = i + 1;
    }
    proof {
        assert(lv.take(ladder.len() as int) =~= lv);
    }
    string_of(&v)
}

// ---------------------------------------------------------------------------
// The loop one task runs
// ---------------------------------------------------------------------------

/// The steps of one task's loop in a scratch program. `Assess` is the
/// in-process assessment of what a resolution would say.
#[derive(Debug, Clone, Copy, PartialEq, Eq, Structural)]
pub enum EvalStep {
    Plan,
    Check,
    Dispatch,
    Run,
    Compile,
    EvidenceRecord,
    Perform,
    CompileAfterPerform,
    Verify,
    EvidenceAfterReview,
    Assess,
}

/// What one step came to: the refusal rule it was stopped by, if any, and
/// whether it did what the loop needs of it to go on (a plan that names an
/// alias, a check after which a stage can be dispatched, a performer that
/// exited 0).
#[derive(Debug, Clone, PartialEq, Eq)]
pub struct StepOutcome {
    pub refusal: Option<String>,
    pub usable: bool,
}

/// What the loop does next: the next step, or stop with a score (and the
/// refusal that stopped it, if one did).
#[derive(Debug, Clone, PartialEq, Eq)]
pub enum EvalNext {
    Go(EvalStep),
    Stop { score: Score, refusal: Option<String> },
}

/// Whether a named refusal after this step stops the loop.
pub open spec fn refusal_stops(step: EvalStep) -> bool {
    step == EvalStep::Plan || step == EvalStep::Dispatch || step == EvalStep::Run || step == EvalStep::Verify
}

/// The step after `step` for a task of `kind`, when it went on. A `run`
/// task runs its service, compiles, records evidence and then performs; any
/// other task performs first, then compiles and records evidence. A
/// document task records evidence again after the blind verification.
pub open spec fn spec_following(kind: Seq<char>, step: EvalStep) -> EvalStep {
    let run = kind == "run"@;
    match step {
        EvalStep::Plan => EvalStep::Check,
        EvalStep::Check => EvalStep::Dispatch,
        EvalStep::Dispatch => if run { EvalStep::Run } else { EvalStep::Perform },
        EvalStep::Run => EvalStep::Compile,
        EvalStep::Compile => EvalStep::EvidenceRecord,
        EvalStep::EvidenceRecord => if run { EvalStep::Perform } else { EvalStep::Verify },
        EvalStep::Perform => if run { EvalStep::CompileAfterPerform } else { EvalStep::Compile },
        EvalStep::CompileAfterPerform => EvalStep::Verify,
        EvalStep::Verify => if kind == "document"@ { EvalStep::EvidenceAfterReview } else { EvalStep::Assess },
        EvalStep::EvidenceAfterReview => EvalStep::Assess,
        EvalStep::Assess => EvalStep::Assess,
    }
}

/// The decision after a step: a named refusal where one stops the loop
/// scores `refused`; a plan with no alias, a check after which no stage can
/// be dispatched, or a performer that failed stops it as `errored`;
/// otherwise the loop goes on to the next step.
pub open spec fn spec_after(kind: Seq<char>, step: EvalStep, outcome: StepOutcome) -> EvalNext {
    if refusal_stops(step) && outcome.refusal is Some {
        EvalNext::Stop { score: Score::Refused, refusal: outcome.refusal }
    } else if (step == EvalStep::Plan || step == EvalStep::Check || step == EvalStep::Perform) && !outcome.usable {
        EvalNext::Stop { score: Score::Errored, refusal: None }
    } else {
        EvalNext::Go(spec_following(kind, step))
    }
}

/// What the loop does after `step` came to `outcome`, for a task of `kind`.
pub fn eval_after(kind: &str, step: EvalStep, outcome: StepOutcome) -> (r: EvalNext)
    requires
        step != EvalStep::Assess,
    ensures
        r == spec_after(kind@, step, outcome),
{
    let run = str_eq(kind, "run");
    let stops = match step {
        EvalStep::Plan | EvalStep::Dispatch | EvalStep::Run | EvalStep::Verify => true,
        _ => false,
    };
    if stops && outcome.refusal.is_some() {
        return EvalNext::Stop { score: Score::Refused, refusal: outcome.refusal };
    }
    let gated = match step {
        EvalStep::Plan | EvalStep::Check | EvalStep::Perform => true,
        _ => false,
    };
    if gated && !outcome.usable {
        return EvalNext::Stop { score: Score::Errored, refusal: None };
    }
    let next = match step {
        EvalStep::Plan => EvalStep::Check,
        EvalStep::Check => EvalStep::Dispatch,
        EvalStep::Dispatch => if run { EvalStep::Run } else { EvalStep::Perform },
        EvalStep::Run => EvalStep::Compile,
        EvalStep::Compile => EvalStep::EvidenceRecord,
        EvalStep::EvidenceRecord => if run { EvalStep::Perform } else { EvalStep::Verify },
        EvalStep::Perform => if run { EvalStep::CompileAfterPerform } else { EvalStep::Compile },
        EvalStep::CompileAfterPerform => EvalStep::Verify,
        EvalStep::Verify => if str_eq(kind, "document") { EvalStep::EvidenceAfterReview } else { EvalStep::Assess },
        EvalStep::EvidenceAfterReview => EvalStep::Assess,
        EvalStep::Assess => EvalStep::Assess,
    };
    EvalNext::Go(next)
}

/// The `war` arguments of a step (none for the in-process assessment and
/// the performer, which is not `war`), for Warrant `alias`, stage `stage`,
/// the task's sentence and the dispatch file.
pub open spec fn spec_war_args(step: EvalStep, sentence: Seq<char>, alias: Seq<char>, stage: Seq<char>, dispatch_path: Seq<char>) -> Seq<Seq<char>> {
    match step {
        EvalStep::Plan => seq!["plan"@, sentence, "--draft"@, "--apply"@, "--reviewed"@],
        EvalStep::Check => seq!["check"@, alias],
        EvalStep::Dispatch => seq!["dispatch"@, alias, stage, "--emit"@, dispatch_path],
        EvalStep::Run => seq!["run"@, alias, stage],
        EvalStep::Compile | EvalStep::CompileAfterPerform => seq!["compile"@],
        EvalStep::EvidenceRecord | EvalStep::EvidenceAfterReview => seq!["evidence"@, "record"@, alias],
        EvalStep::Verify => seq!["verify"@, alias, "--performer"@, "eval-performer"@, "--run"@],
        EvalStep::Perform | EvalStep::Assess => seq![],
    }
}

fn owned(s: &str) -> (r: String)
    ensures
        r@ == s@,
{
    string_of(&chars_of(s))
}

/// The `war` arguments of a step.
pub fn war_args(step: EvalStep, sentence: &str, alias: &str, stage: &str, dispatch_path: &str) -> (r: Vec<String>)
    ensures
        strs(r@) == spec_war_args(step, sentence@, alias@, stage@, dispatch_path@),
{
    let v: Vec<String> = match step {
        EvalStep::Plan => vec![owned("plan"), owned(sentence), owned("--draft"), owned("--apply"), owned("--reviewed")],
        EvalStep::Check => vec![owned("check"), owned(alias)],
        EvalStep::Dispatch => vec![owned("dispatch"), owned(alias), owned(stage), owned("--emit"), owned(dispatch_path)],
        EvalStep::Run => vec![owned("run"), owned(alias), owned(stage)],
        EvalStep::Compile | EvalStep::CompileAfterPerform => vec![owned("compile")],
        EvalStep::EvidenceRecord | EvalStep::EvidenceAfterReview => vec![owned("evidence"), owned("record"), owned(alias)],
        EvalStep::Verify => vec![owned("verify"), owned(alias), owned("--performer"), owned("eval-performer"), owned("--run")],
        EvalStep::Perform | EvalStep::Assess => Vec::new(),
    };
    proof {
        assert(strs(v@) =~= spec_war_args(step, sentence@, alias@, stage@, dispatch_path@));
    }
    v
}

/// The name a step is recorded under.
pub open spec fn spec_step_name(step: EvalStep) -> Seq<char> {
    match step {
        EvalStep::Plan => "plan.apply"@,
        EvalStep::Check => "check"@,
        EvalStep::Dispatch => "dispatch"@,
        EvalStep::Run => "run"@,
        EvalStep::Compile => "compile"@,
        EvalStep::EvidenceRecord => "evidence.record"@,
        EvalStep::Perform => "perform"@,
        EvalStep::CompileAfterPerform => "compile.after-perform"@,
        EvalStep::Verify => "verify.run"@,
        EvalStep::EvidenceAfterReview => "evidence.record.after-review"@,
        EvalStep::Assess => "assess"@,
    }
}

/// The name a step is recorded under.
pub fn step_name(step: EvalStep) -> (r: &'static str)
    ensures
        r@ == spec_step_name(step),
{
    match step {
        EvalStep::Plan => "plan.apply",
        EvalStep::Check => "check",
        EvalStep::Dispatch => "dispatch",
        EvalStep::Run => "run",
        EvalStep::Compile => "compile",
        EvalStep::EvidenceRecord => "evidence.record",
        EvalStep::Perform => "perform",
        EvalStep::CompileAfterPerform => "compile.after-perform",
        EvalStep::Verify => "verify.run",
        EvalStep::EvidenceAfterReview => "evidence.record.after-review",
        EvalStep::Assess => "assess",
    }
}

/// A named refusal at a step that checks for one always scores `refused`.
pub proof fn lemma_refusal_scores_refused(kind: Seq<char>, step: EvalStep, outcome: StepOutcome)
    requires
        refusal_stops(step),
        outcome.refusal is Some,
    ensures
        spec_after(kind, step, outcome) == (EvalNext::Stop { score: Score::Refused, refusal: outcome.refusal }),
{
}

/// The place of a step in the loop of a task of `kind`.
pub open spec fn step_rank(kind: Seq<char>, step: EvalStep) -> nat {
    let run = kind == "run"@;
    match step {
        EvalStep::Plan => 0,
        EvalStep::Check => 1,
        EvalStep::Dispatch => 2,
        EvalStep::Run => 3,
        EvalStep::Compile => 4,
        EvalStep::EvidenceRecord => 5,
        EvalStep::Perform => if run { 6 } else { 3 },
        EvalStep::CompileAfterPerform => 7,
        EvalStep::Verify => 8,
        EvalStep::EvidenceAfterReview => 9,
        EvalStep::Assess => 10,
    }
}

/// Every step but the assessment is followed by a step of higher rank, so
/// the loop cannot go round.
pub proof fn lemma_loop_progresses(kind: Seq<char>, step: EvalStep)
    requires
        step != EvalStep::Assess,
    ensures
        step_rank(kind, spec_following(kind, step)) > step_rank(kind, step),
{
}

// ---------------------------------------------------------------------------
// Loading tasks and running the performer
// ---------------------------------------------------------------------------

/// Why a task file is not an eval task this harness runs: another schema,
/// or a kind other than code, document or run.
pub open spec fn spec_task_refusal(task_file: Seq<char>, schema: Seq<char>, kind: Seq<char>) -> Option<Seq<char>> {
    if schema != TASK_SCHEMA@ {
        Some(task_file + ": schema is "@ + schema + ", not "@ + TASK_SCHEMA@)
    } else if kind != "code"@ && kind != "document"@ && kind != "run"@ {
        Some(task_file + ": kind is "@ + kind + "; code, document or run"@)
    } else {
        None
    }
}

pub fn task_refusal(task_file: &str, schema: &str, kind: &str) -> (r: Option<String>)
    ensures
        match (r, spec_task_refusal(task_file@, schema@, kind@)) {
            (Some(a), Some(b)) => a@ == b,
            (None, None) => true,
            _ => false,
        },
{
    if !str_eq(schema, TASK_SCHEMA) {
        let mut m = chars_of(task_file);
        push_str(&mut m, ": schema is ");
        push_str(&mut m, schema);
        push_str(&mut m, ", not ");
        push_str(&mut m, TASK_SCHEMA);
        Some(string_of(&m))
    } else if !str_eq(kind, "code") && !str_eq(kind, "document") && !str_eq(kind, "run") {
        let mut m = chars_of(task_file);
        push_str(&mut m, ": kind is ");
        push_str(&mut m, kind);
        push_str(&mut m, "; code, document or run");
        Some(string_of(&m))
    } else {
        None
    }
}

/// The error when no task was found: the one asked for, or any.
pub fn no_tasks(only: Option<&str>, dir: &str) -> (r: String)
    ensures
        r@ == match only {
            Some(o) => "no task named "@ + o@ + " under "@ + dir@,
            None => "no tasks under "@ + dir@,
        },
{
    match only {
        Some(o) => {
            let mut m = chars_of("no task named ");
            push_str(&mut m, o);
            push_str(&mut m, " under ");
            push_str(&mut m, dir);
            string_of(&m)
        },
        None => {
            let mut m = chars_of("no tasks under ");
            push_str(&mut m, dir);
            string_of(&m)
        },
    }
}

/// The first stage of a milestones graph a task of `kind` starts at: any
/// stage, or for a run task the first service stage. `stages` holds each
/// stage's identifier and whether its executor is a service.
pub open spec fn spec_first_stage(stages: Seq<(Seq<char>, bool)>, kind: Seq<char>) -> Option<Seq<char>>
    decreases stages.len(),
{
    if stages.len() == 0 {
        None
    } else if kind != "run"@ || stages[0].1 {
        Some(stages[0].0)
    } else {
        spec_first_stage(stages.drop_first(), kind)
    }
}

pub fn first_stage(stages: &Vec<(String, bool)>, kind: &str) -> (r: Option<String>)
    ensures
        match (r, spec_first_stage(stages@.map_values(|s: (String, bool)| (s.0@, s.1)), kind@)) {
            (Some(a), Some(b)) => a@ == b,
            (None, None) => true,
            _ => false,
        },
{
    let ghost all = stages@.map_values(|s: (String, bool)| (s.0@, s.1));
    let want_service = str_eq(kind, "run");
    let mut i: usize = 0;
    proof {
        assert(all.skip(0) =~= all);
    }
    while i < stages.len()
        invariant
            i <= stages.len(),
            all == stages@.map_values(|s: (String, bool)| (s.0@, s.1)),
            want_service == (kind@ == "run"@),
            spec_first_stage(all, kind@) == spec_first_stage(all.skip(i as int), kind@),
        decreases stages.len() - i,
    {
        proof {
            assert(all.skip(i as int)[0] == all[i as int]);
            assert(all.skip(i as int).drop_first() =~= all.skip(i + 1));
        }
        if !want_service || stages[i].1 {
            return Some(string_of(&chars_of(stages[i].0.as_str())));
        }
        i = i + 1;
    }
    proof {
        assert(all.skip(stages.len() as int).len() == 0);
    }
    None
}

/// Whether one of the texts holds the address of gate `key`.
pub fn cites_gate(texts: &Vec<String>, key: &str) -> (r: bool)
    ensures
        r == exists|i: int| 0 <= i < texts.len() && crate::text::contains(#[trigger] texts@[i]@, "gate://"@ + key@),
{
    let mut needle = chars_of("gate://");
    push_str(&mut needle, key);
    let mut i: usize = 0;
    while i < texts.len()
        invariant
            i <= texts.len(),
            needle@ == "gate://"@ + key@,
            forall|j: int| 0 <= j < i ==> !crate::text::contains(#[trigger] texts@[j]@, "gate://"@ + key@),
        decreases texts.len() - i,
    {
        let t = chars_of(texts[i].as_str());
        if crate::text::occurs(&t, &needle) {
            return true;
        }
        i = i + 1;
    }
    false
}

/// The performer's program made absolute: a relative program that names a
/// path, or a file of the repository, is taken from the repository's root.
pub open spec fn spec_program_path(root: Seq<char>, first: Seq<char>, file_in_root: bool) -> Seq<char> {
    if !(first.len() > 0 && first[0] == '/') && (first.contains('/') || file_in_root) {
        crate::text::path_join(root, first)
    } else {
        first
    }
}

pub fn program_path(root: &str, first: &str, file_in_root: bool) -> (r: String)
    ensures
        r@ == spec_program_path(root@, first@, file_in_root),
{
    let f = chars_of(first);
    let absolute = f.len() > 0 && f[0] == '/';
    if !absolute && (crate::text::has_char(&f, '/') || file_in_root) {
        let p = crate::text::join_path(&chars_of(root), &f);
        string_of(&p)
    } else {
        string_of(&f)
    }
}

/// The commit a run is recorded against: what `git rev-parse --short HEAD`
/// printed, trimmed, or `nogit` when it printed nothing or failed.
pub fn short_sha(output: Option<&str>) -> (r: String)
    ensures
        r@ == match output {
            Some(o) => if crate::text::trim(o@).len() > 0 {
                crate::text::trim(o@)
            } else {
                "nogit"@
            },
            None => "nogit"@,
        },
{
    match output {
        Some(o) => {
            let t = crate::text::trimmed(&chars_of(o));
            if t.len() > 0 {
                string_of(&t)
            } else {
                string_of(&chars_of("nogit"))
            }
        },
        None => string_of(&chars_of("nogit")),
    }
}

/// What a performer killed at its deadline is recorded with.
pub fn killed_after(max_wall_secs: u64) -> (r: String)
    ensures
        r@ == "killed after "@ + decimal((if max_wall_secs > 1 { max_wall_secs } else { 1 }) as nat) + "s"@,
{
    let secs = if max_wall_secs > 1 { max_wall_secs } else { 1 };
    let mut m = chars_of("killed after ");
    push_decimal(&mut m, secs);
    push_str(&mut m, "s");
    string_of(&m)
}

} // verus!
