//! `war console`: one screen for everything a human owes.
//!
//! Acts awaiting a signature as a numbered checklist, the questions an agent
//! asked, the stages an agent could start, and the signer's presets. The
//! screen drafts; it never signs. Each checked row still goes through the
//! signer's own ssh confirmation.

use vstd::prelude::*;

use crate::text::{
    chars_of, decimal, is_digit_char, push_all, push_decimal, push_str, string_of, trim, trimmed,
};

verus! {

pub const SCHEMA: &'static str = "oh.war/console/v1";

/// An act the records say awaits a signature.
#[derive(Debug, Clone, PartialEq, Eq)]
pub enum Pending {
    Authorize { alias: String },
    Resolve { alias: String },
    Accept { version: String },
    Correct { alias: String, deliverable_id: String },
}

/// What the screen is made of.
#[derive(Debug, Clone, PartialEq, Eq)]
pub struct Board {
    pub schema: String,
    /// Acts awaiting a signature, in the order the screen numbers them.
    pub acts: Vec<Act>,
    /// Open questions, blocking first.
    pub questions: Vec<Question>,
    /// Stages an agent could start now.
    pub stages: Vec<Stage>,
    pub presets: Vec<Preset>,
}

#[derive(Debug, Clone, PartialEq, Eq)]
pub struct Act {
    /// The number pressed to check it.
    pub n: usize,
    /// `authorize`, `resolve`, `accept` or `correct`.
    pub act: String,
    /// What `war sign <target>` takes.
    pub target: String,
    pub line: String,
    /// The command this row becomes.
    pub command: String,
}

#[derive(Debug, Clone, PartialEq, Eq)]
pub struct Question {
    pub warrant: String,
    pub id: String,
    pub blocking: bool,
    pub question: String,
    pub recommended: String,
    pub command: String,
}

#[derive(Debug, Clone, PartialEq, Eq)]
pub struct Stage {
    pub warrant: String,
    pub stage: String,
    pub title: String,
    pub executor_kind: String,
    pub command: String,
}

#[derive(Debug, Clone, PartialEq, Eq)]
pub struct Preset {
    pub key: String,
    pub label: String,
    pub acts: Vec<String>,
}

pub open spec fn spec_act_of(p: Pending) -> Seq<char> {
    match p {
        Pending::Authorize { .. } => "authorize"@,
        Pending::Resolve { .. } => "resolve"@,
        Pending::Accept { .. } => "accept"@,
        Pending::Correct { .. } => "correct"@,
    }
}

/// The act word of a pending row.
pub fn act_of(p: &Pending) -> (r: &'static str)
    ensures
        r@ == spec_act_of(*p),
{
    match p {
        Pending::Authorize { .. } => "authorize",
        Pending::Resolve { .. } => "resolve",
        Pending::Accept { .. } => "accept",
        Pending::Correct { .. } => "correct",
    }
}

pub open spec fn spec_target_of(p: Pending) -> Seq<char> {
    match p {
        Pending::Authorize { alias } => alias@,
        Pending::Resolve { alias } => alias@,
        Pending::Accept { version } => version@,
        Pending::Correct { alias, deliverable_id } => alias@ + "/"@ + deliverable_id@,
    }
}

/// What `war sign` takes for a pending row: the alias, the SAS version, or
/// `alias/deliverable` for a correction.
pub fn target_of(p: &Pending) -> (r: String)
    ensures
        r@ == spec_target_of(*p),
{
    let mut v: Vec<char> = Vec::new();
    match p {
        Pending::Authorize { alias } => push_str(&mut v, alias.as_str()),
        Pending::Resolve { alias } => push_str(&mut v, alias.as_str()),
        Pending::Accept { version } => push_str(&mut v, version.as_str()),
        Pending::Correct { alias, deliverable_id } => {
            push_str(&mut v, alias.as_str());
            push_str(&mut v, "/");
            push_str(&mut v, deliverable_id.as_str());
        },
    }
    string_of(&v)
}

pub open spec fn sign_command(target: Seq<char>) -> Seq<char> {
    "war sign "@ + target + " --ssh-sign"@
}

/// The row the screen numbers `i + 1` for a pending act with its queue line.
pub open spec fn act_row_of(i: int, p: Pending, line: Seq<char>, a: Act) -> bool {
    &&& a.n == i + 1
    &&& a.act@ == spec_act_of(p)
    &&& a.target@ == spec_target_of(p)
    &&& a.line@ == trim(line)
    &&& a.command@ == sign_command(spec_target_of(p))
}

/// The numbered checklist for the pending acts, each with the line the queue
/// prints for it.
pub fn acts_of(pending: &Vec<Pending>, lines: &Vec<String>) -> (r: Vec<Act>)
    requires
        pending.len() == lines.len(),
        pending.len() < usize::MAX,
    ensures
        r.len() == pending.len(),
        forall|i: int|
            0 <= i < r.len() ==> act_row_of(i, pending@[i], lines@[i]@, #[trigger] r@[i]),
{
    let mut out: Vec<Act> = Vec::new();
    let mut i: usize = 0;
    while i < pending.len()
        invariant
            i <= pending.len() == lines.len() < usize::MAX,
            out.len() == i,
            forall|j: int|
                0 <= j < i ==> act_row_of(j, pending@[j], lines@[j]@, #[trigger] out@[j]),
        decreases pending.len() - i,
    {
        let target = target_of(&pending[i]);
        let mut cmd = chars_of("war sign ");
        push_str(&mut cmd, target.as_str());
        push_str(&mut cmd, " --ssh-sign");
        let l = chars_of(lines[i].as_str());
        let a = Act {
            n: i + 1,
            act: string_of(&chars_of(act_of(&pending[i]))),
            target,
            line: string_of(&trimmed(&l)),
            command: string_of(&cmd),
        };
        out.push(a);
        i = i + 1;
    }
    out
}

/// The command that answers a question.
pub fn answer_command(warrant: &str, id: &str) -> (r: String)
    ensures
        r@ == "war answer "@ + warrant@ + " "@ + id@ + " \"…\" --as <you>"@,
{
    let mut v = chars_of("war answer ");
    push_str(&mut v, warrant);
    push_str(&mut v, " ");
    push_str(&mut v, id);
    push_str(&mut v, " \"…\" --as <you>");
    string_of(&v)
}

/// The command that starts a stage.
pub fn dispatch_command(warrant: &str, stage: &str) -> (r: String)
    ensures
        r@ == "war dispatch "@ + warrant@ + " "@ + stage@,
{
    let mut v = chars_of("war dispatch ");
    push_str(&mut v, warrant);
    push_str(&mut v, " ");
    push_str(&mut v, stage);
    string_of(&v)
}

/// The words that reach the record: the preset's meaning, the signer's
/// addition, both joined by a space, or neither, in which case `war sign`
/// falls back to its own draft.
pub fn compose_meaning(preset_meaning: Option<&str>, extra: Option<&str>) -> (r: Option<String>)
    ensures
        match (preset_meaning, extra) {
            (Some(p), Some(e)) => r matches Some(m) && m@ == p@ + " "@ + e@,
            (Some(p), None) => r matches Some(m) && m@ == p@,
            (None, Some(e)) => r matches Some(m) && m@ == e@,
            (None, None) => r is None,
        },
{
    match (preset_meaning, extra) {
        (Some(p), Some(e)) => {
            let mut v = chars_of(p);
            push_str(&mut v, " ");
            push_str(&mut v, e);
            Some(string_of(&v))
        },
        (Some(p), None) => Some(string_of(&chars_of(p))),
        (None, Some(e)) => Some(string_of(&chars_of(e))),
        (None, None) => None,
    }
}

// ---------------------------------------------------------------------------
// The screen
// ---------------------------------------------------------------------------

/// `s` right-aligned in a field of two.
pub open spec fn pad2(s: Seq<char>) -> Seq<char> {
    if s.len() >= 2 {
        s
    } else {
        Seq::new((2 - s.len()) as nat, |i: int| ' ') + s
    }
}

pub open spec fn mark(checked: Seq<usize>, n: usize) -> Seq<char> {
    if checked.contains(n) {
        "x"@
    } else {
        " "@
    }
}

pub open spec fn act_rows(acts: Seq<Act>, checked: Seq<usize>) -> Seq<char>
    decreases acts.len(),
{
    if acts.len() == 0 {
        seq![]
    } else {
        let a = acts.last();
        act_rows(acts.drop_last(), checked) + "   ["@ + mark(checked, a.n) + "] "@ + pad2(
            decimal(a.n as nat),
        ) + "  "@ + a.line@ + "\n"@
    }
}

pub open spec fn blocking_count(qs: Seq<Question>) -> nat
    decreases qs.len(),
{
    if qs.len() == 0 {
        0
    } else {
        blocking_count(qs.drop_last()) + if qs.last().blocking {
            1nat
        } else {
            0nat
        }
    }
}

pub open spec fn question_rows(qs: Seq<Question>) -> Seq<char>
    decreases qs.len(),
{
    if qs.len() == 0 {
        seq![]
    } else {
        let q = qs.last();
        question_rows(qs.drop_last()) + "   "@ + (if q.blocking {
            "!"@
        } else {
            "·"@
        }) + " "@ + q.warrant@ + " "@ + q.id@ + (if q.recommended@.len() == 0 {
            seq![]
        } else {
            "  (a recommendation is offered)"@
        }) + "\n"@ + "        "@ + q.question@ + "\n"@
    }
}

pub open spec fn stage_rows(sts: Seq<Stage>) -> Seq<char>
    decreases sts.len(),
{
    if sts.len() == 0 {
        seq![]
    } else {
        let st = sts.last();
        stage_rows(sts.drop_last()) + "   · "@ + st.warrant@ + " "@ + st.stage@ + " ["@
            + st.executor_kind@ + "] "@ + st.title@ + "\n"@
    }
}

/// `key=label` for each preset, two spaces apart.
pub open spec fn spec_preset_line(ps: Seq<Preset>) -> Seq<char>
    decreases ps.len(),
{
    if ps.len() == 0 {
        seq![]
    } else if ps.len() == 1 {
        ps[0].key@ + "="@ + ps[0].label@
    } else {
        spec_preset_line(ps.drop_last()) + "  "@ + ps.last().key@ + "="@ + ps.last().label@
    }
}

pub open spec fn keys_help(rows: nat) -> Seq<char> {
    "\n  1-"@ + decimal(if rows > 1 {
        rows
    } else {
        1
    })
        + "  check a row      a  all      n  none\n  s     sign the checked rows (one ssh dialog each)\n  q     answer the questions      r  start the stages\n  c     write the commit message      <Enter>  refresh      x  exit\n"@
}

pub open spec fn acts_section(acts: Seq<Act>, checked: Seq<usize>) -> Seq<char> {
    if acts.len() == 0 {
        "\n  nothing awaits a signature.\n"@
    } else {
        "\n  acts awaiting your signature ("@ + decimal(checked.len()) + " checked of "@ + decimal(
            acts.len(),
        ) + ")\n"@ + act_rows(acts, checked)
    }
}

pub open spec fn questions_section(qs: Seq<Question>) -> Seq<char> {
    if qs.len() == 0 {
        seq![]
    } else {
        "\n  questions an agent asked you ("@ + decimal(qs.len()) + " open, "@ + decimal(
            blocking_count(qs),
        ) + " blocking)\n"@ + question_rows(qs)
    }
}

pub open spec fn stages_section(sts: Seq<Stage>) -> Seq<char> {
    if sts.len() == 0 {
        seq![]
    } else {
        "\n  stages an agent can start now ("@ + decimal(sts.len()) + ")\n"@ + stage_rows(sts)
    }
}

pub open spec fn presets_section(ps: Seq<Preset>) -> Seq<char> {
    if ps.len() == 0 {
        seq![]
    } else {
        "\n  presets: "@ + spec_preset_line(ps) + "\n"@
    }
}

/// The whole screen for a board with the rows in `checked` marked.
pub open spec fn spec_render(b: Board, checked: Seq<usize>) -> Seq<char> {
    "\n  OpenWarrant console\n"@ + acts_section(b.acts@, checked) + questions_section(
        b.questions@,
    ) + stages_section(b.stages@) + keys_help(b.acts@.len()) + presets_section(b.presets@)
}

fn contains_n(v: &Vec<usize>, n: usize) -> (r: bool)
    ensures
        r == v@.contains(n),
{
    let mut i: usize = 0;
    while i < v.len()
        invariant
            i <= v.len(),
            forall|j: int| 0 <= j < i ==> v@[j] != n,
        decreases v.len() - i,
    {
        if v[i] == n {
            assert(v@[i as int] == n);
            return true;
        }
        i = i + 1;
    }
    false
}

/// `key=label` for each preset, two spaces apart.
pub fn preset_line(presets: &Vec<Preset>) -> (r: String)
    ensures
        r@ == spec_preset_line(presets@),
{
    let mut v: Vec<char> = Vec::new();
    let mut i: usize = 0;
    while i < presets.len()
        invariant
            i <= presets.len(),
            v@ == spec_preset_line(presets@.take(i as int)),
        decreases presets.len() - i,
    {
        proof {
            assert(presets@.take(i + 1).drop_last() =~= presets@.take(i as int));
        }
        if i > 0 {
            push_str(&mut v, "  ");
        }
        push_str(&mut v, presets[i].key.as_str());
        push_str(&mut v, "=");
        push_str(&mut v, presets[i].label.as_str());
        proof {
            let t = presets@.take(i + 1);
            assert(t.last() == presets@[i as int]);
            if i == 0 {
                assert(t.len() == 1);
                assert(t[0] == presets@[0]);
                assert(presets@.take(0).len() == 0);
            }
            assert(v@ =~= spec_preset_line(t));
        }
        i = i + 1;
    }
    proof {
        assert(presets@.take(presets.len() as int) =~= presets@);
    }
    string_of(&v)
}

fn push_pad2(out: &mut Vec<char>, n: usize)
    ensures
        final(out)@ == old(out)@ + pad2(decimal(n as nat)),
{
    let d = crate::text::decimal_of(n as u64);
    if d.len() < 2 {
        out.push(' ');
        proof {
            assert(Seq::new((2 - d@.len()) as nat, |i: int| ' ') =~= seq![' ']);
        }
    }
    push_all(out, &d);
}

fn push_act_rows(out: &mut Vec<char>, acts: &Vec<Act>, checked: &Vec<usize>)
    ensures
        final(out)@ == old(out)@ + act_rows(acts@, checked@),
{
    let ghost mid = out@;
    let mut i: usize = 0;
    while i < acts.len()
        invariant
            i <= acts.len(),
            out@ == mid + act_rows(acts@.take(i as int), checked@),
        decreases acts.len() - i,
    {
        let a = &acts[i];
        push_str(out, "   [");
        if contains_n(checked, a.n) {
            push_str(out, "x");
        } else {
            push_str(out, " ");
        }
        push_str(out, "] ");
        push_pad2(out, a.n);
        push_str(out, "  ");
        push_str(out, a.line.as_str());
        push_str(out, "\n");
        proof {
            let t = acts@.take(i + 1);
            assert(t.drop_last() =~= acts@.take(i as int));
            assert(t.last() == acts@[i as int]);
            assert(out@ =~= mid + act_rows(t, checked@));
        }
        i = i + 1;
    }
    proof {
        assert(acts@.take(acts.len() as int) =~= acts@);
    }
}

fn count_blocking(qs: &Vec<Question>) -> (r: usize)
    ensures
        r == blocking_count(qs@),
{
    let mut blocking: usize = 0;
    let mut i: usize = 0;
    while i < qs.len()
        invariant
            i <= qs.len(),
            blocking <= i,
            blocking == blocking_count(qs@.take(i as int)),
        decreases qs.len() - i,
    {
        proof {
            assert(qs@.take(i + 1).drop_last() =~= qs@.take(i as int));
        }
        if qs[i].blocking {
            blocking = blocking + 1;
        }
        i = i + 1;
    }
    proof {
        assert(qs@.take(qs.len() as int) =~= qs@);
    }
    blocking
}

fn push_question_row(out: &mut Vec<char>, q: &Question)
    ensures
        final(out)@ == old(out)@ + "   "@ + (if q.blocking {
            "!"@
        } else {
            "·"@
        }) + " "@ + q.warrant@ + " "@ + q.id@ + (if q.recommended@.len() == 0 {
            seq![]
        } else {
            "  (a recommendation is offered)"@
        }) + "\n"@ + "        "@ + q.question@ + "\n"@,
{
    push_str(out, "   ");
    if q.blocking {
        push_str(out, "!");
    } else {
        push_str(out, "·");
    }
    push_str(out, " ");
    push_str(out, q.warrant.as_str());
    push_str(out, " ");
    push_str(out, q.id.as_str());
    if chars_of(q.recommended.as_str()).len() != 0 {
        push_str(out, "  (a recommendation is offered)");
    }
    push_str(out, "\n");
    push_str(out, "        ");
    push_str(out, q.question.as_str());
    push_str(out, "\n");
    proof {
        assert(out@ =~= old(out)@ + "   "@ + (if q.blocking {
            "!"@
        } else {
            "·"@
        }) + " "@ + q.warrant@ + " "@ + q.id@ + (if q.recommended@.len() == 0 {
            seq![]
        } else {
            "  (a recommendation is offered)"@
        }) + "\n"@ + "        "@ + q.question@ + "\n"@);
    }
}

fn push_question_rows(out: &mut Vec<char>, qs: &Vec<Question>)
    ensures
        final(out)@ == old(out)@ + question_rows(qs@),
{
    let ghost mid = out@;
    let mut i: usize = 0;
    while i < qs.len()
        invariant
            i <= qs.len(),
            out@ == mid + question_rows(qs@.take(i as int)),
        decreases qs.len() - i,
    {
        push_question_row(out, &qs[i]);
        proof {
            let t = qs@.take(i + 1);
            assert(t.drop_last() =~= qs@.take(i as int));
            assert(t.last() == qs@[i as int]);
            assert(out@ =~= mid + question_rows(t));
        }
        i = i + 1;
    }
    proof {
        assert(qs@.take(qs.len() as int) =~= qs@);
    }
}

fn push_stage_rows(out: &mut Vec<char>, sts: &Vec<Stage>)
    ensures
        final(out)@ == old(out)@ + stage_rows(sts@),
{
    let ghost mid = out@;
    let mut i: usize = 0;
    while i < sts.len()
        invariant
            i <= sts.len(),
            out@ == mid + stage_rows(sts@.take(i as int)),
        decreases sts.len() - i,
    {
        let st = &sts[i];
        push_str(out, "   · ");
        push_str(out, st.warrant.as_str());
        push_str(out, " ");
        push_str(out, st.stage.as_str());
        push_str(out, " [");
        push_str(out, st.executor_kind.as_str());
        push_str(out, "] ");
        push_str(out, st.title.as_str());
        push_str(out, "\n");
        proof {
            let t = sts@.take(i + 1);
            assert(t.drop_last() =~= sts@.take(i as int));
            assert(t.last() == sts@[i as int]);
            assert(out@ =~= mid + stage_rows(t));
        }
        i = i + 1;
    }
    proof {
        assert(sts@.take(sts.len() as int) =~= sts@);
    }
}

fn push_acts_section(out: &mut Vec<char>, acts: &Vec<Act>, checked: &Vec<usize>)
    ensures
        final(out)@ == old(out)@ + acts_section(acts@, checked@),
{
    if acts.len() == 0 {
        push_str(out, "\n  nothing awaits a signature.\n");
    } else {
        push_str(out, "\n  acts awaiting your signature (");
        push_decimal(out, checked.len() as u64);
        push_str(out, " checked of ");
        push_decimal(out, acts.len() as u64);
        push_str(out, ")\n");
        push_act_rows(out, acts, checked);
    }
    proof {
        assert(out@ =~= old(out)@ + acts_section(acts@, checked@));
    }
}

fn push_questions_section(out: &mut Vec<char>, qs: &Vec<Question>)
    ensures
        final(out)@ == old(out)@ + questions_section(qs@),
{
    if qs.len() > 0 {
        let blocking = count_blocking(qs);
        push_str(out, "\n  questions an agent asked you (");
        push_decimal(out, qs.len() as u64);
        push_str(out, " open, ");
        push_decimal(out, blocking as u64);
        push_str(out, " blocking)\n");
        push_question_rows(out, qs);
    }
    proof {
        assert(out@ =~= old(out)@ + questions_section(qs@));
    }
}

fn push_stages_section(out: &mut Vec<char>, sts: &Vec<Stage>)
    ensures
        final(out)@ == old(out)@ + stages_section(sts@),
{
    if sts.len() > 0 {
        push_str(out, "\n  stages an agent can start now (");
        push_decimal(out, sts.len() as u64);
        push_str(out, ")\n");
        push_stage_rows(out, sts);
    }
    proof {
        assert(out@ =~= old(out)@ + stages_section(sts@));
    }
}

fn push_keys_help(out: &mut Vec<char>, rows: usize)
    ensures
        final(out)@ == old(out)@ + keys_help(rows as nat),
{
    let n: usize = if rows > 1 { rows } else { 1 };
    push_str(out, "\n  1-");
    push_decimal(out, n as u64);
    push_str(
        out,
        "  check a row      a  all      n  none\n  s     sign the checked rows (one ssh dialog each)\n  q     answer the questions      r  start the stages\n  c     write the commit message      <Enter>  refresh      x  exit\n",
    );
    proof {
        assert(out@ =~= old(out)@ + keys_help(rows as nat));
    }
}

fn push_presets_section(out: &mut Vec<char>, ps: &Vec<Preset>)
    ensures
        final(out)@ == old(out)@ + presets_section(ps@),
{
    if ps.len() > 0 {
        push_str(out, "\n  presets: ");
        let pl = preset_line(ps);
        push_str(out, pl.as_str());
        push_str(out, "\n");
    }
    proof {
        assert(out@ =~= old(out)@ + presets_section(ps@));
    }
}

/// The screen, with the rows whose numbers are in `checked` marked.
pub fn render(b: &Board, checked: &Vec<usize>) -> (r: String)
    requires
        checked@.no_duplicates(),
    ensures
        r@ == spec_render(*b, checked@),
{
    let mut out: Vec<char> = Vec::new();
    push_str(&mut out, "\n  OpenWarrant console\n");
    let ghost s0 = out@;
    push_acts_section(&mut out, &b.acts, checked);
    let ghost s1 = out@;
    push_questions_section(&mut out, &b.questions);
    let ghost s2 = out@;
    push_stages_section(&mut out, &b.stages);
    let ghost s3 = out@;
    push_keys_help(&mut out, b.acts.len());
    let ghost s4 = out@;
    push_presets_section(&mut out, &b.presets);
    proof {
        assert(s0 == "\n  OpenWarrant console\n"@);
        assert(out@ =~= spec_render(*b, checked@));
    }
    string_of(&out)
}

// ---------------------------------------------------------------------------
// The selection
// ---------------------------------------------------------------------------

/// The row numbers of a board, each once, in the order of their first
/// row.
pub open spec fn row_numbers(acts: Seq<Act>) -> Seq<usize>
    decreases acts.len(),
{
    if acts.len() == 0 {
        seq![]
    } else {
        let r = row_numbers(acts.drop_last());
        if r.contains(acts.last().n) {
            r
        } else {
            r.push(acts.last().n)
        }
    }
}

/// Whether some row carries number `n`.
pub open spec fn has_row(acts: Seq<Act>, n: usize) -> bool {
    exists|i: int| 0 <= i < acts.len() && #[trigger] acts[i].n == n
}

fn row_exists(acts: &Vec<Act>, n: usize) -> (r: bool)
    ensures
        r == has_row(acts@, n),
{
    let mut i: usize = 0;
    while i < acts.len()
        invariant
            i <= acts.len(),
            forall|j: int| 0 <= j < i ==> acts@[j].n != n,
        decreases acts.len() - i,
    {
        if acts[i].n == n {
            return true;
        }
        i = i + 1;
    }
    false
}

proof fn lemma_filter_unique(s: Seq<usize>, p: spec_fn(usize) -> bool)
    ensures
        forall|x: usize| s.filter(p).contains(x) ==> s.contains(x),
        s.no_duplicates() ==> s.filter(p).no_duplicates(),
    decreases s.len(),
{
    reveal(Seq::filter);
    if s.len() > 0 {
        let d = s.drop_last();
        lemma_filter_unique(d, p);
        let f = d.filter(p);
        assert(s.filter(p) == if p(s.last()) { f.push(s.last()) } else { f });
        assert forall|x: usize| s.filter(p).contains(x) implies s.contains(x) by {
            let k = choose|k: int| 0 <= k < s.filter(p).len() && s.filter(p)[k] == x;
            if p(s.last()) && k == f.len() {
                assert(s[s.len() - 1] == x);
            } else {
                assert(f[k] == x);
                assert(f.contains(x));
                assert(d.contains(x));
                let j = choose|j: int| 0 <= j < d.len() && d[j] == x;
                assert(s[j] == x);
            }
        }
        if s.no_duplicates() {
            assert(d.no_duplicates()) by {
                assert forall|i: int, j: int| 0 <= i < d.len() && 0 <= j < d.len() && i != j implies d[i] != d[j] by {
                    assert(d[i] == s[i] && d[j] == s[j]);
                }
            }
            if p(s.last()) {
                assert(!f.contains(s.last())) by {
                    if f.contains(s.last()) {
                        assert(d.contains(s.last()));
                        let j = choose|j: int| 0 <= j < d.len() && d[j] == s.last();
                        assert(s[j] == s[s.len() - 1]);
                    }
                }
                assert forall|i: int, j: int| 0 <= i < f.len() + 1 && 0 <= j < f.len() + 1 && i != j implies f.push(s.last())[i] != f.push(s.last())[j] by {
                    if i == f.len() {
                        assert(f.contains(f[j]));
                    } else if j == f.len() {
                        assert(f.contains(f[i]));
                    }
                }
            }
        }
    }
}

proof fn lemma_toggled_unique(c: Seq<usize>, n: usize)
    requires
        c.no_duplicates(),
    ensures
        toggled(c, n).no_duplicates(),
{
    if c.contains(n) {
        lemma_filter_unique(c, differs(n));
    } else {
        assert forall|i: int, j: int| 0 <= i < c.len() + 1 && 0 <= j < c.len() + 1 && i != j implies c.push(n)[i] != c.push(n)[j] by {
            if i == c.len() {
                assert(c.contains(c[j]));
            } else if j == c.len() {
                assert(c.contains(c[i]));
            }
        }
    }
}

proof fn lemma_toggle_runs_unique(checked: Seq<usize>, runs: Seq<Seq<char>>, acts: Seq<Act>)
    requires
        checked.no_duplicates(),
    ensures
        toggle_runs(checked, runs, acts).no_duplicates(),
    decreases runs.len(),
{
    if runs.len() > 0 {
        lemma_toggle_runs_unique(checked, runs.drop_last(), acts);
        match parsed(runs.last()) {
            Some(n) => lemma_toggled_unique(toggle_runs(checked, runs.drop_last(), acts), n),
            None => {},
        }
    }
}

/// The checked rows that still exist on a refreshed board, in order.
pub open spec fn retained(checked: Seq<usize>, acts: Seq<Act>) -> Seq<usize> {
    checked.filter(|n: usize| has_row(acts, n))
}

/// Keep only the checked numbers a row of the board still carries.
pub fn retain_rows(checked: &Vec<usize>, acts: &Vec<Act>) -> (r: Vec<usize>)
    ensures
        r@ == retained(checked@, acts@),
        checked@.no_duplicates() ==> r@.no_duplicates(),
{
    let mut out: Vec<usize> = Vec::new();
    let mut i: usize = 0;
    while i < checked.len()
        invariant
            i <= checked.len(),
            out@ == checked@.take(i as int).filter(|n: usize| has_row(acts@, n)),
        decreases checked.len() - i,
    {
        proof {
            assert(checked@.take(i + 1).drop_last() =~= checked@.take(i as int));
            reveal(Seq::filter);
        }
        if row_exists(acts, checked[i]) {
            out.push(checked[i]);
        }
        i = i + 1;
    }
    proof {
        assert(checked@.take(checked.len() as int) =~= checked@);
        lemma_filter_unique(checked@, |n: usize| has_row(acts@, n));
    }
    out
}

/// `s` without any `n`.
pub open spec fn drop_value(s: Seq<usize>, n: usize) -> Seq<usize> {
    s.filter(differs(n))
}

/// Whether a number is other than `n`.
pub open spec fn differs(n: usize) -> spec_fn(usize) -> bool {
    |x: usize| x != n
}

/// `checked` with `n` added when absent and removed when present.
pub open spec fn toggled(checked: Seq<usize>, n: usize) -> Seq<usize> {
    if checked.contains(n) {
        drop_value(checked, n)
    } else {
        checked.push(n)
    }
}

/// The index of the first character of `s` that is not an ASCII digit, or
/// `s.len()`.
pub open spec fn first_non_digit(s: Seq<char>) -> nat
    decreases s.len(),
{
    if s.len() == 0 {
        0
    } else if !crate::text::is_ascii_digit(s[0]) {
        0
    } else {
        1 + first_non_digit(s.drop_first())
    }
}

/// The pieces of `s` between its non-digit characters, empty ones kept.
pub open spec fn digit_runs(s: Seq<char>) -> Seq<Seq<char>>
    decreases s.len(),
{
    let k = first_non_digit(s);
    if k >= s.len() {
        seq![s]
    } else {
        seq![s.subrange(0, k as int)] + digit_runs(s.skip(k as int + 1))
    }
}

/// The number a run of ASCII digits spells.
pub open spec fn digits_value(p: Seq<char>) -> nat
    decreases p.len(),
{
    if p.len() == 0 {
        0
    } else {
        digits_value(p.drop_last()) * 10 + ((p.last() as int - '0' as int) as nat)
    }
}

/// `str::parse::<usize>` of a run of digits: none for the empty run or one
/// past `usize::MAX`.
pub open spec fn parsed(p: Seq<char>) -> Option<usize> {
    if p.len() > 0 && digits_value(p) <= usize::MAX {
        Some(digits_value(p) as usize)
    } else {
        None
    }
}

/// Each run that names an existing row toggles it, in order.
pub open spec fn toggle_runs(checked: Seq<usize>, runs: Seq<Seq<char>>, acts: Seq<Act>) -> Seq<
    usize,
>
    decreases runs.len(),
{
    if runs.len() == 0 {
        checked
    } else {
        let c = toggle_runs(checked, runs.drop_last(), acts);
        match parsed(runs.last()) {
            Some(n) => if has_row(acts, n) {
                toggled(c, n)
            } else {
                c
            },
            None => c,
        }
    }
}

proof fn lemma_first_non_digit(s: Seq<char>, k: int)
    requires
        0 <= k <= s.len(),
        forall|j: int| 0 <= j < k ==> crate::text::is_ascii_digit(#[trigger] s[j]),
        k < s.len() ==> !crate::text::is_ascii_digit(s[k]),
    ensures
        first_non_digit(s) == k,
    decreases k,
{
    if k > 0 {
        let t = s.drop_first();
        assert forall|j: int| 0 <= j < k - 1 implies crate::text::is_ascii_digit(#[trigger] t[j]) by {
            assert(t[j] == s[j + 1]);
        }
        lemma_first_non_digit(t, k - 1);
    }
}

/// `str::split(|c| !c.is_ascii_digit())` over `v`.
fn split_digit_runs(v: &Vec<char>) -> (r: Vec<Vec<char>>)
    ensures
        crate::text::views(r@) == digit_runs(v@),
{
    let mut out: Vec<Vec<char>> = Vec::new();
    let mut pos: usize = 0;
    assert(v@.skip(0) =~= v@);
    loop
        invariant
            pos <= v.len(),
            crate::text::views(out@) + digit_runs(v@.skip(pos as int)) == digit_runs(v@),
        decreases v.len() - pos,
    {
        let ghost t = v@.skip(pos as int);
        let ghost before = crate::text::views(out@);
        let mut k = pos;
        while k < v.len() && is_digit_char(v[k])
            invariant
                pos <= k <= v.len(),
                forall|j: int| pos <= j < k ==> crate::text::is_ascii_digit(#[trigger] v@[j]),
            decreases v.len() - k,
        {
            k = k + 1;
        }
        let piece = crate::text::slice_of(v, pos, k);
        proof {
            assert forall|j: int| 0 <= j < k - pos implies crate::text::is_ascii_digit(
                #[trigger] t[j],
            ) by {
                assert(t[j] == v@[pos + j]);
            }
            if k < v.len() {
                assert(t[k - pos] == v@[k as int]);
            }
            lemma_first_non_digit(t, k - pos);
            assert(t.subrange(0, k - pos) =~= piece@);
        }
        out.push(piece);
        proof {
            assert(crate::text::views(out@) =~= before.push(piece@));
        }
        if k >= v.len() {
            proof {
                assert(t =~= piece@);
                assert(crate::text::views(out@) =~= before + digit_runs(t));
            }
            return out;
        }
        proof {
            assert(t.skip(k - pos + 1) =~= v@.skip(k + 1));
            assert(before + (seq![piece@] + digit_runs(v@.skip(k + 1))) =~= before.push(piece@)
                + digit_runs(v@.skip(k + 1)));
        }
        pos = k + 1;
    }
}

/// The number a run of digits spells, if it fits.
fn parse_run(p: &Vec<char>) -> (r: Option<usize>)
    requires
        forall|j: int| 0 <= j < p.len() ==> crate::text::is_ascii_digit(#[trigger] p@[j]),
    ensures
        r == parsed(p@),
{
    if p.len() == 0 {
        return None;
    }
    let mut v: usize = 0;
    let mut i: usize = 0;
    while i < p.len()
        invariant
            i <= p.len(),
            forall|j: int| 0 <= j < p.len() ==> crate::text::is_ascii_digit(#[trigger] p@[j]),
            v == digits_value(p@.take(i as int)),
        decreases p.len() - i,
    {
        proof {
            let t = p@.take(i + 1);
            assert(t.drop_last() =~= p@.take(i as int));
            assert(t.last() == p@[i as int]);
            assert(crate::text::is_ascii_digit(p@[i as int]));
        }
        let d = (p[i] as u32 - '0' as u32) as usize;
        match v.checked_mul(10) {
            Some(m) => match m.checked_add(d) {
                Some(w) => {
                    v = w;
                },
                None => {
                    proof {
                        lemma_digits_grow(p@, i as int + 1);
                    }
                    return None;
                },
            },
            None => {
                proof {
                    lemma_digits_grow(p@, i as int + 1);
                }
                return None;
            },
        }
        i = i + 1;
    }
    proof {
        assert(p@.take(p.len() as int) =~= p@);
    }
    Some(v)
}

/// A longer run of digits spells at least what its prefix does.
proof fn lemma_digits_grow(p: Seq<char>, k: int)
    requires
        0 <= k <= p.len(),
        forall|j: int| 0 <= j < p.len() ==> crate::text::is_ascii_digit(#[trigger] p[j]),
    ensures
        digits_value(p) >= digits_value(p.take(k)),
    decreases p.len() - k,
{
    if k < p.len() {
        lemma_digits_grow(p, k + 1);
        let t = p.take(k + 1);
        assert(t.drop_last() =~= p.take(k));
        assert(t.last() == p[k]);
        assert(digits_value(t) >= digits_value(p.take(k)));
    } else {
        assert(p.take(k) =~= p);
    }
}

fn without(v: &Vec<usize>, n: usize) -> (r: Vec<usize>)
    ensures
        r@ == drop_value(v@, n),
{
    let mut out: Vec<usize> = Vec::new();
    let mut i: usize = 0;
    while i < v.len()
        invariant
            i <= v.len(),
            out@ == drop_value(v@.take(i as int), n),
        decreases v.len() - i,
    {
        proof {
            assert(v@.take(i + 1).drop_last() =~= v@.take(i as int));
            reveal(Seq::filter);
        }
        if v[i] != n {
            out.push(v[i]);
        }
        i = i + 1;
    }
    proof {
        assert(v@.take(v.len() as int) =~= v@);
    }
    out
}

/// The checked rows after the signer typed numbers: each number that names a
/// row toggles it; anything else is ignored.
pub fn toggle_rows(checked: &Vec<usize>, answer: &str, acts: &Vec<Act>) -> (r: Vec<usize>)
    ensures
        r@ == toggle_runs(checked@, digit_runs(answer@), acts@),
        checked@.no_duplicates() ==> r@.no_duplicates(),
{
    proof {
        if checked@.no_duplicates() {
            lemma_toggle_runs_unique(checked@, digit_runs(answer@), acts@);
        }
    }
    let v = chars_of(answer);
    let runs = split_digit_runs(&v);
    let ghost rv = crate::text::views(runs@);
    let mut cur: Vec<usize> = Vec::new();
    let mut i: usize = 0;
    while i < checked.len()
        invariant
            i <= checked.len(),
            cur@ == checked@.take(i as int),
        decreases checked.len() - i,
    {
        cur.push(checked[i]);
        proof {
            assert(cur@ =~= checked@.take(i + 1));
        }
        i = i + 1;
    }
    proof {
        assert(checked@.take(checked.len() as int) =~= checked@);
        lemma_runs_are_digits(v@);
    }
    let mut k: usize = 0;
    while k < runs.len()
        invariant
            k <= runs.len(),
            rv == crate::text::views(runs@),
            rv == digit_runs(answer@),
            forall|a: int, j: int|
                0 <= a < rv.len() && 0 <= j < rv[a].len() ==> crate::text::is_ascii_digit(
                    #[trigger] rv[a][j],
                ),
            cur@ == toggle_runs(checked@, rv.take(k as int), acts@),
        decreases runs.len() - k,
    {
        proof {
            let t = rv.take(k + 1);
            assert(t.drop_last() =~= rv.take(k as int));
            assert(t.last() == runs@[k as int]@);
            assert forall|j: int| 0 <= j < runs@[k as int]@.len() implies crate::text::is_ascii_digit(
                #[trigger] runs@[k as int]@[j],
            ) by {
                assert(rv[k as int][j] == runs@[k as int]@[j]);
            }
        }
        let ghost prev = cur@;
        let pr = parse_run(&runs[k]);
        proof {
            let t = rv.take(k + 1);
            assert(pr == parsed(t.last()));
            assert(toggle_runs(checked@, t, acts@) == match parsed(t.last()) {
                Some(n) => if has_row(acts@, n) {
                    toggled(prev, n)
                } else {
                    prev
                },
                None => prev,
            });
        }
        match pr {
            Some(n) => {
                if row_exists(acts, n) {
                    if contains_n(&cur, n) {
                        cur = without(&cur, n);
                    } else {
                        cur.push(n);
                    }
                }
            },
            None => {},
        }
        proof {
            assert(cur@ =~= toggle_runs(checked@, rv.take(k + 1), acts@));
        }
        k = k + 1;
    }
    proof {
        assert(rv.take(runs.len() as int) =~= rv);
    }
    cur
}

/// Every run holds digits only.
proof fn lemma_runs_are_digits(s: Seq<char>)
    ensures
        forall|a: int, j: int|
            0 <= a < digit_runs(s).len() && 0 <= j < digit_runs(s)[a].len()
                ==> crate::text::is_ascii_digit(#[trigger] digit_runs(s)[a][j]),
    decreases s.len(),
{
    let k = first_non_digit(s) as int;
    lemma_first_non_digit_props(s);
    if k < s.len() {
        lemma_runs_are_digits(s.skip(k + 1));
        assert forall|a: int, j: int|
            0 <= a < digit_runs(s).len() && 0 <= j < digit_runs(s)[a].len()
                implies crate::text::is_ascii_digit(#[trigger] digit_runs(s)[a][j]) by {
            if a == 0 {
                assert(digit_runs(s)[0] == s.subrange(0, k));
                assert(s.subrange(0, k)[j] == s[j]);
            } else {
                assert(digit_runs(s)[a] == digit_runs(s.skip(k + 1))[a - 1]);
            }
        }
    } else {
        assert forall|a: int, j: int|
            0 <= a < digit_runs(s).len() && 0 <= j < digit_runs(s)[a].len()
                implies crate::text::is_ascii_digit(#[trigger] digit_runs(s)[a][j]) by {
            assert(digit_runs(s)[0] == s);
        }
    }
}

proof fn lemma_first_non_digit_props(s: Seq<char>)
    ensures
        first_non_digit(s) <= s.len(),
        forall|j: int| 0 <= j < first_non_digit(s) ==> crate::text::is_ascii_digit(#[trigger] s[j]),
    decreases s.len(),
{
    if s.len() > 0 && crate::text::is_ascii_digit(s[0]) {
        let t = s.drop_first();
        lemma_first_non_digit_props(t);
        assert forall|j: int| 0 <= j < first_non_digit(s) implies crate::text::is_ascii_digit(
            #[trigger] s[j],
        ) by {
            if j > 0 {
                assert(s[j] == t[j - 1]);
            }
        }
    }
}

/// Every row's number, in screen order: the `a` key checks them all.
pub fn all_rows(acts: &Vec<Act>) -> (r: Vec<usize>)
    ensures
        r@ == row_numbers(acts@),
        r@.no_duplicates(),
        forall|n: usize| r@.contains(n) <==> has_row(acts@, n),
{
    let mut out: Vec<usize> = Vec::new();
    let mut i: usize = 0;
    while i < acts.len()
        invariant
            i <= acts.len(),
            out@ == row_numbers(acts@.take(i as int)),
            out@.no_duplicates(),
            forall|n: usize| out@.contains(n) <==> has_row(acts@.take(i as int), n),
        decreases acts.len() - i,
    {
        let n = acts[i].n;
        let ghost t = acts@.take(i + 1);
        proof {
            assert(t.drop_last() =~= acts@.take(i as int));
            assert(t.last() == acts@[i as int]);
        }
        let mut j: usize = 0;
        let mut seen = false;
        while j < out.len()
            invariant
                j <= out.len(),
                seen == out@.take(j as int).contains(n),
            decreases out.len() - j,
        {
            proof {
                assert(out@.take(j + 1) =~= out@.take(j as int).push(out@[j as int]));
                vstd::seq_lib::lemma_seq_contains_after_push(out@.take(j as int), out@[j as int], n);
            }
            if out[j] == n {
                seen = true;
            }
            j = j + 1;
        }
        proof {
            assert(out@.take(out.len() as int) =~= out@);
        }
        let ghost before = out@;
        if !seen {
            out.push(n);
            proof {
                assert forall|a: int, b: int| 0 <= a < out@.len() && 0 <= b < out@.len() && a != b implies out@[a] != out@[b] by {
                    if a == before.len() {
                        assert(before.contains(before[b]));
                    } else if b == before.len() {
                        assert(before.contains(before[a]));
                    }
                }
            }
        }
        proof {
            assert forall|m: usize| out@.contains(m) <==> has_row(t, m) by {
                vstd::seq_lib::lemma_seq_contains_after_push(before, n, m);
                if has_row(t, m) {
                    let w = choose|w: int| 0 <= w < t.len() && #[trigger] t[w].n == m;
                    if w < i {
                        assert(acts@.take(i as int)[w] == t[w]);
                    }
                }
                if has_row(acts@.take(i as int), m) {
                    let w = choose|w: int| 0 <= w < i && #[trigger] acts@.take(i as int)[w].n == m;
                    assert(t[w] == acts@.take(i as int)[w]);
                }
            }
        }
        i = i + 1;
    }
    proof {
        assert(acts@.take(acts.len() as int) =~= acts@);
    }
    out
}

/// Pressing a row's number twice leaves the checked set as it was.
pub proof fn lemma_toggle_twice(checked: Seq<usize>, n: usize)
    ensures
        forall|x: usize| toggled(toggled(checked, n), n).contains(x) <==> checked.contains(x),
{
    broadcast use vstd::seq_lib::group_filter_ensures;
    broadcast use vstd::seq::Seq::lemma_filter_contains_rev;

    let once = toggled(checked, n);
    assert forall|x: usize| toggled(once, n).contains(x) <==> checked.contains(x) by {
        if checked.contains(n) {
            let d = drop_value(checked, n);
            assert(!d.contains(n));
            assert(toggled(once, n) == d.push(n));
            if checked.contains(x) && x != n {
                let i = choose|i: int| 0 <= i < checked.len() && checked[i] == x;
                assert(d.contains(x));
                assert(d.push(n)[d.len() as int] == n);
                let j = choose|j: int| 0 <= j < d.len() && d[j] == x;
                assert(d.push(n)[j] == x);
            }
            if x == n {
                assert(d.push(n)[d.len() as int] == n);
            }
            if d.push(n).contains(x) {
                let j = choose|j: int| 0 <= j < d.push(n).len() && d.push(n)[j] == x;
                if j < d.len() {
                    assert(d[j] == x);
                    assert(d.contains(x));
                }
            }
        } else {
            let p = checked.push(n);
            assert(p[checked.len() as int] == n);
            assert(p.contains(n));
            assert(toggled(once, n) == drop_value(p, n));
            if checked.contains(x) {
                let i = choose|i: int| 0 <= i < checked.len() && checked[i] == x;
                assert(p[i] == x);
                assert(x != n);
            }
            if drop_value(p, n).contains(x) {
                assert(p.contains(x));
                let j = choose|j: int| 0 <= j < p.len() && p[j] == x;
                assert(x != n);
                assert(j < checked.len());
                assert(checked[j] == x);
            }
        }
    }
}

/// The act kinds among the checked rows: one reason is asked for each.
pub open spec fn checked_kind_set(acts: Seq<Act>, checked: Seq<usize>) -> Set<Seq<char>> {
    Set::new(
        |k: Seq<char>|
            exists|i: int| 0 <= i < acts.len() && checked.contains(#[trigger] acts[i].n) && acts[i].act@ == k,
    )
}

/// The kinds of the checked rows, sorted, each once.
pub fn checked_kinds(acts: &Vec<Act>, checked: &Vec<usize>) -> (r: Vec<String>)
    ensures
        crate::text::sorted_unique(crate::text::strs(r@)),
        crate::text::strs(r@).to_set() == checked_kind_set(acts@, checked@),
{
    let mut out: Vec<String> = Vec::new();
    let mut i: usize = 0;
    proof {
        assert(crate::text::strs(out@).to_set() =~= checked_kind_set(acts@.take(0), checked@));
    }
    while i < acts.len()
        invariant
            i <= acts.len(),
            crate::text::sorted_unique(crate::text::strs(out@)),
            crate::text::strs(out@).to_set() == checked_kind_set(acts@.take(i as int), checked@),
        decreases acts.len() - i,
    {
        let ghost before = crate::text::strs(out@).to_set();
        let mut hit = false;
        let mut j: usize = 0;
        while j < checked.len()
            invariant
                j <= checked.len(),
                i < acts.len(),
                hit == checked@.take(j as int).contains(acts@[i as int].n),
            decreases checked.len() - j,
        {
            proof {
                assert(checked@.take(j + 1) =~= checked@.take(j as int).push(checked@[j as int]));
                vstd::seq_lib::lemma_seq_contains_after_push(checked@.take(j as int), checked@[j as int], acts@[i as int].n);
            }
            if checked[j] == acts[i].n {
                hit = true;
            }
            j = j + 1;
        }
        proof {
            assert(checked@.take(checked.len() as int) =~= checked@);
        }
        if hit {
            crate::selection::insert_heading(&mut out, &acts[i].act);
        }
        proof {
            let now = checked_kind_set(acts@.take(i + 1), checked@);
            let was = checked_kind_set(acts@.take(i as int), checked@);
            assert forall|k: Seq<char>| now.contains(k) <==> (was.contains(k) || (hit && k == acts@[i as int].act@)) by {
                if now.contains(k) {
                    let w = choose|w: int| 0 <= w < i + 1 && checked@.contains(#[trigger] acts@.take(i + 1)[w].n) && acts@.take(i + 1)[w].act@ == k;
                    if w < i {
                        assert(acts@.take(i as int)[w] == acts@.take(i + 1)[w]);
                    }
                }
                if was.contains(k) {
                    let w = choose|w: int| 0 <= w < i && checked@.contains(#[trigger] acts@.take(i as int)[w].n) && acts@.take(i as int)[w].act@ == k;
                    assert(acts@.take(i + 1)[w] == acts@.take(i as int)[w]);
                }
                if hit && k == acts@[i as int].act@ {
                    assert(acts@.take(i + 1)[i as int] == acts@[i as int]);
                }
            }
            if hit {
                assert(crate::text::strs(out@).to_set() =~= now);
            } else {
                assert(crate::text::strs(out@).to_set() =~= now);
            }
        }
        i = i + 1;
    }
    proof {
        assert(acts@.take(acts.len() as int) =~= acts@);
    }
    out
}

/// The correction kind a checked correction is signed with: the preset's
/// kind when it names one, `behaviour-change` otherwise.
pub fn correction_word(preset_kind: Option<&str>) -> (r: String)
    ensures
        r@ == match preset_kind {
            Some(k) => if k@.len() > 0 {
                k@
            } else {
                "behaviour-change"@
            },
            None => "behaviour-change"@,
        },
{
    match preset_kind {
        Some(k) => {
            let v = chars_of(k);
            if v.len() > 0 {
                string_of(&v)
            } else {
                string_of(&chars_of("behaviour-change"))
            }
        },
        None => string_of(&chars_of("behaviour-change")),
    }
}

/// What a typed answer to a question does.
#[derive(Debug, Clone, PartialEq, Eq)]
pub enum AnswerChoice {
    /// `s`: the question is skipped.
    Skip,
    /// Enter with no recommendation to take: skipped, and said so.
    NoRecommendation,
    /// The words that are recorded as the answer.
    Text(String),
}

/// Enter takes the recommendation, `s` skips, anything else is the answer.
pub fn answer_choice(answer: &str, recommended: &str) -> (r: AnswerChoice)
    ensures
        answer@ == "s"@ ==> r == AnswerChoice::Skip,
        answer@.len() == 0 && recommended@.len() > 0 ==> (r matches AnswerChoice::Text(t) && t@ == recommended@),
        answer@.len() == 0 && recommended@.len() == 0 ==> r == AnswerChoice::NoRecommendation,
        answer@ != "s"@ && answer@.len() > 0 ==> (r matches AnswerChoice::Text(t) && t@ == answer@),
{
    let a = chars_of(answer);
    proof {
        reveal_strlit("s");
    }
    if crate::text::is_str(&a, "s") {
        AnswerChoice::Skip
    } else if a.len() == 0 {
        let rv = chars_of(recommended);
        if rv.len() > 0 {
            AnswerChoice::Text(string_of(&rv))
        } else {
            AnswerChoice::NoRecommendation
        }
    } else {
        AnswerChoice::Text(string_of(&a))
    }
}

/// What a typed reason key picks among the presets offered for an act.
#[derive(Debug, Clone, Copy, PartialEq, Eq)]
pub enum PresetChoice {
    /// `-` or Enter: the tool's drafted reason only.
    NoPreset,
    /// The preset at this index.
    Pick(usize),
    /// No preset has that key: ask again.
    AskAgain,
}

/// The first preset whose key is `k`.
pub open spec fn first_key(keys: Seq<Seq<char>>, k: Seq<char>) -> Option<int>
    decreases keys.len(),
{
    if keys.len() == 0 {
        None
    } else if keys[0] == k {
        Some(0)
    } else {
        match first_key(keys.drop_first(), k) {
            Some(i) => Some(i + 1),
            None => None,
        }
    }
}

proof fn lemma_first_key(keys: Seq<Seq<char>>, k: Seq<char>, m: int)
    requires
        0 <= m <= keys.len(),
        m < keys.len() ==> keys[m] == k,
        forall|j: int| 0 <= j < m ==> keys[j] != k,
    ensures
        first_key(keys, k) == (if m < keys.len() { Some(m) } else { None::<int> }),
    decreases keys.len(),
{
    if keys.len() > 0 && m > 0 {
        assert forall|j: int| 0 <= j < m - 1 implies keys.drop_first()[j] != k by {
            assert(keys.drop_first()[j] == keys[j + 1]);
        }
        lemma_first_key(keys.drop_first(), k, m - 1);
    }
}

pub fn preset_choice(answer: &str, keys: &Vec<String>) -> (r: PresetChoice)
    ensures
        r == (if answer@ == "-"@ || answer@.len() == 0 {
            PresetChoice::NoPreset
        } else {
            match first_key(crate::text::strs(keys@), answer@) {
                Some(i) => PresetChoice::Pick(i as usize),
                None => PresetChoice::AskAgain,
            }
        }),
{
    let a = chars_of(answer);
    if crate::text::is_str(&a, "-") || a.len() == 0 {
        return PresetChoice::NoPreset;
    }
    let ghost ks = crate::text::strs(keys@);
    let mut m: usize = 0;
    while m < keys.len() && !crate::text::str_eq(keys[m].as_str(), answer)
        invariant
            m <= keys.len(),
            ks == crate::text::strs(keys@),
            forall|j: int| 0 <= j < m ==> ks[j] != answer@,
        decreases keys.len() - m,
    {
        m = m + 1;
    }
    proof {
        if m < keys.len() {
            assert(ks[m as int] == keys@[m as int]@);
        }
        lemma_first_key(ks, answer@, m as int);
    }
    if m < keys.len() {
        PresetChoice::Pick(m)
    } else {
        PresetChoice::AskAgain
    }
}

} // verus!
