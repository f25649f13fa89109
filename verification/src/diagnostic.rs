//! The diagnostic model behind `war check`: severities, findings and the
//! readiness verdict of a report.

use vstd::prelude::*;

use crate::text::{push_char, push_str, string_of};

verus! {

/// Severity of one finding. Declaration order is severity order.
///
/// `Unknown` is a first-class severity: a check that could not be performed
/// is neither a pass nor a failure, and it blocks readiness.
#[derive(Debug, Clone, Copy, PartialEq, Eq, Structural, PartialOrd, Ord, Hash)]
pub enum Severity {
    Pass,
    Warn,
    Unknown,
    Error,
}

impl Severity {
    /// The position of a severity in the order `Pass < Warn < Unknown < Error`.
    pub open spec fn rank(self) -> nat {
        match self {
            Severity::Pass => 0,
            Severity::Warn => 1,
            Severity::Unknown => 2,
            Severity::Error => 3,
        }
    }

    /// Whether a Warrant carrying this severity fails to be ready.
    pub open spec fn blocks(self) -> bool {
        self is Unknown || self is Error
    }

    pub open spec fn spec_label(self) -> Seq<char> {
        match self {
            Severity::Pass => "PASS"@,
            Severity::Unknown => "UNKNOWN"@,
            Severity::Warn => "WARN"@,
            Severity::Error => "ERROR"@,
        }
    }

    /// The fixed word the report prints for this severity.
    pub fn label(self) -> (r: &'static str)
        ensures
            r@ == self.spec_label(),
    {
        match self {
            Severity::Pass => "PASS",
            Severity::Unknown => "UNKNOWN",
            Severity::Warn => "WARN",
            Severity::Error => "ERROR",
        }
    }

    /// Whether a Warrant carrying this severity may NOT be considered well-formed.
    pub fn blocks_readiness(self) -> (r: bool)
        ensures
            r == self.blocks(),
    {
        match self {
            Severity::Pass | Severity::Warn => false,
            Severity::Unknown | Severity::Error => true,
        }
    }

    /// The rank of this severity as a number.
    pub fn level(self) -> (r: u8)
        ensures
            r as nat == self.rank(),
    {
        match self {
            Severity::Pass => 0,
            Severity::Warn => 1,
            Severity::Unknown => 2,
            Severity::Error => 3,
        }
    }
}

/// Blocking is upward closed in the severity order: once a severity blocks,
/// every severity ranked at or above it blocks too.
pub proof fn lemma_blocking_upward_closed(lower: Severity, higher: Severity)
    requires
        lower.rank() <= higher.rank(),
        lower.blocks(),
    ensures
        higher.blocks(),
{
}

/// The order is total and strict on distinct severities, and `Pass` is its least element.
pub proof fn lemma_rank_injective(a: Severity, b: Severity)
    ensures
        a.rank() == b.rank() <==> a == b,
        Severity::Pass.rank() <= a.rank(),
{
}

/// One finding.
#[derive(Debug, Clone, PartialEq, Eq)]
pub struct Diagnostic {
    pub severity: Severity,
    /// The rule this finding is about, e.g. `manifest.duplicate-ordinal`.
    pub rule: String,
    /// The file the finding is anchored to, repository-relative.
    pub file: Option<String>,
    pub message: String,
}

/// `s` padded with spaces on the right to at least `width` characters.
pub open spec fn pad_right(s: Seq<char>, width: nat) -> Seq<char> {
    if s.len() >= width {
        s
    } else {
        s + Seq::new((width - s.len()) as nat, |i: int| ' ')
    }
}

/// The rendered finding: `SEVERITY rule message`, severity padded to 7
/// characters and the rule to 34, and the file on a second line.
pub open spec fn render_line(
    severity: Severity,
    rule: Seq<char>,
    file: Option<Seq<char>>,
    message: Seq<char>,
) -> Seq<char> {
    let first = pad_right(severity.spec_label(), 7) + seq![' '] + pad_right(rule, 34) + seq![' ']
        + message;
    match file {
        Some(f) => first + seq!['\n'] + pad_right(Seq::empty(), 7) + seq![' '] + pad_right(
            Seq::empty(),
            34,
        ) + "   → "@ + f,
        None => first,
    }
}

fn push_padded(out: &mut Vec<char>, s: &str, width: usize)
    ensures
        final(out)@ == old(out)@ + pad_right(s@, width as nat),
{
    let v = crate::text::chars_of(s);
    crate::text::push_all(out, &v);
    let ghost mid = out@;
    let mut n = v.len();
    while n < width
        invariant
            v@ == s@,
            v.len() <= n <= width || (v.len() >= width && n == v.len()),
            out@ == mid + Seq::new((n - v.len()) as nat, |i: int| ' '),
        decreases width - n,
    {
        out.push(' ');
        assert(Seq::new((n + 1 - v.len()) as nat, |i: int| ' ') =~= Seq::new(
            (n - v.len()) as nat,
            |i: int| ' ',
        ).push(' '));
        n = n + 1;
    }
    proof {
        if v.len() >= width {
            assert(Seq::new(0nat, |i: int| ' ') =~= Seq::<char>::empty());
            assert(out@ =~= mid);
        }
    }
}

impl Diagnostic {
    pub fn new(severity: Severity, rule: &str, file: Option<String>, message: &str) -> (d: Self)
        ensures
            d.severity == severity,
            d.rule@ == rule@,
            d.file == file,
            d.message@ == message@,
    {
        Diagnostic { severity, rule: rule.to_owned(), file, message: message.to_owned() }
    }

    pub fn pass(rule: &str, message: &str) -> (d: Self)
        ensures
            d.severity == Severity::Pass,
            d.rule@ == rule@,
            d.file is None,
            d.message@ == message@,
    {
        Self::new(Severity::Pass, rule, None, message)
    }

    pub fn error(rule: &str, file: &str, message: &str) -> (d: Self)
        ensures
            d.severity == Severity::Error,
            d.rule@ == rule@,
            d.file matches Some(f) && f@ == file@,
            d.message@ == message@,
    {
        Self::new(Severity::Error, rule, Some(file.to_owned()), message)
    }

    pub fn warn(rule: &str, file: &str, message: &str) -> (d: Self)
        ensures
            d.severity == Severity::Warn,
            d.rule@ == rule@,
            d.file matches Some(f) && f@ == file@,
            d.message@ == message@,
    {
        Self::new(Severity::Warn, rule, Some(file.to_owned()), message)
    }

    pub fn unknown(rule: &str, file: &str, message: &str) -> (d: Self)
        ensures
            d.severity == Severity::Unknown,
            d.rule@ == rule@,
            d.file matches Some(f) && f@ == file@,
            d.message@ == message@,
    {
        Self::new(Severity::Unknown, rule, Some(file.to_owned()), message)
    }

    /// The finding in the reporting shape, one line plus the file's line.
    pub fn line(&self) -> (r: String)
        ensures
            r@ == render_line(
                self.severity,
                self.rule@,
                match self.file {
                    Some(f) => Some(f@),
                    None => None,
                },
                self.message@,
            ),
    {
        let mut out: Vec<char> = Vec::new();
        push_padded(&mut out, self.severity.label(), 7);
        out.push(' ');
        push_padded(&mut out, self.rule.as_str(), 34);
        out.push(' ');
        push_str(&mut out, self.message.as_str());
        match &self.file {
            Some(f) => {
                out.push('\n');
                push_padded(&mut out, "", 7);
                out.push(' ');
                push_padded(&mut out, "", 34);
                push_str(&mut out, "   → ");
                push_str(&mut out, f.as_str());
            },
            None => {},
        }
        proof {
            reveal_strlit("");
        }
        string_of(&out)
    }
}

/// Number of findings of one severity.
pub open spec fn count_of(ds: Seq<Diagnostic>, severity: Severity) -> nat
    decreases ds.len(),
{
    if ds.len() == 0 {
        0
    } else {
        count_of(ds.drop_last(), severity) + if ds.last().severity == severity {
            1nat
        } else {
            0nat
        }
    }
}

/// The highest severity present, `Pass` for none.
pub open spec fn worst_of(ds: Seq<Diagnostic>) -> Severity
    decreases ds.len(),
{
    if ds.len() == 0 {
        Severity::Pass
    } else {
        let w = worst_of(ds.drop_last());
        if ds.last().severity.rank() > w.rank() {
            ds.last().severity
        } else {
            w
        }
    }
}

/// No finding blocks readiness.
pub open spec fn ready(ds: Seq<Diagnostic>) -> bool {
    forall|i: int| 0 <= i < ds.len() ==> !(#[trigger] ds[i].severity).blocks()
}

/// The worst severity bounds every finding and is one of them (or `Pass`).
pub proof fn lemma_worst_is_maximum(ds: Seq<Diagnostic>)
    ensures
        forall|i: int| 0 <= i < ds.len() ==> (#[trigger] ds[i].severity).rank() <= worst_of(
            ds,
        ).rank(),
        worst_of(ds) == Severity::Pass || exists|i: int|
            0 <= i < ds.len() && ds[i].severity == worst_of(ds),
    decreases ds.len(),
{
    if ds.len() > 0 {
        lemma_worst_is_maximum(ds.drop_last());
        let w = worst_of(ds.drop_last());
        assert forall|i: int| 0 <= i < ds.len() implies (#[trigger] ds[i].severity).rank()
            <= worst_of(ds).rank() by {
            if i < ds.len() - 1 {
                assert(ds[i] == ds.drop_last()[i]);
            }
        }
        if !(worst_of(ds) == Severity::Pass) {
            if ds.last().severity.rank() > w.rank() {
                assert(ds[ds.len() - 1].severity == worst_of(ds));
            } else {
                let j = choose|j: int|
                    0 <= j < ds.drop_last().len() && ds.drop_last()[j].severity == w;
                assert(ds[j] == ds.drop_last()[j]);
            }
        }
    }
}

/// Readiness, decided finding by finding, agrees with the worst severity:
/// a report is ready exactly when its worst severity does not block.
pub proof fn lemma_ready_iff_worst_does_not_block(ds: Seq<Diagnostic>)
    ensures
        ready(ds) <==> !worst_of(ds).blocks(),
{
    lemma_worst_is_maximum(ds);
    if ready(ds) && worst_of(ds) != Severity::Pass {
        let i = choose|i: int| 0 <= i < ds.len() && ds[i].severity == worst_of(ds);
        assert(!ds[i].severity.blocks());
    }
    if !ready(ds) {
        let i = choose|i: int| 0 <= i < ds.len() && (#[trigger] ds[i].severity).blocks();
        lemma_blocking_upward_closed(ds[i].severity, worst_of(ds));
    }
}

/// The findings for one Warrant, plus what the run did not cover.
#[derive(Debug, Clone, PartialEq, Eq)]
pub struct Report {
    pub diagnostics: Vec<Diagnostic>,
    /// Statements of what this run does NOT cover. Never part of the verdict.
    pub notes: Vec<String>,
}

impl Default for Report {
    fn default() -> (r: Self)
        ensures
            r.diagnostics@.len() == 0,
            r.notes@.len() == 0,
    {
        Report { diagnostics: Vec::new(), notes: Vec::new() }
    }
}

pub open spec fn well_formed_text() -> Seq<char> {
    "WELL-FORMED (record only — Preflight is not implemented, and `war check` does not run gates)"@
}

impl Report {
    pub fn push(&mut self, diagnostic: Diagnostic)
        ensures
            final(self).diagnostics@ == old(self).diagnostics@.push(diagnostic),
            final(self).notes@ == old(self).notes@,
    {
        self.diagnostics.push(diagnostic);
    }

    /// Record something this run did not check.
    pub fn note(&mut self, note: &str)
        ensures
            final(self).notes@.len() == old(self).notes@.len() + 1,
            final(self).notes@.last()@ == note@,
            final(self).notes@.drop_last() == old(self).notes@,
            final(self).diagnostics@ == old(self).diagnostics@,
    {
        self.notes.push(note.to_owned());
        assert(self.notes@.drop_last() =~= old(self).notes@);
    }

    pub fn count(&self, severity: Severity) -> (r: usize)
        ensures
            r == count_of(self.diagnostics@, severity),
    {
        let mut n: usize = 0;
        let mut i: usize = 0;
        while i < self.diagnostics.len()
            invariant
                i <= self.diagnostics.len(),
                n == count_of(self.diagnostics@.take(i as int), severity),
                n <= i,
            decreases self.diagnostics.len() - i,
        {
            assert(self.diagnostics@.take(i + 1).drop_last() =~= self.diagnostics@.take(i as int));
            if self.diagnostics[i].severity == severity {
                n = n + 1;
            }
            i = i + 1;
        }
        assert(self.diagnostics@.take(self.diagnostics.len() as int) =~= self.diagnostics@);
        n
    }

    /// The highest severity present, or `Pass` for an empty report.
    pub fn worst(&self) -> (r: Severity)
        ensures
            r == worst_of(self.diagnostics@),
    {
        let mut w = Severity::Pass;
        let mut i: usize = 0;
        while i < self.diagnostics.len()
            invariant
                i <= self.diagnostics.len(),
                w == worst_of(self.diagnostics@.take(i as int)),
            decreases self.diagnostics.len() - i,
        {
            assert(self.diagnostics@.take(i + 1).drop_last() =~= self.diagnostics@.take(i as int));
            let s = self.diagnostics[i].severity;
            if s.level() > w.level() {
                w = s;
            }
            i = i + 1;
        }
        assert(self.diagnostics@.take(self.diagnostics.len() as int) =~= self.diagnostics@);
        w
    }

    /// Whether every check that ran was clean enough to proceed. Asks every
    /// finding directly rather than going through the worst severity.
    pub fn is_ready(&self) -> (r: bool)
        ensures
            r == ready(self.diagnostics@),
    {
        let mut i: usize = 0;
        while i < self.diagnostics.len()
            invariant
                i <= self.diagnostics.len(),
                forall|j: int| 0 <= j < i ==> !(#[trigger] self.diagnostics@[j].severity).blocks(),
            decreases self.diagnostics.len() - i,
        {
            if self.diagnostics[i].severity.blocks_readiness() {
                return false;
            }
            i = i + 1;
        }
        true
    }

    /// The readiness line printed after the findings; never the bare word READY.
    pub fn verdict_line(&self) -> (r: String)
        ensures
            r@ == (if ready(self.diagnostics@) {
                well_formed_text()
            } else {
                "NOT READY"@
            }),
    {
        if self.is_ready() {
            "WELL-FORMED (record only — Preflight is not implemented, and `war check` does not run gates)".to_owned()
        } else {
            "NOT READY".to_owned()
        }
    }
}

/// A finding joins a report: the report is ready afterwards exactly when it
/// was ready before and the new finding does not block.
pub proof fn lemma_push_readiness(ds: Seq<Diagnostic>, d: Diagnostic)
    ensures
        ready(ds.push(d)) <==> (ready(ds) && !d.severity.blocks()),
{
    if ready(ds.push(d)) {
        assert forall|i: int| 0 <= i < ds.len() implies !(#[trigger] ds[i].severity).blocks() by {
            assert(ds.push(d)[i] == ds[i]);
        }
        assert(ds.push(d)[ds.len() as int] == d);
    }
    if ready(ds) && !d.severity.blocks() {
        assert forall|i: int| 0 <= i < ds.push(d).len() implies !(
        #[trigger] ds.push(d)[i].severity).blocks() by {
            if i < ds.len() {
                assert(ds.push(d)[i] == ds[i]);
            }
        }
    }
}

/// Notes never decide readiness: two reports with the same findings have
/// the same readiness and the same verdict line, whatever their notes.
pub proof fn lemma_notes_do_not_affect_readiness(a: Report, b: Report)
    requires
        a.diagnostics@ == b.diagnostics@,
    ensures
        ready(a.diagnostics@) == ready(b.diagnostics@),
        worst_of(a.diagnostics@) == worst_of(b.diagnostics@),
{
}

/// An empty report is ready and its worst severity is `Pass`.
pub proof fn lemma_empty_report_is_ready()
    ensures
        ready(Seq::<Diagnostic>::empty()),
        worst_of(Seq::<Diagnostic>::empty()) == Severity::Pass,
{
}

} // verus!
