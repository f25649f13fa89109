//! Rules `war check` applies to one Warrant whose manifest validated: the
//! order of its atoms, its pin to a SAS revision, the gates its assurance
//! cites, its adequacy review, the jurisdiction of its atoms, the questions
//! a preset left unanswered, the milestone graph and the records an atom
//! carries. Each takes what was read or parsed as plain values and returns
//! the findings in the order the check reports them.

use vstd::prelude::*;

use crate::check::{spec_unanswered_required_headings, unanswered_required_headings};
use crate::diagnostic::{Diagnostic, Severity};
use crate::pins::{all_agree, finding_of, make, Finding};
use crate::authority_check::Verdict;
use crate::text::{
    chars_of, debug_quoted, debug_str, decimal, ends_lit, ends_with, eq_chars, join, push_decimal,
    push_join, push_str, slice_of, sorted_unique, str_eq, string_of, strip_all_prefix,
    strip_prefixes, strs, views, insert_sorted,
};

verus! {

/// Append one diagnostic to findings that agree with `fs`, keeping them
/// agreeing with `fs.push(f)`.
pub(crate) fn push_agreeing(out: &mut Vec<Diagnostic>, d: Diagnostic, Ghost(file): Ghost<Seq<char>>, Ghost(fs): Ghost<Seq<Finding>>, Ghost(f): Ghost<Finding>)
    requires
        all_agree(old(out)@, file, fs),
        finding_of(d, file) == Some(f),
    ensures
        all_agree(final(out)@, file, fs.push(f)),
{
    let ghost before = out@;
    out.push(d);
    proof {
        assert forall|k: int| 0 <= k < out@.len() implies finding_of(#[trigger] out@[k], file) == Some(fs.push(f)[k]) by {
            if k < before.len() {
                assert(out@[k] == before[k]);
            }
        }
    }
}

// ---------------------------------------------------------------------------
// Atom order
// ---------------------------------------------------------------------------

/// Whether the ordinals never descend.
pub open spec fn ascending_ordinals(o: Seq<u32>) -> bool {
    forall|i: int, j: int| 0 <= i < j < o.len() ==> o[i] <= o[j]
}

/// `composition.ordinal-order`: a warning when the atom ordinals are not in
/// ascending order, since the parent renders in declared order.
pub fn ordinal_order(alias: &str, file: &str, ordinals: &Vec<u32>) -> (r: Option<Diagnostic>)
    ensures
        match r {
            None => ascending_ordinals(ordinals@),
            Some(d) => !ascending_ordinals(ordinals@) && finding_of(d, file@) == Some(
                (
                    Severity::Warn,
                    "composition.ordinal-order"@,
                    true,
                    alias@ + ": atom ordinals are not in ascending order; the parent renders in declared order"@,
                ),
            ),
        },
{
    let mut i: usize = 1;
    while i < ordinals.len()
        invariant
            1 <= i,
            forall|a: int, b: int| 0 <= a < b < i && b < ordinals.len() ==> ordinals@[a] <= ordinals@[b],
        decreases ordinals.len() - i,
    {
        if ordinals[i - 1] > ordinals[i] {
            let mut m = chars_of(alias);
            push_str(&mut m, ": atom ordinals are not in ascending order; the parent renders in declared order");
            return Some(make(Severity::Warn, "composition.ordinal-order", true, file, &m));
        }
        i = i + 1;
    }
    None
}

// ---------------------------------------------------------------------------
// Preset questions
// ---------------------------------------------------------------------------

/// The message for a required heading left unanswered.
pub open spec fn unanswered_message(alias: Seq<char>, source: Seq<char>, heading: Seq<char>, authorized: bool) -> Seq<char> {
    alias + ": atom "@ + source + " — the preset's required heading `"@ + heading
        + "` is unanswered: its body is only the preset's comment"@ + if authorized {
        ". An authorization is on record for this Warrant, and a signed atom may not leave a required question open"@
    } else {
        ". Answer it before asking for authorization; a draft may be unfinished"@
    }
}

/// `atom.preset-unanswered` for a Markdown atom: one finding per required
/// heading whose body is still only the preset's comment, a warning in a
/// draft and an error once an authorization is on record.
pub open spec fn spec_preset_findings(alias: Seq<char>, source: Seq<char>, text: Seq<char>, authorized: bool) -> Seq<Finding> {
    if !ends_with(source, ".md"@) {
        seq![]
    } else {
        spec_unanswered_required_headings(text).map_values(|h: Seq<char>| (
            if authorized { Severity::Error } else { Severity::Warn },
            "atom.preset-unanswered"@,
            true,
            unanswered_message(alias, source, h, authorized),
        ))
    }
}

/// The unanswered-preset findings of one atom, `file` being its path.
pub fn preset_findings(alias: &str, file: &str, source: &str, text: &str, authorized: bool) -> (r: Vec<Diagnostic>)
    ensures
        all_agree(r@, file@, spec_preset_findings(alias@, source@, text@, authorized)),
{
    let mut out: Vec<Diagnostic> = Vec::new();
    let sv = chars_of(source);
    if !ends_lit(&sv, ".md") {
        return out;
    }
    let hs = unanswered_required_headings(text);
    let ghost want = spec_preset_findings(alias@, source@, text@, authorized);
    let mut i: usize = 0;
    while i < hs.len()
        invariant
            i <= hs.len(),
            ends_with(source@, ".md"@),
            hs@.map_values(|s: String| s@) == spec_unanswered_required_headings(text@),
            want == spec_preset_findings(alias@, source@, text@, authorized),
            all_agree(out@, file@, want.take(i as int)),
        decreases hs.len() - i,
    {
        let mut m = chars_of(alias);
        push_str(&mut m, ": atom ");
        push_str(&mut m, source);
        push_str(&mut m, " — the preset's required heading `");
        push_str(&mut m, hs[i].as_str());
        push_str(&mut m, "` is unanswered: its body is only the preset's comment");
        if authorized {
            push_str(&mut m, ". An authorization is on record for this Warrant, and a signed atom may not leave a required question open");
        } else {
            push_str(&mut m, ". Answer it before asking for authorization; a draft may be unfinished");
        }
        let sev = if authorized { Severity::Error } else { Severity::Warn };
        let d = make(sev, "atom.preset-unanswered", true, file, &m);
        proof {
            assert(hs@.map_values(|s: String| s@)[i as int] == hs@[i as int]@);
            assert(want.take(i + 1) =~= want.take(i as int).push(want[i as int]));
        }
        push_agreeing(&mut out, d, Ghost(file@), Ghost(want.take(i as int)), Ghost(want[i as int]));
        i = i + 1;
    }
    proof {
        assert(want.take(hs.len() as int) =~= want);
    }
    out
}

// ---------------------------------------------------------------------------
// The SAS pin
// ---------------------------------------------------------------------------

/// A recorded SAS revision: its version and the requirement rows it
/// carries, by canonical id.
#[derive(Debug)]
pub struct SasRevision {
    pub version: String,
    pub requirements: Vec<String>,
}

/// An `implements` entry of a manifest: the reference as written, and its
/// canonical id when it parses as a requirement reference.
#[derive(Debug)]
pub struct Implements {
    pub reference: String,
    pub canonical: Option<String>,
}

/// The first recorded revision with version `v`.
pub open spec fn find_rev(revs: Seq<SasRevision>, v: Seq<char>) -> Option<SasRevision>
    decreases revs.len(),
{
    if revs.len() == 0 {
        None
    } else if revs[0].version@ == v {
        Some(revs[0])
    } else {
        find_rev(revs.drop_first(), v)
    }
}

/// Whether `rev` carries the requirement row `c`.
pub open spec fn carries(rev: SasRevision, c: Seq<char>) -> bool {
    exists|k: int| 0 <= k < rev.requirements.len() && #[trigger] rev.requirements@[k]@ == c
}

/// `sas.repin-unknown-requirement` for each implemented requirement the
/// re-pinned revision `rev` does not carry, in manifest order.
pub open spec fn missing_requirements(alias: Seq<char>, v: Seq<char>, rev: SasRevision, imps: Seq<Implements>) -> Seq<Finding>
    decreases imps.len(),
{
    if imps.len() == 0 {
        seq![]
    } else {
        let prev = missing_requirements(alias, v, rev, imps.drop_last());
        let i = imps.last();
        if i.canonical is Some && !carries(rev, i.canonical->0@) {
            prev.push((
                Severity::Error,
                "sas.repin-unknown-requirement"@,
                true,
                alias + ": re-pinned to SAS "@ + v + ", whose §106 has no "@ + i.reference@
                    + " — the Warrant implements a requirement that revision does not have"@,
            ))
        } else {
            prev
        }
    }
}

/// What an amendment that re-pins the Warrant to SAS revision `v` is held
/// to: the revision must be on record, must still carry every requirement
/// the Warrant implements, and a re-pin after resolution is reported.
pub open spec fn spec_repin(alias: Seq<char>, v: Seq<char>, revs: Seq<SasRevision>, imps: Seq<Implements>, resolved: bool) -> Seq<Finding> {
    match find_rev(revs, v) {
        None => seq![(
            Severity::Error,
            "sas.pin-unknown"@,
            true,
            alias + ": an amendment re-pins to SAS revision "@ + v
                + ", and no record of it exists under docs/sas/revisions/ — `war sas propose "@ + v + "` first"@,
        )],
        Some(rev) => missing_requirements(alias, v, rev, imps) + if resolved {
            seq![(
                Severity::Warn,
                "sas.repin-resolved"@,
                true,
                alias + ": re-pinned to SAS "@ + v
                    + " after resolution; the resolution binds the contract as it was and is reported stale, never moved (§56.3)"@,
            )]
        } else {
            seq![]
        },
    }
}

fn find_revision(revs: &Vec<SasRevision>, v: &str) -> (r: Option<usize>)
    ensures
        match r {
            Some(k) => k < revs.len() && find_rev(revs@, v@) == Some(revs@[k as int]),
            None => find_rev(revs@, v@) is None,
        },
{
    let mut k: usize = 0;
    assert(revs@.skip(0) =~= revs@);
    while k < revs.len()
        invariant
            k <= revs.len(),
            find_rev(revs@, v@) == find_rev(revs@.skip(k as int), v@),
        decreases revs.len() - k,
    {
        proof {
            assert(revs@.skip(k as int)[0] == revs@[k as int]);
            assert(revs@.skip(k as int).drop_first() =~= revs@.skip(k + 1));
        }
        if str_eq(revs[k].version.as_str(), v) {
            return Some(k);
        }
        k = k + 1;
    }
    None
}

fn carries_row(rev: &SasRevision, c: &str) -> (r: bool)
    ensures
        r == carries(*rev, c@),
{
    let mut k: usize = 0;
    while k < rev.requirements.len()
        invariant
            k <= rev.requirements.len(),
            forall|j: int| 0 <= j < k ==> #[trigger] rev.requirements@[j]@ != c@,
        decreases rev.requirements.len() - k,
    {
        if str_eq(rev.requirements[k].as_str(), c) {
            return true;
        }
        k = k + 1;
    }
    false
}

/// The findings on an amendment's re-pin: `amended` is the revision it
/// names and the amendment's path, when the latest amendment names one.
pub fn repin_findings(
    alias: &str,
    amended: &Option<(String, String)>,
    revisions: &Vec<SasRevision>,
    implements: &Vec<Implements>,
    resolved: bool,
) -> (r: Vec<Diagnostic>)
    ensures
        match amended {
            None => r@.len() == 0,
            Some((v, f)) => all_agree(r@, f@, spec_repin(alias@, v@, revisions@, implements@, resolved)),
        },
{
    let mut out: Vec<Diagnostic> = Vec::new();
    let (v, file) = match amended {
        None => { return out; },
        Some((v, f)) => (v.as_str(), f.as_str()),
    };
    let k = match find_revision(revisions, v) {
        None => {
            let mut m = chars_of(alias);
            push_str(&mut m, ": an amendment re-pins to SAS revision ");
            push_str(&mut m, v);
            push_str(&mut m, ", and no record of it exists under docs/sas/revisions/ — `war sas propose ");
            push_str(&mut m, v);
            push_str(&mut m, "` first");
            let d = make(Severity::Error, "sas.pin-unknown", true, file, &m);
            proof {
                let want = spec_repin(alias@, v@, revisions@, implements@, resolved);
                assert(want.len() == 1);
                assert(seq![d][0] == d);
            }
            out.push(d);
            return out;
        },
        Some(k) => k,
    };
    let rev = &revisions[k];
    let ghost rv = revisions@[k as int];
    let mut i: usize = 0;
    while i < implements.len()
        invariant
            i <= implements.len(),
            *rev == rv,
            all_agree(out@, file@, missing_requirements(alias@, v@, rv, implements@.take(i as int))),
        decreases implements.len() - i,
    {
        let ghost before = missing_requirements(alias@, v@, rv, implements@.take(i as int));
        proof {
            assert(implements@.take(i + 1).drop_last() =~= implements@.take(i as int));
            assert(implements@.take(i + 1).last() == implements@[i as int]);
        }
        match &implements[i].canonical {
            Some(c) => {
                if !carries_row(rev, c.as_str()) {
                    let mut m = chars_of(alias);
                    push_str(&mut m, ": re-pinned to SAS ");
                    push_str(&mut m, v);
                    push_str(&mut m, ", whose §106 has no ");
                    push_str(&mut m, implements[i].reference.as_str());
                    push_str(&mut m, " — the Warrant implements a requirement that revision does not have");
                    let d = make(Severity::Error, "sas.repin-unknown-requirement", true, file, &m);
                    push_agreeing(&mut out, d, Ghost(file@), Ghost(before), Ghost(missing_requirements(alias@, v@, rv, implements@.take(i + 1)).last()));
                    proof {
                        assert(missing_requirements(alias@, v@, rv, implements@.take(i + 1)) =~= before.push(missing_requirements(alias@, v@, rv, implements@.take(i + 1)).last()));
                    }
                }
            },
            None => {},
        }
        i = i + 1;
    }
    proof {
        assert(implements@.take(implements.len() as int) =~= implements@);
    }
    if resolved {
        let mut m = chars_of(alias);
        push_str(&mut m, ": re-pinned to SAS ");
        push_str(&mut m, v);
        push_str(&mut m, " after resolution; the resolution binds the contract as it was and is reported stale, never moved (§56.3)");
        let d = make(Severity::Warn, "sas.repin-resolved", true, file, &m);
        let ghost fs = missing_requirements(alias@, v@, rv, implements@);
        push_agreeing(&mut out, d, Ghost(file@), Ghost(fs), Ghost((Severity::Warn, "sas.repin-resolved"@, true, m@)));
    } else {
        proof {
            assert(missing_requirements(alias@, v@, rv, implements@) + seq![] =~= missing_requirements(alias@, v@, rv, implements@));
        }
    }
    out
}

/// What the authorization's own SAS pin is held to when no amendment
/// re-pins the Warrant: the revision must be on record, and when a later
/// revision is the latest, a Warrant still open to execution is asked to
/// re-pin while a resolved one is historical.
pub open spec fn spec_auth_pin(alias: Seq<char>, v: Seq<char>, revs: Seq<SasRevision>, latest: Option<Seq<char>>, resolved: bool) -> Option<Finding> {
    if find_rev(revs, v) is None {
        Some((
            Severity::Error,
            "sas.pin-unknown"@,
            true,
            alias + ": authorized against SAS revision "@ + v + ", and no record of it exists under docs/sas/revisions/"@,
        ))
    } else if latest is Some && latest->0 != v {
        let l = latest->0;
        if resolved {
            Some((
                Severity::Pass,
                "sas.pin-historical"@,
                false,
                alias + ": resolved under SAS "@ + v + "; "@ + l
                    + " is in force now and asks nothing of a Warrant that executes no further"@,
            ))
        } else {
            Some((
                Severity::Warn,
                "sas.pin-superseded"@,
                true,
                alias + ": authorized against SAS "@ + v + "; the latest recorded revision is "@ + l
                    + " — the contract keeps its Basis until an amendment carrying `sas_revision: \""@ + l
                    + "\"` re-pins it and a human re-authorizes (OW-ADR-0016)"@,
            ))
        }
    } else {
        None
    }
}

/// The finding on the authorization's SAS pin `pinned`, anchored to the
/// authorization file `file`; nothing when an amendment re-pins the Warrant
/// or the authorization names no revision.
pub fn auth_pin_finding(
    alias: &str,
    file: &str,
    pinned: &Option<String>,
    amended: bool,
    revisions: &Vec<SasRevision>,
    latest: &Option<String>,
    resolved: bool,
) -> (r: Option<Diagnostic>)
    ensures
        match pinned {
            Some(v) if !amended => match (r, spec_auth_pin(alias@, v@, revisions@, match latest { Some(l) => Some(l@), None => None }, resolved)) {
                (Some(d), Some(f)) => finding_of(d, file@) == Some(f),
                (None, None) => true,
                _ => false,
            },
            _ => r is None,
        },
{
    if amended {
        return None;
    }
    let v = match pinned {
        None => { return None; },
        Some(v) => v.as_str(),
    };
    if find_revision(revisions, v).is_none() {
        let mut m = chars_of(alias);
        push_str(&mut m, ": authorized against SAS revision ");
        push_str(&mut m, v);
        push_str(&mut m, ", and no record of it exists under docs/sas/revisions/");
        return Some(make(Severity::Error, "sas.pin-unknown", true, file, &m));
    }
    match latest {
        Some(l) => {
            if str_eq(l.as_str(), v) {
                return None;
            }
            if resolved {
                let mut m = chars_of(alias);
                push_str(&mut m, ": resolved under SAS ");
                push_str(&mut m, v);
                push_str(&mut m, "; ");
                push_str(&mut m, l.as_str());
                push_str(&mut m, " is in force now and asks nothing of a Warrant that executes no further");
                Some(make(Severity::Pass, "sas.pin-historical", false, file, &m))
            } else {
                let mut m = chars_of(alias);
                push_str(&mut m, ": authorized against SAS ");
                push_str(&mut m, v);
                push_str(&mut m, "; the latest recorded revision is ");
                push_str(&mut m, l.as_str());
                push_str(&mut m, " — the contract keeps its Basis until an amendment carrying `sas_revision: \"");
                push_str(&mut m, l.as_str());
                push_str(&mut m, "\"` re-pins it and a human re-authorizes (OW-ADR-0016)");
                Some(make(Severity::Warn, "sas.pin-superseded", true, file, &m))
            }
        },
        None => None,
    }
}

// ---------------------------------------------------------------------------
// Signatures on the acts
// ---------------------------------------------------------------------------

/// The actor a `person://` reference names: the reference with every
/// leading `person://` removed.
pub fn actor_of(reference: &str) -> (r: String)
    ensures
        r@ == strip_all_prefix(reference@, "person://"@),
{
    let v = chars_of(reference);
    let p = chars_of("person://");
    string_of(&strip_prefixes(&v, &p))
}

/// A signed act passes under the verdict's rule (`authority.signed` for a
/// resolution or a correction, which name their act); any other verdict is
/// an error anchored to `at`. `label` names the act after the subject in the
/// message: nothing for an authorization, " resolution" or " correction".
pub open spec fn spec_act_finding(subject: Seq<char>, label: Seq<char>, v: Verdict) -> Finding {
    let message = subject + label + ": "@ + v.spec_why();
    if v is Signed {
        (Severity::Pass, "authority.signed"@, false, message)
    } else {
        (Severity::Error, v.spec_rule(), true, message)
    }
}

/// The finding on one signed act: `subject` is the Warrant's alias (or
/// `alias.deliverable` for a correction), `label` the act's name after it,
/// `at` the record the act lives in.
pub fn act_finding(subject: &str, label: &str, at: &str, v: &Verdict) -> (r: Diagnostic)
    ensures
        finding_of(r, at@) == Some(spec_act_finding(subject@, label@, *v)),
{
    let mut m = chars_of(subject);
    push_str(&mut m, label);
    push_str(&mut m, ": ");
    let why = v.why();
    push_str(&mut m, why.as_str());
    if v.is_signed() {
        make(Severity::Pass, v.rule(), false, at, &m)
    } else {
        make(Severity::Error, v.rule(), true, at, &m)
    }
}

// ---------------------------------------------------------------------------
// Gates cited by the assurance atom
// ---------------------------------------------------------------------------

/// A gate URI cited by an obligation, and what the registry resolves it to:
/// the definition's lifecycle and whether it is bindable, or why it does
/// not resolve.
#[derive(Debug)]
pub struct GateCitation {
    pub uri: String,
    pub resolved: Result<(String, bool), String>,
}

pub open spec fn gate_error(alias: Seq<char>, c: GateCitation) -> Option<Finding> {
    match c.resolved {
        Ok((lifecycle, bindable)) => if bindable {
            None
        } else {
            Some((
                Severity::Error,
                "gate.not-bindable"@,
                true,
                alias + ": cites "@ + c.uri@ + ", whose lifecycle is "@ + lifecycle@
                    + ". §43.4 permits binding only a qualified gate"@,
            ))
        },
        Err(why) => Some((Severity::Error, "gate.unresolved"@, true, alias + ": "@ + why@)),
    }
}

/// The errors of the citations, in order, and how many resolve to a
/// bindable definition.
pub open spec fn gate_errors(alias: Seq<char>, cs: Seq<GateCitation>) -> (Seq<Finding>, nat)
    decreases cs.len(),
{
    if cs.len() == 0 {
        (seq![], 0)
    } else {
        let (fs, n) = gate_errors(alias, cs.drop_last());
        match gate_error(alias, cs.last()) {
            Some(f) => (fs.push(f), n),
            None => (fs, n + 1),
        }
    }
}

/// A cited gate must resolve to a registered, bindable definition; when
/// every citation does, `gate.resolved` passes.
pub open spec fn spec_gates(alias: Seq<char>, cs: Seq<GateCitation>) -> Seq<Finding> {
    let (fs, n) = gate_errors(alias, cs);
    if n > 0 && n == cs.len() {
        fs.push((
            Severity::Pass,
            "gate.resolved"@,
            false,
            alias + ": "@ + decimal(n) + " cited gate(s) resolve to a bindable definition"@,
        ))
    } else {
        fs
    }
}

/// What the registry says of the gates cited by the assurance atom at
/// `file`.
pub fn gate_citations(alias: &str, file: &str, cited: &Vec<GateCitation>) -> (r: Vec<Diagnostic>)
    ensures
        all_agree(r@, file@, spec_gates(alias@, cited@)),
{
    let mut out: Vec<Diagnostic> = Vec::new();
    let mut resolved: usize = 0;
    let mut i: usize = 0;
    while i < cited.len()
        invariant
            i <= cited.len(),
            resolved <= i,
            gate_errors(alias@, cited@.take(i as int)).1 == resolved,
            all_agree(out@, file@, gate_errors(alias@, cited@.take(i as int)).0),
        decreases cited.len() - i,
    {
        let ghost before = gate_errors(alias@, cited@.take(i as int)).0;
        proof {
            assert(cited@.take(i + 1).drop_last() =~= cited@.take(i as int));
            assert(cited@.take(i + 1).last() == cited@[i as int]);
        }
        let c = &cited[i];
        match &c.resolved {
            Ok((lifecycle, bindable)) => {
                if *bindable {
                    resolved = resolved + 1;
                } else {
                    let mut m = chars_of(alias);
                    push_str(&mut m, ": cites ");
                    push_str(&mut m, c.uri.as_str());
                    push_str(&mut m, ", whose lifecycle is ");
                    push_str(&mut m, lifecycle.as_str());
                    push_str(&mut m, ". §43.4 permits binding only a qualified gate");
                    let d = make(Severity::Error, "gate.not-bindable", true, file, &m);
                    push_agreeing(&mut out, d, Ghost(file@), Ghost(before), Ghost(gate_error(alias@, cited@[i as int])->0));
                }
            },
            Err(why) => {
                let mut m = chars_of(alias);
                push_str(&mut m, ": ");
                push_str(&mut m, why.as_str());
                let d = make(Severity::Error, "gate.unresolved", true, file, &m);
                push_agreeing(&mut out, d, Ghost(file@), Ghost(before), Ghost(gate_error(alias@, cited@[i as int])->0));
            },
        }
        i = i + 1;
    }
    proof {
        assert(cited@.take(cited.len() as int) =~= cited@);
    }
    if resolved > 0 && resolved == cited.len() {
        let mut m = chars_of(alias);
        push_str(&mut m, ": ");
        push_decimal(&mut m, resolved as u64);
        push_str(&mut m, " cited gate(s) resolve to a bindable definition");
        let d = make(Severity::Pass, "gate.resolved", false, file, &m);
        push_agreeing(&mut out, d, Ghost(file@), Ghost(gate_errors(alias@, cited@).0), Ghost((Severity::Pass, "gate.resolved"@, false, m@)));
    }
    out
}

// ---------------------------------------------------------------------------
// The adequacy review
// ---------------------------------------------------------------------------

/// What the adequacy rule reads of one assurance atom: the Warrant's
/// assurance level, what that level requires, whether the review validates
/// against it, and whether it records executed attacks and an outcome.
#[derive(Debug)]
pub struct AdequacyReview {
    pub level: String,
    pub requires_review: bool,
    pub requires_executed_controls: bool,
    pub validated: Result<(), String>,
    pub has_executed_attacks: bool,
    pub has_outcome: bool,
}

/// The adequacy findings: the review validated against the level (a pass
/// only where a review is required), then, where a review is required, the
/// attack set (an error where executed controls are required, else a
/// warning) and the outcome.
pub open spec fn spec_adequacy(alias: Seq<char>, a: AdequacyReview) -> Seq<Finding> {
    let first: Seq<Finding> = match a.validated {
        Ok(_) => if a.requires_review {
            seq![(
                Severity::Pass,
                "assurance.adequacy-review"@,
                false,
                alias + ": "@ + a.level@ + " assurance carries an adequacy review with an adversarial question"@,
            )]
        } else {
            seq![]
        },
        Err(why) => seq![(Severity::Error, "assurance.adequacy-review"@, true, alias + ": "@ + why@)],
    };
    let attacks: Seq<Finding> = if a.requires_review && !a.has_executed_attacks {
        seq![(
            if a.requires_executed_controls { Severity::Error } else { Severity::Warn },
            "assurance.executed-attacks"@,
            true,
            alias + ": the adequacy review has executed no attacks. §39.3 wants violating artifacts planted and run; 'recorded here when run' is a plan, not evidence"@,
        )]
    } else {
        seq![]
    };
    let outcome: Seq<Finding> = if a.requires_review && !a.has_outcome {
        seq![(
            Severity::Warn,
            "assurance.adequacy-outcome"@,
            true,
            alias + ": the adequacy review records no §39.2 outcome; a review that reaches no outcome is a question, not a review"@,
        )]
    } else {
        seq![]
    };
    first + attacks + outcome
}

/// The adequacy findings of one assurance atom at `file`.
pub fn adequacy_findings(alias: &str, file: &str, a: &AdequacyReview) -> (r: Vec<Diagnostic>)
    ensures
        all_agree(r@, file@, spec_adequacy(alias@, *a)),
{
    let mut out: Vec<Diagnostic> = Vec::new();
    let ghost want = spec_adequacy(alias@, *a);
    let ghost e: Seq<Finding> = seq![];
    match &a.validated {
        Ok(_) => {
            if a.requires_review {
                let mut m = chars_of(alias);
                push_str(&mut m, ": ");
                push_str(&mut m, a.level.as_str());
                push_str(&mut m, " assurance carries an adequacy review with an adversarial question");
                let d = make(Severity::Pass, "assurance.adequacy-review", false, file, &m);
                push_agreeing(&mut out, d, Ghost(file@), Ghost(e), Ghost((Severity::Pass, "assurance.adequacy-review"@, false, m@)));
            }
        },
        Err(why) => {
            let mut m = chars_of(alias);
            push_str(&mut m, ": ");
            push_str(&mut m, why.as_str());
            let d = make(Severity::Error, "assurance.adequacy-review", true, file, &m);
            push_agreeing(&mut out, d, Ghost(file@), Ghost(e), Ghost((Severity::Error, "assurance.adequacy-review"@, true, m@)));
        },
    }
    let ghost first = out@;
    if a.requires_review {
        if !a.has_executed_attacks {
            let mut m = chars_of(alias);
            push_str(&mut m, ": the adequacy review has executed no attacks. §39.3 wants violating artifacts planted and run; 'recorded here when run' is a plan, not evidence");
            let sev = if a.requires_executed_controls { Severity::Error } else { Severity::Warn };
            let d = make(sev, "assurance.executed-attacks", true, file, &m);
            let ghost fs = spec_adequacy(alias@, *a).take(out@.len() as int);
            proof {
                assert(all_agree(out@, file@, fs));
            }
            push_agreeing(&mut out, d, Ghost(file@), Ghost(fs), Ghost((sev, "assurance.executed-attacks"@, true, m@)));
        }
        if !a.has_outcome {
            let mut m = chars_of(alias);
            push_str(&mut m, ": the adequacy review records no §39.2 outcome; a review that reaches no outcome is a question, not a review");
            let d = make(Severity::Warn, "assurance.adequacy-outcome", true, file, &m);
            let ghost fs = spec_adequacy(alias@, *a).take(out@.len() as int);
            proof {
                assert(all_agree(out@, file@, fs));
            }
            push_agreeing(&mut out, d, Ghost(file@), Ghost(fs), Ghost((Severity::Warn, "assurance.adequacy-outcome"@, true, m@)));
        }
    }
    proof {
        assert(out@.len() == want.len());
        assert(want.take(want.len() as int) =~= want);
    }
    out
}

// ---------------------------------------------------------------------------
// Jurisdiction and role of each atom
// ---------------------------------------------------------------------------

/// The three jurisdictions of an atom.
#[derive(Debug, Clone, Copy, PartialEq, Eq, Structural)]
pub enum Jurisdiction {
    Authored,
    Bound,
    Generated,
}

impl Jurisdiction {
    pub open spec fn spec_word(self) -> Seq<char> {
        match self {
            Jurisdiction::Authored => "authored"@,
            Jurisdiction::Bound => "bound"@,
            Jurisdiction::Generated => "generated"@,
        }
    }

    /// The word a manifest uses for it.
    pub fn word(self) -> (r: &'static str)
        ensures
            r@ == self.spec_word(),
    {
        match self {
            Jurisdiction::Authored => "authored",
            Jurisdiction::Bound => "bound",
            Jurisdiction::Generated => "generated",
        }
    }

    /// Only an authored atom may be edited where it is read; a bound one is
    /// someone else's record and a generated one a projection.
    pub fn is_directly_editable(self) -> (r: bool)
        ensures
            r == (self == Jurisdiction::Authored),
    {
        match self {
            Jurisdiction::Authored => true,
            _ => false,
        }
    }
}

/// What the jurisdiction rules read of one atom: its source path, the
/// jurisdiction it declares as written and as parsed, whether it lives in
/// the Warrant's own directory, and its role with the jurisdiction the rules
/// assign that role when they assign exactly one (`None` for a role that
/// does not parse).
#[derive(Debug)]
pub struct AtomJurisdiction {
    pub source: String,
    pub written: String,
    pub declared: Option<Jurisdiction>,
    pub owned: bool,
    pub role: Option<(String, Option<Jurisdiction>)>,
}

/// The jurisdiction findings of one atom: an unknown jurisdiction is
/// refused and nothing more is said; an atom in the Warrant's own directory
/// must be directly editable; a role with one assigned jurisdiction must be
/// declared under it.
pub open spec fn spec_jurisdiction(alias: Seq<char>, a: AtomJurisdiction) -> Seq<Finding> {
    match a.declared {
        None => seq![(
            Severity::Error,
            "atom.unknown-jurisdiction"@,
            true,
            alias + ": atom "@ + a.source@ + " declares jurisdiction "@ + debug_str(a.written@)
                + ", which is not one of §13.3's three: authored, bound, generated"@,
        )],
        Some(j) => {
            let source: Seq<Finding> = if a.owned && j != Jurisdiction::Authored {
                seq![(
                    Severity::Error,
                    "atom.generated-as-source"@,
                    true,
                    alias + ": atom "@ + a.source@ + " lives in this Warrant's own directory but is declared `"@
                        + j.spec_word()
                        + "`, which §13.3 says is not directly editable. A projection that is hand-edited is no longer a projection."@,
                )]
            } else {
                seq![]
            };
            let role: Seq<Finding> = match a.role {
                Some((word, Some(expected))) => if expected != j {
                    seq![(
                        Severity::Error,
                        "atom.jurisdiction-mismatch"@,
                        true,
                        alias + ": atom "@ + a.source@ + " has role `"@ + word@ + "`, which §16.1 places under `"@
                            + expected.spec_word() + "`, but declares `"@ + j.spec_word() + "`"@,
                    )]
                } else {
                    seq![]
                },
                _ => seq![],
            };
            source + role
        },
    }
}

/// The jurisdiction findings of one atom at `file`.
pub fn jurisdiction_findings(alias: &str, file: &str, a: &AtomJurisdiction) -> (r: Vec<Diagnostic>)
    ensures
        all_agree(r@, file@, spec_jurisdiction(alias@, *a)),
{
    let mut out: Vec<Diagnostic> = Vec::new();
    let ghost e: Seq<Finding> = seq![];
    let j = match a.declared {
        None => {
            let mut m = chars_of(alias);
            push_str(&mut m, ": atom ");
            push_str(&mut m, a.source.as_str());
            push_str(&mut m, " declares jurisdiction ");
            let q = debug_quoted(a.written.as_str());
            push_str(&mut m, q.as_str());
            push_str(&mut m, ", which is not one of §13.3's three: authored, bound, generated");
            let d = make(Severity::Error, "atom.unknown-jurisdiction", true, file, &m);
            push_agreeing(&mut out, d, Ghost(file@), Ghost(e), Ghost((Severity::Error, "atom.unknown-jurisdiction"@, true, m@)));
            return out;
        },
        Some(j) => j,
    };
    if a.owned && !j.is_directly_editable() {
        let mut m = chars_of(alias);
        push_str(&mut m, ": atom ");
        push_str(&mut m, a.source.as_str());
        push_str(&mut m, " lives in this Warrant's own directory but is declared `");
        push_str(&mut m, j.word());
        push_str(&mut m, "`, which §13.3 says is not directly editable. A projection that is hand-edited is no longer a projection.");
        let d = make(Severity::Error, "atom.generated-as-source", true, file, &m);
        push_agreeing(&mut out, d, Ghost(file@), Ghost(e), Ghost((Severity::Error, "atom.generated-as-source"@, true, m@)));
    }
    let ghost first = out@;
    let ghost want = spec_jurisdiction(alias@, *a);
    match &a.role {
        Some((word, Some(expected))) => {
            if *expected != j {
                let mut m = chars_of(alias);
                push_str(&mut m, ": atom ");
                push_str(&mut m, a.source.as_str());
                push_str(&mut m, " has role `");
                push_str(&mut m, word.as_str());
                push_str(&mut m, "`, which §16.1 places under `");
                push_str(&mut m, expected.word());
                push_str(&mut m, "`, but declares `");
                push_str(&mut m, j.word());
                push_str(&mut m, "`");
                let d = make(Severity::Error, "atom.jurisdiction-mismatch", true, file, &m);
                let ghost fs = want.take(out@.len() as int);
                proof {
                    assert(all_agree(out@, file@, fs));
                }
                push_agreeing(&mut out, d, Ghost(file@), Ghost(fs), Ghost((Severity::Error, "atom.jurisdiction-mismatch"@, true, m@)));
            }
        },
        _ => {},
    }
    proof {
        assert(want.take(want.len() as int) =~= want);
    }
    out
}

fn char_vecs(v: &Vec<String>) -> (r: Vec<Vec<char>>)
    ensures
        views(r@) == v@.map_values(|s: String| s@),
{
    let mut r: Vec<Vec<char>> = Vec::new();
    let mut i: usize = 0;
    while i < v.len()
        invariant
            i <= v.len(),
            r.len() == i,
            views(r@) == v@.map_values(|s: String| s@).take(i as int),
        decreases v.len() - i,
    {
        let ghost before = r@;
        let c = chars_of(v[i].as_str());
        r.push(c);
        proof {
            assert(r@ =~= before.push(c));
            assert forall|k: int| 0 <= k < i + 1 implies #[trigger] views(r@)[k] == v@.map_values(|s: String| s@).take(i + 1)[k] by {
                if k < i {
                    assert(views(r@)[k] == r@[k]@);
                    assert(r@[k] == before[k]);
                    assert(views(before)[k] == before[k]@);
                }
            }
            assert(views(r@) =~= v@.map_values(|s: String| s@).take(i + 1));
        }
        i = i + 1;
    }
    proof {
        assert(v@.map_values(|s: String| s@).take(v.len() as int) =~= v@.map_values(|s: String| s@));
    }
    r
}

/// `atom.role-unprojected`: an atom whose role no row of the composition
/// table renders, `projected` being the roles the table renders, in its
/// order.
pub fn role_unprojected(alias: &str, file: &str, source: &str, role: &str, projected: &Vec<String>) -> (r: Option<Diagnostic>)
    ensures
        match r {
            None => exists|k: int| 0 <= k < projected.len() && #[trigger] projected@[k]@ == role@,
            Some(d) => (forall|k: int| 0 <= k < projected.len() ==> #[trigger] projected@[k]@ != role@)
                && finding_of(d, file@) == Some((
                Severity::Error,
                "atom.role-unprojected"@,
                true,
                alias@ + ": atom "@ + source@ + " has role `"@ + role@
                    + "`, which no projection renders — the master document and the history compose only the roles in `current.rs`'s ROLE_SECTIONS ("@
                    + join(projected@.map_values(|s: String| s@), ", "@)
                    + "). Give it one of those roles, or fold its text into the atom whose question it answers"@,
            )),
        },
{
    let mut k: usize = 0;
    while k < projected.len()
        invariant
            k <= projected.len(),
            forall|j: int| 0 <= j < k ==> #[trigger] projected@[j]@ != role@,
        decreases projected.len() - k,
    {
        if str_eq(projected[k].as_str(), role) {
            return None;
        }
        k = k + 1;
    }
    let parts = char_vecs(projected);
    let mut m = chars_of(alias);
    push_str(&mut m, ": atom ");
    push_str(&mut m, source);
    push_str(&mut m, " has role `");
    push_str(&mut m, role);
    push_str(&mut m, "`, which no projection renders — the master document and the history compose only the roles in `current.rs`'s ROLE_SECTIONS (");
    push_join(&mut m, &parts, parts.len(), ", ");
    push_str(&mut m, "). Give it one of those roles, or fold its text into the atom whose question it answers");
    proof {
        assert(views(parts@).take(parts.len() as int) =~= views(parts@));
    }
    Some(make(Severity::Error, "atom.role-unprojected", true, file, &m))
}

// ---------------------------------------------------------------------------
// Records an atom carries
// ---------------------------------------------------------------------------

/// A milestone graph that parsed: its milestones and stages, why each
/// stage whose `executor_args` is malformed is refused, and the stages no
/// milestone references.
#[derive(Debug)]
pub struct MilestoneGraph {
    pub milestones: usize,
    pub stages: usize,
    pub bad_executor_args: Vec<String>,
    pub unreferenced: Vec<String>,
}

/// The milestone findings of one milestones atom: for a graph that parsed,
/// an error per malformed `executor_args`, the pass, and a warning naming
/// the unreferenced stages when there are any; else the parse error.
pub open spec fn spec_milestones(alias: Seq<char>, parsed: Result<MilestoneGraph, String>) -> Seq<Finding> {
    match parsed {
        Ok(g) => g.bad_executor_args@.map_values(|why: String| (
            Severity::Error,
            "milestones.bad-executor-args"@,
            true,
            alias + ": "@ + why@,
        )).push((
            Severity::Pass,
            "milestones.valid"@,
            false,
            alias + ": "@ + decimal(g.milestones as nat) + " milestone(s), "@ + decimal(g.stages as nat)
                + " stage(s), acyclic with no dangling refs"@,
        )) + if g.unreferenced.len() > 0 {
            seq![(
                Severity::Warn,
                "milestones.unreferenced-stage"@,
                true,
                alias + ": stage(s) no milestone references: "@ + join(g.unreferenced@.map_values(|s: String| s@), ", "@),
            )]
        } else {
            seq![]
        },
        Err(why) => seq![(Severity::Error, "milestones.invalid"@, true, alias + ": "@ + why@)],
    }
}

/// The milestone findings of one milestones atom at `file`.
pub fn milestone_findings(alias: &str, file: &str, parsed: &Result<MilestoneGraph, String>) -> (r: Vec<Diagnostic>)
    ensures
        all_agree(r@, file@, spec_milestones(alias@, *parsed)),
{
    let mut out: Vec<Diagnostic> = Vec::new();
    let g = match parsed {
        Err(why) => {
            let mut m = chars_of(alias);
            push_str(&mut m, ": ");
            push_str(&mut m, why.as_str());
            let d = make(Severity::Error, "milestones.invalid", true, file, &m);
            push_agreeing(&mut out, d, Ghost(file@), Ghost(Seq::<Finding>::empty()), Ghost((Severity::Error, "milestones.invalid"@, true, m@)));
            return out;
        },
        Ok(g) => g,
    };
    let ghost errs = g.bad_executor_args@.map_values(|why: String| (
        Severity::Error,
        "milestones.bad-executor-args"@,
        true,
        alias@ + ": "@ + why@,
    ));
    let mut i: usize = 0;
    while i < g.bad_executor_args.len()
        invariant
            i <= g.bad_executor_args.len(),
            errs == g.bad_executor_args@.map_values(|why: String| (
                Severity::Error,
                "milestones.bad-executor-args"@,
                true,
                alias@ + ": "@ + why@,
            )),
            all_agree(out@, file@, errs.take(i as int)),
        decreases g.bad_executor_args.len() - i,
    {
        let mut m = chars_of(alias);
        push_str(&mut m, ": ");
        push_str(&mut m, g.bad_executor_args[i].as_str());
        let d = make(Severity::Error, "milestones.bad-executor-args", true, file, &m);
        proof {
            assert(errs.take(i + 1) =~= errs.take(i as int).push(errs[i as int]));
        }
        push_agreeing(&mut out, d, Ghost(file@), Ghost(errs.take(i as int)), Ghost(errs[i as int]));
        i = i + 1;
    }
    proof {
        assert(errs.take(g.bad_executor_args.len() as int) =~= errs);
    }
    let mut m = chars_of(alias);
    push_str(&mut m, ": ");
    push_decimal(&mut m, g.milestones as u64);
    push_str(&mut m, " milestone(s), ");
    push_decimal(&mut m, g.stages as u64);
    push_str(&mut m, " stage(s), acyclic with no dangling refs");
    let d = make(Severity::Pass, "milestones.valid", false, file, &m);
    push_agreeing(&mut out, d, Ghost(file@), Ghost(errs), Ghost((Severity::Pass, "milestones.valid"@, false, m@)));
    let ghost head = errs.push((Severity::Pass, "milestones.valid"@, false, m@));
    if g.unreferenced.len() > 0 {
        let parts = char_vecs(&g.unreferenced);
        let mut w = chars_of(alias);
        push_str(&mut w, ": stage(s) no milestone references: ");
        push_join(&mut w, &parts, parts.len(), ", ");
        proof {
            assert(views(parts@).take(parts.len() as int) =~= views(parts@));
        }
        let d = make(Severity::Warn, "milestones.unreferenced-stage", true, file, &w);
        push_agreeing(&mut out, d, Ghost(file@), Ghost(head), Ghost((Severity::Warn, "milestones.unreferenced-stage"@, true, w@)));
    } else {
        proof {
            assert(head + seq![] =~= head);
        }
    }
    out
}

/// The assurance records an assurance atom carries, by kind; `total` is how many
/// there are in all.
#[derive(Debug)]
pub struct EpistemicRecords {
    pub total: usize,
    pub evidence: usize,
    pub observations: usize,
    pub inferences: usize,
    pub judgments: usize,
}

/// `evidence.valid` when the atom carries assurance records, nothing when it
/// carries none, `evidence.invalid` when they do not parse.
pub open spec fn spec_records(alias: Seq<char>, parsed: Result<EpistemicRecords, String>) -> Option<Finding> {
    match parsed {
        Ok(r) => if r.total == 0 {
            None
        } else {
            Some((
                Severity::Pass,
                "evidence.valid"@,
                false,
                alias + ": "@ + decimal(r.total as nat) + " §40 record(s) — "@ + decimal(r.evidence as nat)
                    + " evidence, "@ + decimal(r.observations as nat) + " observation(s), "@
                    + decimal(r.inferences as nat) + " inference(s), "@ + decimal(r.judgments as nat)
                    + " judgment(s)"@,
            ))
        },
        Err(why) => Some((Severity::Error, "evidence.invalid"@, true, alias + ": "@ + why@)),
    }
}

/// The assurance finding of one assurance atom at `file`.
pub fn records_finding(alias: &str, file: &str, parsed: &Result<EpistemicRecords, String>) -> (r: Option<Diagnostic>)
    ensures
        match (r, spec_records(alias@, *parsed)) {
            (Some(d), Some(f)) => finding_of(d, file@) == Some(f),
            (None, None) => true,
            _ => false,
        },
{
    match parsed {
        Ok(rc) => {
            if rc.total == 0 {
                return None;
            }
            let mut m = chars_of(alias);
            push_str(&mut m, ": ");
            push_decimal(&mut m, rc.total as u64);
            push_str(&mut m, " §40 record(s) — ");
            push_decimal(&mut m, rc.evidence as u64);
            push_str(&mut m, " evidence, ");
            push_decimal(&mut m, rc.observations as u64);
            push_str(&mut m, " observation(s), ");
            push_decimal(&mut m, rc.inferences as u64);
            push_str(&mut m, " inference(s), ");
            push_decimal(&mut m, rc.judgments as u64);
            push_str(&mut m, " judgment(s)");
            Some(make(Severity::Pass, "evidence.valid", false, file, &m))
        },
        Err(why) => {
            let mut m = chars_of(alias);
            push_str(&mut m, ": ");
            push_str(&mut m, why.as_str());
            Some(make(Severity::Error, "evidence.invalid", true, file, &m))
        },
    }
}

/// An amendment record as read: `None` when the file could not be read,
/// else its id, band and number of semantic changes, or why it does not
/// parse.
pub type AmendmentRead = Option<Result<(String, String, usize), String>>;

pub open spec fn spec_amendment(alias: Seq<char>, a: AmendmentRead) -> Finding {
    match a {
        None => (Severity::Error, "amendment.unreadable"@, true, alias + ": amendment could not be read"@),
        Some(Ok((id, band, n))) => (
            Severity::Pass,
            "amendment.valid"@,
            false,
            alias + ": amendment "@ + id@ + " is a "@ + band@ + " carrying "@ + decimal(n as nat)
                + " semantic change(s)"@,
        ),
        Some(Err(why)) => (Severity::Error, "amendment.invalid"@, true, alias + ": "@ + why@),
    }
}

/// The finding on one amendment record at `file`.
pub fn amendment_finding(alias: &str, file: &str, a: &AmendmentRead) -> (r: Diagnostic)
    ensures
        finding_of(r, file@) == Some(spec_amendment(alias@, *a)),
{
    let mut m = chars_of(alias);
    match a {
        None => {
            push_str(&mut m, ": amendment could not be read");
            make(Severity::Error, "amendment.unreadable", true, file, &m)
        },
        Some(Ok((id, band, n))) => {
            push_str(&mut m, ": amendment ");
            push_str(&mut m, id.as_str());
            push_str(&mut m, " is a ");
            push_str(&mut m, band.as_str());
            push_str(&mut m, " carrying ");
            push_decimal(&mut m, *n as u64);
            push_str(&mut m, " semantic change(s)");
            make(Severity::Pass, "amendment.valid", false, file, &m)
        },
        Some(Err(why)) => {
            push_str(&mut m, ": ");
            push_str(&mut m, why.as_str());
            make(Severity::Error, "amendment.invalid", true, file, &m)
        },
    }
}

/// `lineage.reproduced`: an error for each line of an atom that carries one
/// of BLUT's lineage keys with a value, `found` being those lines and keys.
pub open spec fn spec_lineage(alias: Seq<char>, source: Seq<char>, found: Seq<(usize, String)>) -> Seq<Finding> {
    found.map_values(|p: (usize, String)| (
        Severity::Error,
        "lineage.reproduced"@,
        true,
        alias + ": atom "@ + source + ", line "@ + decimal(p.0 as nat) + " carries BLUT's `"@ + p.1@
            + "` as a key with a value. §49.3 — lineage stays authoritative in BLUT and the Warrant stores a reference. Write the shape inline in backticks if you need to show it; prose naming the field is not a copy."@,
    ))
}

/// The lineage findings of one atom at `file`.
pub fn lineage_findings(alias: &str, file: &str, source: &str, found: &Vec<(usize, String)>) -> (r: Vec<Diagnostic>)
    ensures
        all_agree(r@, file@, spec_lineage(alias@, source@, found@)),
{
    let mut out: Vec<Diagnostic> = Vec::new();
    let ghost want = spec_lineage(alias@, source@, found@);
    let mut i: usize = 0;
    while i < found.len()
        invariant
            i <= found.len(),
            want == spec_lineage(alias@, source@, found@),
            all_agree(out@, file@, want.take(i as int)),
        decreases found.len() - i,
    {
        let mut m = chars_of(alias);
        push_str(&mut m, ": atom ");
        push_str(&mut m, source);
        push_str(&mut m, ", line ");
        push_decimal(&mut m, found[i].0 as u64);
        push_str(&mut m, " carries BLUT's `");
        push_str(&mut m, found[i].1.as_str());
        push_str(&mut m, "` as a key with a value. §49.3 — lineage stays authoritative in BLUT and the Warrant stores a reference. Write the shape inline in backticks if you need to show it; prose naming the field is not a copy.");
        let d = make(Severity::Error, "lineage.reproduced", true, file, &m);
        proof {
            assert(want.take(i + 1) =~= want.take(i as int).push(want[i as int]));
        }
        push_agreeing(&mut out, d, Ghost(file@), Ghost(want.take(i as int)), Ghost(want[i as int]));
        i = i + 1;
    }
    proof {
        assert(want.take(found.len() as int) =~= want);
    }
    out
}

/// An obligation set that parsed: how many obligations, and whether the
/// milestones' obligation references all resolve against it.
#[derive(Debug)]
pub struct ObligationSet {
    pub obligations: usize,
    pub references: Result<(), String>,
}

/// The obligation findings of one assurance atom: the pass and any
/// dangling reference for a set that parsed, else the parse error.
pub open spec fn spec_obligations(alias: Seq<char>, parsed: Result<ObligationSet, String>) -> Seq<Finding> {
    match parsed {
        Ok(set) => seq![(
            Severity::Pass,
            "obligations.valid"@,
            false,
            alias + ": "@ + decimal(set.obligations as nat) + " obligation(s), each with a bounded scope and evidence"@,
        )] + match set.references {
            Ok(_) => seq![],
            Err(why) => seq![(Severity::Error, "obligations.dangling-ref"@, true, alias + ": "@ + why@)],
        },
        Err(why) => seq![(Severity::Error, "obligations.invalid"@, true, alias + ": "@ + why@)],
    }
}

/// The obligation findings of one assurance atom at `file`.
pub fn obligation_findings(alias: &str, file: &str, parsed: &Result<ObligationSet, String>) -> (r: Vec<Diagnostic>)
    ensures
        all_agree(r@, file@, spec_obligations(alias@, *parsed)),
{
    let mut out: Vec<Diagnostic> = Vec::new();
    match parsed {
        Ok(set) => {
            let mut m = chars_of(alias);
            push_str(&mut m, ": ");
            push_decimal(&mut m, set.obligations as u64);
            push_str(&mut m, " obligation(s), each with a bounded scope and evidence");
            let d = make(Severity::Pass, "obligations.valid", false, file, &m);
            let ghost f0 = (Severity::Pass, "obligations.valid"@, false, m@);
            push_agreeing(&mut out, d, Ghost(file@), Ghost(Seq::<Finding>::empty()), Ghost(f0));
            match &set.references {
                Ok(_) => {
                    proof {
                        assert(seq![f0] + seq![] =~= seq![f0]);
                    }
                },
                Err(why) => {
                    let mut w = chars_of(alias);
                    push_str(&mut w, ": ");
                    push_str(&mut w, why.as_str());
                    let d = make(Severity::Error, "obligations.dangling-ref", true, file, &w);
                    let ghost f1 = (Severity::Error, "obligations.dangling-ref"@, true, w@);
                    push_agreeing(&mut out, d, Ghost(file@), Ghost(Seq::<Finding>::empty().push(f0)), Ghost(f1));
                    proof {
                        assert(seq![f0].push(f1) =~= seq![f0] + seq![f1]);
                    }
                },
            }
        },
        Err(why) => {
            let mut m = chars_of(alias);
            push_str(&mut m, ": ");
            push_str(&mut m, why.as_str());
            let d = make(Severity::Error, "obligations.invalid", true, file, &m);
            push_agreeing(&mut out, d, Ghost(file@), Ghost(Seq::<Finding>::empty()), Ghost((Severity::Error, "obligations.invalid"@, true, m@)));
        },
    }
    out
}

/// `bonsai-scope.valid` or `bonsai-scope.invalid` for a Warrant with a
/// machine scope, `validated` being whether its names resolve to declared
/// obligations.
pub fn scope_finding(alias: &str, file: &str, validated: &Result<(), String>) -> (r: Diagnostic)
    ensures
        finding_of(r, file@) == Some(match validated {
            Ok(_) => (Severity::Pass, "bonsai-scope.valid"@, false, alias@ + ": machine scope resolves to declared obligations"@),
            Err(why) => (Severity::Error, "bonsai-scope.invalid"@, true, why@),
        }),
{
    match validated {
        Ok(_) => {
            let mut m = chars_of(alias);
            push_str(&mut m, ": machine scope resolves to declared obligations");
            make(Severity::Pass, "bonsai-scope.valid", false, file, &m)
        },
        Err(why) => {
            let m = chars_of(why.as_str());
            make(Severity::Error, "bonsai-scope.invalid", true, file, &m)
        },
    }
}

/// The position of the last `c` in `s`.
pub open spec fn last_index(s: Seq<char>, c: char) -> Option<int>
    decreases s.len(),
{
    if s.len() == 0 {
        None
    } else if s.last() == c {
        Some(s.len() - 1)
    } else {
        last_index(s.drop_last(), c)
    }
}

/// `Path::extension` of a file name: what follows its last dot, unless that
/// dot is the name's first character.
pub open spec fn extension(name: Seq<char>) -> Option<Seq<char>> {
    match last_index(name, '.') {
        Some(k) => if k > 0 {
            Some(name.skip(k + 1))
        } else {
            None
        },
        None => None,
    }
}

/// A YAML amendment record: extension `yaml` or `yml`.
pub open spec fn is_amendment_file(name: Seq<char>) -> bool {
    extension(name) == Some("yaml"@) || extension(name) == Some("yml"@)
}

fn last_dot(v: &Vec<char>) -> (r: Option<usize>)
    ensures
        match r {
            Some(k) => k < v.len() && last_index(v@, '.') == Some(k as int),
            None => last_index(v@, '.') is None,
        },
{
    let mut n: usize = v.len();
    assert(v@.take(n as int) =~= v@);
    while n > 0
        invariant
            n <= v.len(),
            last_index(v@, '.') == last_index(v@.take(n as int), '.'),
        decreases n,
    {
        proof {
            assert(v@.take(n as int).last() == v@[n - 1]);
            assert(v@.take(n as int).drop_last() =~= v@.take(n - 1));
        }
        if v[n - 1] == '.' {
            return Some(n - 1);
        }
        n = n - 1;
    }
    None
}

fn amendment_file(v: &Vec<char>) -> (r: bool)
    ensures
        r == is_amendment_file(v@),
{
    proof {
        reveal_strlit("yaml");
        reveal_strlit("yml");
    }
    match last_dot(v) {
        Some(k) => {
            if k == 0 {
                return false;
            }
            let ext = slice_of(v, k + 1, v.len());
            proof {
                assert(ext@ =~= v@.skip(k + 1));
            }
            crate::text::is_str(&ext, "yaml") || crate::text::is_str(&ext, "yml")
        },
        None => false,
    }
}

/// The amendment records among the names in an `amendments` directory:
/// those with a `yaml` or `yml` extension, in ascending order, each once.
pub fn amendment_files(names: &Vec<String>) -> (r: Vec<String>)
    ensures
        sorted_unique(strs(r@)),
        forall|y: Seq<char>|
            #[trigger] strs(r@).contains(y) <==> (is_amendment_file(y) && exists|i: int|
                0 <= i < names.len() && #[trigger] names@[i]@ == y),
{
    let mut kept: Vec<Vec<char>> = Vec::new();
    let mut i: usize = 0;
    while i < names.len()
        invariant
            i <= names.len(),
            sorted_unique(views(kept@)),
            forall|y: Seq<char>|
                #[trigger] views(kept@).contains(y) <==> (is_amendment_file(y) && exists|j: int|
                    0 <= j < i && #[trigger] names@[j]@ == y),
        decreases names.len() - i,
    {
        let v = chars_of(names[i].as_str());
        let ghost before = views(kept@);
        let ghost vv = v@;
        let is_file = amendment_file(&v);
        if is_file {
            insert_sorted(&mut kept, v);
        }
        proof {
            assert(vv == names@[i as int]@);
            if !is_file {
                assert(views(kept@) == before);
            }
            assert forall|y: Seq<char>|
                views(kept@).contains(y) <==> (is_amendment_file(y) && exists|j: int|
                    0 <= j < i + 1 && #[trigger] names@[j]@ == y) by {
                if views(kept@).contains(y) {
                    if before.contains(y) {
                        let j = choose|j: int| 0 <= j < i && #[trigger] names@[j]@ == y;
                        assert(names@[j]@ == y);
                    } else {
                        assert(y == vv);
                        assert(names@[i as int]@ == y);
                    }
                }
                if is_amendment_file(y) && exists|j: int| 0 <= j < i + 1 && #[trigger] names@[j]@ == y {
                    let j = choose|j: int| 0 <= j < i + 1 && #[trigger] names@[j]@ == y;
                    if j < i {
                        assert(before.contains(y));
                    } else {
                        assert(y == vv);
                    }
                }
            }
        }
        i = i + 1;
    }
    let mut out: Vec<String> = Vec::new();
    let mut k: usize = 0;
    while k < kept.len()
        invariant
            k <= kept.len(),
            out.len() == k,
            forall|j: int| 0 <= j < k ==> #[trigger] out@[j]@ == kept@[j]@,
        decreases kept.len() - k,
    {
        out.push(string_of(&kept[k]));
        k = k + 1;
    }
    proof {
        assert(strs(out@) =~= views(kept@));
    }
    out
}

} // verus!
