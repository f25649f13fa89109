//! The content-digest rule of `war check`: each content-addressed
//! deliverable's recorded digest, followed through its authorized
//! corrections, against the bytes at its path now.

use vstd::prelude::*;

use crate::diagnostic::{Diagnostic, Severity};
use crate::digest::{sha256_hex, sha256_of, spec_hex};
use crate::text::{
    chars_of, debug_quoted, debug_str, decimal, eq_chars, push_all, push_decimal, push_str,
    slice_of, starts_lit, starts_with, string_of, strip_all_prefix, strip_prefixes,
};

verus! {

/// Where the correction chain of one deliverable leads.
#[derive(Debug)]
pub enum ChainHead {
    /// The corrections are not numbered 1..n without gaps.
    Gap { expected: u32, found: u32 },
    /// A correction supersedes a digest that was never delivered; `why` is
    /// the chain's own account of it.
    SupersededNeverDelivered { why: String },
    /// The digest the chain ends at, reached through `corrections` records.
    Head { head: String, corrections: usize },
}

/// A later authorized Warrant that declares the same path.
#[derive(Debug)]
pub struct NewerOwner {
    pub alias: String,
    pub deliverable_id: String,
    pub authorized_at: String,
}

/// One content-addressed deliverable with what its check reads: the digest
/// its provenance records (`None` without provenance), where its correction
/// chain leads, the bytes at its path or why they cannot be read, and the
/// later owner of that path, if any.
#[derive(Debug)]
pub struct Pin {
    pub id: String,
    pub target_ref: String,
    pub content_digest: Option<String>,
    pub chain: ChainHead,
    pub target: Result<Vec<u8>, String>,
    pub newer: Option<NewerOwner>,
}

/// How a pin stands.
#[derive(Debug, Clone, Copy, PartialEq, Eq, Structural)]
pub enum PinState {
    /// The bytes are the pinned bytes.
    Holds,
    /// The bytes are the ones an authorized correction records.
    Corrected,
    /// A later authorized Warrant governs the path now.
    Historical,
    /// The pin is stale but nothing binds it.
    Stale,
    /// The pin fails the check.
    Drifted,
}

/// A finding as plain values: severity, rule, whether it is anchored to the
/// deliverables file, message.
pub type Finding = (Severity, Seq<char>, bool, Seq<char>);

/// `d` as a finding anchored (or not) to `file`.
pub open spec fn finding_of(d: Diagnostic, file: Seq<char>) -> Option<Finding> {
    match d.file {
        Some(f) => if f@ == file {
            Some((d.severity, d.rule@, true, d.message@))
        } else {
            None
        },
        None => Some((d.severity, d.rule@, false, d.message@)),
    }
}

/// The digest after one `sha256:` prefix, if it has one.
pub open spec fn sha256_body(s: Seq<char>) -> Option<Seq<char>> {
    if starts_with(s, "sha256:"@) {
        Some(s.skip(7))
    } else {
        None
    }
}

/// The verdict on one pin under `alias`, with the deliverables file `file`
/// and whether a resolution binds the manifest.
pub open spec fn spec_pin(alias: Seq<char>, bound: bool, p: Pin) -> (PinState, Option<Finding>) {
    let id = p.id@;
    let target = p.target_ref@;
    match p.content_digest {
        None => (
            PinState::Drifted,
            Some((
                Severity::Error,
                "deliverable.no-provenance"@,
                true,
                alias + ": "@ + id
                    + " declares content addressing and carries no provenance, so there is no digest to check"@,
            )),
        ),
        Some(digest) => match sha256_body(digest@) {
            None => (
                PinState::Drifted,
                Some((
                    Severity::Error,
                    "deliverable.unsupported-digest"@,
                    true,
                    alias + ": "@ + id + " records "@ + debug_str(digest@)
                        + ", and only sha256: is supported. This is not                      drift — the record cannot be checked at all"@,
                )),
            ),
            Some(recorded) => match p.chain {
                ChainHead::Gap { expected, found } => (
                    PinState::Drifted,
                    Some((
                        Severity::Error,
                        "correction.sequence-gap"@,
                        true,
                        alias + ": "@ + id
                            + " corrections are numbered 1..n without gaps; expected "@
                            + decimal(expected as nat) + ", found "@ + decimal(found as nat),
                    )),
                ),
                ChainHead::SupersededNeverDelivered { why } => (
                    PinState::Drifted,
                    Some((
                        Severity::Error,
                        "correction.superseded-never-delivered"@,
                        true,
                        alias + ": "@ + id + " — "@ + why@,
                    )),
                ),
                ChainHead::Head { head, corrections } => spec_pin_bytes(
                    alias,
                    bound,
                    p,
                    recorded,
                    head@,
                    corrections as nat,
                ),
            },
        },
    }
}

/// The verdict on a pin whose chain leads to `head` through `n` corrections,
/// once its bytes are read.
pub open spec fn spec_pin_bytes(
    alias: Seq<char>,
    bound: bool,
    p: Pin,
    recorded: Seq<char>,
    head: Seq<char>,
    n: nat,
) -> (PinState, Option<Finding>) {
    let id = p.id@;
    let target = p.target_ref@;
    match p.target {
        Err(why) => {
            let message = alias + ": "@ + id + " names "@ + target + " and it cannot be read: "@
                + why@ + ". An unreadable artifact is not a verified one"@;
            if bound {
                (
                    PinState::Drifted,
                    Some((Severity::Error, "deliverable.target-unreadable"@, true, message)),
                )
            } else {
                (
                    PinState::Stale,
                    Some((Severity::Warn, "deliverable.target-unreadable"@, true, message)),
                )
            }
        },
        Ok(bytes) => {
            let actual = spec_hex(sha256_of(bytes@));
            if actual == strip_all_prefix(head, "sha256:"@) {
                if n > 0 {
                    (
                        PinState::Corrected,
                        Some((
                            Severity::Pass,
                            "deliverable.corrected"@,
                            false,
                            alias + ": "@ + id + " corrected "@ + decimal(n) + " time(s); sha256:"@
                                + recorded + " superseded, now "@ + head,
                        )),
                    )
                } else {
                    (PinState::Holds, None)
                }
            } else if bound && p.newer is Some {
                let newer = p.newer->0;
                (
                    PinState::Historical,
                    Some((
                        Severity::Pass,
                        "deliverable.superseded-by"@,
                        false,
                        alias + ": "@ + id + " pinned "@ + target + " at "@ + head + "; "@
                            + newer.alias@ + "/"@ + newer.deliverable_id@ + " (authorized "@
                            + newer.authorized_at@
                            + ") now governs that path, so this pin is historical and the bytes are that Warrant's to answer for (OW-ADR-0021) — `war pins --history "@
                            + target + "`"@,
                    )),
                )
            } else if n > 0 {
                (
                    PinState::Drifted,
                    Some((
                        Severity::Error,
                        "correction.new-digest-mismatch"@,
                        true,
                        alias + ": "@ + id + " — the latest correction records "@ + head
                            + " but the file is sha256:"@ + actual
                            + "; it corrects nothing. A further change is a further correction, `war correct "@
                            + alias + " "@ + id + "`"@,
                    )),
                )
            } else if bound {
                (
                    PinState::Drifted,
                    Some((
                        Severity::Error,
                        "deliverable.digest-drift"@,
                        true,
                        alias + ": "@ + id + " records sha256:"@ + recorded + " for "@ + target
                            + " but the file is now sha256:"@ + actual
                            + ". A resolution binds this manifest and no later authorized Warrant declares "@
                            + target
                            + ", so the artifact moved outside any authorization — restore it; declare it as a deliverable of a Warrant and have that Warrant authorized (OW-ADR-0021); or record why it moved: `war correct "@
                            + alias + " "@ + id + "` (OW-WAR-0064)"@,
                    )),
                )
            } else {
                (
                    PinState::Stale,
                    Some((
                        Severity::Warn,
                        "deliverable.pin-stale"@,
                        true,
                        alias + ": "@ + id + " records sha256:"@ + recorded + " for "@ + target
                            + " and the file is now sha256:"@ + actual
                            + ". No resolution binds this manifest, so the pin is out of date rather than violated — `war pins --refresh "@
                            + alias + "`"@,
                    )),
                )
            }
        },
    }
}

/// The finding `(severity, rule, anchored, message)`, anchored to `file`
/// when `anchored`.
pub(crate) fn make(severity: Severity, rule: &str, anchored: bool, file: &str, message: &Vec<char>) -> (d:
    Diagnostic)
    ensures
        finding_of(d, file@) == Some((severity, rule@, anchored, message@)),
{
    let m = string_of(message);
    if anchored {
        Diagnostic::new(severity, rule, Some(file.to_owned()), m.as_str())
    } else {
        Diagnostic::new(severity, rule, None, m.as_str())
    }
}

/// Whether the runtime result and the spec agree, finding by finding.
pub open spec fn agrees(r: (PinState, Option<Diagnostic>), file: Seq<char>, s: (PinState, Option<Finding>)) -> bool {
    &&& r.0 == s.0
    &&& match (r.1, s.1) {
        (Some(d), Some(f)) => finding_of(d, file) == Some(f),
        (None, None) => true,
        _ => false,
    }
}

/// The verdict on one pin, and its finding if it has one.
pub fn pin_finding(alias: &str, file: &str, bound: bool, p: &Pin) -> (r: (PinState, Option<Diagnostic>))
    ensures
        agrees(r, file@, spec_pin(alias@, bound, *p)),
{
    let id = p.id.as_str();
    let digest = match &p.content_digest {
        None => {
            let mut m = chars_of(alias);
            push_str(&mut m, ": ");
            push_str(&mut m, id);
            push_str(
                &mut m,
                " declares content addressing and carries no provenance, so there is no digest to check",
            );
            return (
                PinState::Drifted,
                Some(make(Severity::Error, "deliverable.no-provenance", true, file, &m)),
            );
        },
        Some(d) => d,
    };
    let dv = chars_of(digest.as_str());
    if !starts_lit(&dv, "sha256:") {
        let mut m = chars_of(alias);
        push_str(&mut m, ": ");
        push_str(&mut m, id);
        push_str(&mut m, " records ");
        let q = debug_quoted(digest.as_str());
        push_str(&mut m, q.as_str());
        push_str(
            &mut m,
            ", and only sha256: is supported. This is not                      drift — the record cannot be checked at all",
        );
        return (
            PinState::Drifted,
            Some(make(Severity::Error, "deliverable.unsupported-digest", true, file, &m)),
        );
    }
    proof {
        reveal_strlit("sha256:");
    }
    let recorded = slice_of(&dv, 7, dv.len());
    assert(recorded@ =~= dv@.skip(7));
    match &p.chain {
        ChainHead::Gap { expected, found } => {
            let mut m = chars_of(alias);
            push_str(&mut m, ": ");
            push_str(&mut m, id);
            push_str(&mut m, " corrections are numbered 1..n without gaps; expected ");
            push_decimal(&mut m, *expected as u64);
            push_str(&mut m, ", found ");
            push_decimal(&mut m, *found as u64);
            (PinState::Drifted, Some(make(Severity::Error, "correction.sequence-gap", true, file, &m)))
        },
        ChainHead::SupersededNeverDelivered { why } => {
            let mut m = chars_of(alias);
            push_str(&mut m, ": ");
            push_str(&mut m, id);
            push_str(&mut m, " — ");
            push_str(&mut m, why.as_str());
            (
                PinState::Drifted,
                Some(make(Severity::Error, "correction.superseded-never-delivered", true, file, &m)),
            )
        },
        ChainHead::Head { head, corrections } => pin_bytes(
            alias,
            file,
            bound,
            p,
            &recorded,
            head.as_str(),
            *corrections,
        ),
    }
}

fn pin_bytes(
    alias: &str,
    file: &str,
    bound: bool,
    p: &Pin,
    recorded: &Vec<char>,
    head: &str,
    n: usize,
) -> (r: (PinState, Option<Diagnostic>))
    ensures
        agrees(r, file@, spec_pin_bytes(alias@, bound, *p, recorded@, head@, n as nat)),
{
    let id = p.id.as_str();
    let target = p.target_ref.as_str();
    match &p.target {
        Err(why) => {
            let mut m = chars_of(alias);
            push_str(&mut m, ": ");
            push_str(&mut m, id);
            push_str(&mut m, " names ");
            push_str(&mut m, target);
            push_str(&mut m, " and it cannot be read: ");
            push_str(&mut m, why.as_str());
            push_str(&mut m, ". An unreadable artifact is not a verified one");
            if bound {
                (
                    PinState::Drifted,
                    Some(make(Severity::Error, "deliverable.target-unreadable", true, file, &m)),
                )
            } else {
                (
                    PinState::Stale,
                    Some(make(Severity::Warn, "deliverable.target-unreadable", true, file, &m)),
                )
            }
        },
        Ok(bytes) => {
            let actual = chars_of(sha256_hex(bytes.as_slice()).as_str());
            let hv = chars_of(head);
            let prefix = chars_of("sha256:");
            let head_hex = strip_prefixes(&hv, &prefix);
            if eq_chars(&actual, &head_hex) {
                if n > 0 {
                    let mut m = chars_of(alias);
                    push_str(&mut m, ": ");
                    push_str(&mut m, id);
                    push_str(&mut m, " corrected ");
                    push_decimal(&mut m, n as u64);
                    push_str(&mut m, " time(s); sha256:");
                    push_all(&mut m, recorded);
                    push_str(&mut m, " superseded, now ");
                    push_str(&mut m, head);
                    (
                        PinState::Corrected,
                        Some(make(Severity::Pass, "deliverable.corrected", false, file, &m)),
                    )
                } else {
                    (PinState::Holds, None)
                }
            } else if bound && p.newer.is_some() {
                let newer = match &p.newer {
                    Some(w) => w,
                    None => { return (PinState::Holds, None); },
                };
                let mut m = chars_of(alias);
                push_str(&mut m, ": ");
                push_str(&mut m, id);
                push_str(&mut m, " pinned ");
                push_str(&mut m, target);
                push_str(&mut m, " at ");
                push_str(&mut m, head);
                push_str(&mut m, "; ");
                push_str(&mut m, newer.alias.as_str());
                push_str(&mut m, "/");
                push_str(&mut m, newer.deliverable_id.as_str());
                push_str(&mut m, " (authorized ");
                push_str(&mut m, newer.authorized_at.as_str());
                push_str(
                    &mut m,
                    ") now governs that path, so this pin is historical and the bytes are that Warrant's to answer for (OW-ADR-0021) — `war pins --history ",
                );
                push_str(&mut m, target);
                push_str(&mut m, "`");
                (
                    PinState::Historical,
                    Some(make(Severity::Pass, "deliverable.superseded-by", false, file, &m)),
                )
            } else if n > 0 {
                let mut m = chars_of(alias);
                push_str(&mut m, ": ");
                push_str(&mut m, id);
                push_str(&mut m, " — the latest correction records ");
                push_str(&mut m, head);
                push_str(&mut m, " but the file is sha256:");
                push_all(&mut m, &actual);
                push_str(
                    &mut m,
                    "; it corrects nothing. A further change is a further correction, `war correct ",
                );
                push_str(&mut m, alias);
                push_str(&mut m, " ");
                push_str(&mut m, id);
                push_str(&mut m, "`");
                (
                    PinState::Drifted,
                    Some(make(Severity::Error, "correction.new-digest-mismatch", true, file, &m)),
                )
            } else if bound {
                let mut m = chars_of(alias);
                push_str(&mut m, ": ");
                push_str(&mut m, id);
                push_str(&mut m, " records sha256:");
                push_all(&mut m, recorded);
                push_str(&mut m, " for ");
                push_str(&mut m, target);
                push_str(&mut m, " but the file is now sha256:");
                push_all(&mut m, &actual);
                push_str(
                    &mut m,
                    ". A resolution binds this manifest and no later authorized Warrant declares ",
                );
                push_str(&mut m, target);
                push_str(
                    &mut m,
                    ", so the artifact moved outside any authorization — restore it; declare it as a deliverable of a Warrant and have that Warrant authorized (OW-ADR-0021); or record why it moved: `war correct ",
                );
                push_str(&mut m, alias);
                push_str(&mut m, " ");
                push_str(&mut m, id);
                push_str(&mut m, "` (OW-WAR-0064)");
                (
                    PinState::Drifted,
                    Some(make(Severity::Error, "deliverable.digest-drift", true, file, &m)),
                )
            } else {
                let mut m = chars_of(alias);
                push_str(&mut m, ": ");
                push_str(&mut m, id);
                push_str(&mut m, " records sha256:");
                push_all(&mut m, recorded);
                push_str(&mut m, " for ");
                push_str(&mut m, target);
                push_str(&mut m, " and the file is now sha256:");
                push_all(&mut m, &actual);
                push_str(
                    &mut m,
                    ". No resolution binds this manifest, so the pin is out of date rather than violated — `war pins --refresh ",
                );
                push_str(&mut m, alias);
                push_str(&mut m, "`");
                (
                    PinState::Stale,
                    Some(make(Severity::Warn, "deliverable.pin-stale", true, file, &m)),
                )
            }
        },
    }
}

/// The findings of the pins in order, one for each that has one.
pub open spec fn spec_findings(alias: Seq<char>, bound: bool, ps: Seq<Pin>) -> Seq<Finding>
    decreases ps.len(),
{
    if ps.len() == 0 {
        seq![]
    } else {
        let prev = spec_findings(alias, bound, ps.drop_last());
        match spec_pin(alias, bound, ps.last()).1 {
            Some(f) => prev.push(f),
            None => prev,
        }
    }
}

/// How many of the pins stand in `state`.
pub open spec fn spec_count(alias: Seq<char>, bound: bool, ps: Seq<Pin>, state: PinState) -> nat
    decreases ps.len(),
{
    if ps.len() == 0 {
        0
    } else {
        spec_count(alias, bound, ps.drop_last(), state) + if spec_pin(alias, bound, ps.last()).0
            == state {
            1nat
        } else {
            0nat
        }
    }
}

/// The closing pass of a check in which no pin drifted.
pub open spec fn summary_message(alias: Seq<char>, n: nat, corrected: nat, historical: nat) -> Seq<
    char,
> {
    alias + ": "@ + decimal(n) + " content-addressed deliverable(s) match their bytes"@ + (if corrected
        > 0 {
        " ("@ + decimal(corrected) + " through an authorized correction)"@
    } else {
        seq![]
    }) + (if historical > 0 {
        " ("@ + decimal(historical) + " historical, governed by a later Warrant)"@
    } else {
        seq![]
    })
}

/// Everything the content-digest rule reports for one Warrant's
/// content-addressed deliverables: nothing when there are none; else each
/// pin's finding in order, closed by `deliverable.digests` when no pin
/// drifted.
pub open spec fn spec_digests(alias: Seq<char>, bound: bool, ps: Seq<Pin>) -> Seq<Finding> {
    if ps.len() == 0 {
        seq![]
    } else if spec_count(alias, bound, ps, PinState::Drifted) == 0 {
        spec_findings(alias, bound, ps).push(
            (
                Severity::Pass,
                "deliverable.digests"@,
                false,
                summary_message(
                    alias,
                    ps.len(),
                    spec_count(alias, bound, ps, PinState::Corrected),
                    spec_count(alias, bound, ps, PinState::Historical),
                ),
            ),
        )
    } else {
        spec_findings(alias, bound, ps)
    }
}

/// Whether the diagnostics are, one for one, the findings.
pub open spec fn all_agree(ds: Seq<Diagnostic>, file: Seq<char>, fs: Seq<Finding>) -> bool {
    &&& ds.len() == fs.len()
    &&& forall|i: int| 0 <= i < ds.len() ==> finding_of(#[trigger] ds[i], file) == Some(fs[i])
}

/// The content-digest findings of one Warrant, `file` being its
/// deliverables file and `bound` whether a resolution binds it.
pub fn deliverable_digests(alias: &str, file: &str, bound: bool, pins: &Vec<Pin>) -> (r: Vec<
    Diagnostic,
>)
    ensures
        all_agree(r@, file@, spec_digests(alias@, bound, pins@)),
{
    let mut out: Vec<Diagnostic> = Vec::new();
    if pins.len() == 0 {
        return out;
    }
    let mut drifted: usize = 0;
    let mut corrected: usize = 0;
    let mut historical: usize = 0;
    let mut i: usize = 0;
    while i < pins.len()
        invariant
            i <= pins.len(),
            drifted <= i,
            corrected <= i,
            historical <= i,
            drifted == spec_count(alias@, bound, pins@.take(i as int), PinState::Drifted),
            corrected == spec_count(alias@, bound, pins@.take(i as int), PinState::Corrected),
            historical == spec_count(alias@, bound, pins@.take(i as int), PinState::Historical),
            all_agree(out@, file@, spec_findings(alias@, bound, pins@.take(i as int))),
        decreases pins.len() - i,
    {
        let (state, finding) = pin_finding(alias, file, bound, &pins[i]);
        proof {
            let t = pins@.take(i + 1);
            assert(t.drop_last() =~= pins@.take(i as int));
            assert(t.last() == pins@[i as int]);
        }
        match state {
            PinState::Drifted => { drifted = drifted + 1; },
            PinState::Corrected => { corrected = corrected + 1; },
            PinState::Historical => { historical = historical + 1; },
            _ => {},
        }
        match finding {
            Some(d) => { out.push(d); },
            None => {},
        }
        i = i + 1;
    }
    proof {
        assert(pins@.take(pins.len() as int) =~= pins@);
    }
    if drifted == 0 {
        let mut m = chars_of(alias);
        push_str(&mut m, ": ");
        push_decimal(&mut m, pins.len() as u64);
        push_str(&mut m, " content-addressed deliverable(s) match their bytes");
        if corrected > 0 {
            push_str(&mut m, " (");
            push_decimal(&mut m, corrected as u64);
            push_str(&mut m, " through an authorized correction)");
        }
        if historical > 0 {
            push_str(&mut m, " (");
            push_decimal(&mut m, historical as u64);
            push_str(&mut m, " historical, governed by a later Warrant)");
        }
        proof {
            reveal_strlit("");
        }
        let d = make(Severity::Pass, "deliverable.digests", false, file, &m);
        proof {
            assert(m@ =~= summary_message(alias@, pins.len() as nat, corrected as nat, historical as nat));
        }
        let ghost before = out@;
        out.push(d);
        proof {
            let fs = spec_digests(alias@, bound, pins@);
            assert forall|k: int| 0 <= k < out@.len() implies finding_of(#[trigger] out@[k], file@) == Some(fs[k]) by {
                if k < before.len() {
                    assert(out@[k] == before[k]);
                }
            }
        }
    }
    out
}

/// Nobody has signed for an unbound Warrant, so its pins are notes about
/// files, not promises: a checkable pin with no correction never drifts.
pub proof fn lemma_unbound_pin_never_drifts(alias: Seq<char>, p: Pin)
    requires
        p.content_digest matches Some(d) && sha256_body(d@) is Some,
        p.chain matches ChainHead::Head { corrections, .. } && corrections == 0,
    ensures
        spec_pin(alias, false, p).0 != PinState::Drifted,
{
}

/// A bound pin with no correction and no later owner, whose bytes moved, is
/// an error: the artifact moved outside any authorization.
pub proof fn lemma_bound_moved_pin_is_an_error(alias: Seq<char>, p: Pin)
    requires
        p.content_digest matches Some(d) && sha256_body(d@) is Some,
        p.chain is Head,
        p.chain->corrections == 0,
        p.target is Ok,
        spec_hex(sha256_of(p.target->Ok_0@)) != strip_all_prefix(p.chain->head@, "sha256:"@),
        p.newer is None,
    ensures
        spec_pin(alias, true, p).0 == PinState::Drifted,
        spec_pin(alias, true, p).1 matches Some(f) && f.0 == Severity::Error && f.1
            == "deliverable.digest-drift"@,
{
}

} // verus!
