//! `war attest`: attestations for ssh-signed acts.
//!
//! Verifying an attestation rechecks every subject it names against the file
//! on disk today (a record edited after its attestation has drifted), then
//! the signature. This module holds those decisions and the summary of a
//! whole-repository run; reading files and running `ssh-keygen` happen
//! around it.

use vstd::prelude::*;

use crate::diagnostic::{Diagnostic, Report};
use crate::digest::{sha256_hex, sha256_of, spec_hex};
use crate::text::{chars_of, contains, decimal, has_char, push_decimal, push_str, str_eq, string_of};

verus! {

/// Whether a subject names something other than a file, such as
/// `contract:<alias>`: it has a `:` and no `/`.
pub open spec fn is_named_digest(name: Seq<char>) -> bool {
    name.contains(':') && !name.contains('/')
}

/// What rechecking one subject found.
#[derive(Debug, Clone, PartialEq, Eq)]
pub enum SubjectCheck {
    /// Not a file: nothing to recheck.
    NotAFile,
    /// The file's bytes still hash to the attested digest.
    Intact,
    /// The subject carries no sha256.
    NoDigest { message: String },
    /// The file changed, or cannot be read.
    Drifted { message: String },
}

pub open spec fn no_digest(name: Seq<char>) -> Seq<char> {
    "subject "@ + name + " carries no sha256"@
}

pub open spec fn drifted(name: Seq<char>, want: Seq<char>, act: Seq<char>) -> Seq<char> {
    name + " no longer matches the digest attested for it (sha256:"@ + want
        + "); the record was edited after the "@ + act + " was attested"@
}

/// How one subject fares against the file today: a named digest is skipped;
/// a subject without a sha256 is malformed; a file that cannot be read, or
/// whose bytes no longer hash to the attested digest, has drifted.
pub open spec fn spec_subject_check(
    name: Seq<char>,
    want: Option<Seq<char>>,
    bytes: Result<Seq<u8>, Seq<char>>,
    act: Seq<char>,
) -> (int, Seq<char>) {
    if is_named_digest(name) {
        (0, seq![])
    } else {
        match want {
            None => (2, no_digest(name)),
            Some(w) => match bytes {
                Ok(b) => if spec_hex(sha256_of(b)) == w {
                    (1, seq![])
                } else {
                    (3, drifted(name, w, act))
                },
                Err(e) => (3, name + ": "@ + e),
            },
        }
    }
}

pub open spec fn check_view(c: SubjectCheck) -> (int, Seq<char>) {
    match c {
        SubjectCheck::NotAFile => (0, seq![]),
        SubjectCheck::Intact => (1, seq![]),
        SubjectCheck::NoDigest { message } => (2, message@),
        SubjectCheck::Drifted { message } => (3, message@),
    }
}

pub open spec fn opt_view(o: Option<&str>) -> Option<Seq<char>> {
    match o {
        Some(s) => Some(s@),
        None => None,
    }
}

pub open spec fn bytes_view(b: Result<Vec<u8>, String>) -> Result<Seq<u8>, Seq<char>> {
    match b {
        Ok(v) => Ok(v@),
        Err(e) => Err(e@),
    }
}

/// Recheck one attested subject against the bytes of its file now.
pub fn subject_check(name: &str, want: Option<&str>, bytes: &Result<Vec<u8>, String>, act: &str) -> (r:
    SubjectCheck)
    ensures
        check_view(r) == spec_subject_check(name@, opt_view(want), bytes_view(*bytes), act@),
{
    let n = chars_of(name);
    if has_char(&n, ':') && !has_char(&n, '/') {
        return SubjectCheck::NotAFile;
    }
    let w = match want {
        None => {
            let mut m = chars_of("subject ");
            push_str(&mut m, name);
            push_str(&mut m, " carries no sha256");
            return SubjectCheck::NoDigest { message: string_of(&m) };
        },
        Some(w) => w,
    };
    match bytes {
        Ok(b) => {
            let h = sha256_hex(b.as_slice());
            if str_eq(h.as_str(), w) {
                SubjectCheck::Intact
            } else {
                let mut m = chars_of(name);
                push_str(&mut m, " no longer matches the digest attested for it (sha256:");
                push_str(&mut m, w);
                push_str(&mut m, "); the record was edited after the ");
                push_str(&mut m, act);
                push_str(&mut m, " was attested");
                SubjectCheck::Drifted { message: string_of(&m) }
            }
        },
        Err(e) => {
            let mut m = chars_of(name);
            push_str(&mut m, ": ");
            push_str(&mut m, e.as_str());
            SubjectCheck::Drifted { message: string_of(&m) }
        },
    }
}

/// The finding for an attestation whose subjects were rechecked and whose
/// signature was checked: verified when the signature holds and nothing
/// drifted; the signature alone when something drifted; failed otherwise.
pub open spec fn spec_signature_finding(
    rel: Seq<char>,
    act: Seq<char>,
    principal: Seq<char>,
    keyid: Seq<char>,
    subjects: nat,
    drifted: bool,
    signature: Result<(), Seq<char>>,
) -> (crate::diagnostic::Severity, Seq<char>, Seq<char>) {
    match signature {
        Ok(()) => if !drifted {
            (
                crate::diagnostic::Severity::Pass,
                "attest.verified"@,
                rel + ": "@ + act + " attested by "@ + principal + " ("@ + keyid + "), "@ + decimal(
                    subjects,
                ) + " subject(s) intact"@,
            )
        } else {
            (
                crate::diagnostic::Severity::Pass,
                "attest.signature-verified"@,
                rel + ": signature verifies as "@ + principal
                    + ", but a subject drifted (above)"@,
            )
        },
        Err(why) => (crate::diagnostic::Severity::Error, "attest.failed"@, why),
    }
}

pub open spec fn result_view(r: Result<(), String>) -> Result<(), Seq<char>> {
    match r {
        Ok(()) => Ok(()),
        Err(e) => Err(e@),
    }
}

/// The finding the signature check earns.
pub fn signature_finding(
    rel: &str,
    act: &str,
    principal: &str,
    keyid: &str,
    subjects: usize,
    drifted: bool,
    signature: &Result<(), String>,
) -> (d: Diagnostic)
    ensures
        (d.severity, d.rule@, d.message@) == spec_signature_finding(
            rel@,
            act@,
            principal@,
            keyid@,
            subjects as nat,
            drifted,
            result_view(*signature),
        ),
        d.severity == crate::diagnostic::Severity::Error ==> (d.file matches Some(f) && f@ == rel@),
{
    match signature {
        Ok(()) => {
            if !drifted {
                let mut m = chars_of(rel);
                push_str(&mut m, ": ");
                push_str(&mut m, act);
                push_str(&mut m, " attested by ");
                push_str(&mut m, principal);
                push_str(&mut m, " (");
                push_str(&mut m, keyid);
                push_str(&mut m, "), ");
                push_decimal(&mut m, subjects as u64);
                push_str(&mut m, " subject(s) intact");
                Diagnostic::pass("attest.verified", string_of(&m).as_str())
            } else {
                let mut m = chars_of(rel);
                push_str(&mut m, ": signature verifies as ");
                push_str(&mut m, principal);
                push_str(&mut m, ", but a subject drifted (above)");
                Diagnostic::pass("attest.signature-verified", string_of(&m).as_str())
            }
        },
        Err(why) => Diagnostic::error("attest.failed", rel, why.as_str()),
    }
}

/// The findings of each file, one file after another.
pub open spec fn flat(s: Seq<Vec<Diagnostic>>) -> Seq<Diagnostic>
    decreases s.len(),
{
    if s.len() == 0 {
        seq![]
    } else {
        s[0]@ + flat(s.drop_first())
    }
}

/// Every attestation in the repository, checked: each file's findings in
/// order, then how many were checked.
pub fn verify_all(per_file: Vec<Vec<Diagnostic>>) -> (r: Report)
    ensures
        r.notes@.len() == 0,
        r.diagnostics@.len() > 0,
        r.diagnostics@.drop_last() == flat(per_file@),
        r.diagnostics@.last().severity == crate::diagnostic::Severity::Pass,
        r.diagnostics@.last().rule@ == "attest.checked"@,
        r.diagnostics@.last().message@ == decimal(per_file@.len()) + " attestation(s) checked"@,
{
    let count = per_file.len();
    let ghost all = per_file@;
    let mut rest = per_file;
    let mut report = Report::default();
    while rest.len() > 0
        invariant
            report.notes@.len() == 0,
            report.diagnostics@ + flat(rest@) == flat(all),
        decreases rest.len(),
    {
        let ghost before = rest@;
        let mut first = rest.remove(0);
        proof {
            assert(rest@ =~= before.drop_first());
            assert(first@ == before[0]@);
        }
        let ghost d0 = report.diagnostics@;
        report.diagnostics.append(&mut first);
        proof {
            assert(report.diagnostics@ + flat(rest@) =~= d0 + flat(before));
        }
    }
    proof {
        assert(flat(rest@) =~= Seq::<Diagnostic>::empty());
        assert(report.diagnostics@ =~= flat(all));
    }
    let mut m: Vec<char> = Vec::new();
    push_decimal(&mut m, count as u64);
    push_str(&mut m, " attestation(s) checked");
    let ghost body = report.diagnostics@;
    report.push(Diagnostic::pass("attest.checked", string_of(&m).as_str()));
    proof {
        assert(report.diagnostics@.drop_last() =~= body);
    }
    report
}

/// The first whitespace-separated word of `ssh-keygen -lf` output that is
/// a `SHA256:` fingerprint.
pub open spec fn first_fingerprint(ws: Seq<Seq<char>>) -> Option<Seq<char>>
    decreases ws.len(),
{
    if ws.len() == 0 {
        None
    } else if crate::text::starts_with(ws[0], "SHA256:"@) {
        Some(ws[0])
    } else {
        first_fingerprint(ws.drop_first())
    }
}

pub open spec fn fingerprint_view(r: Result<String, String>) -> Result<Seq<char>, Seq<char>> {
    match r {
        Ok(k) => Ok(k@),
        Err(e) => Err(e@),
    }
}

/// The DSSE `keyid` of a principal's key out of `ssh-keygen -lf -E sha256`
/// output; an error naming the output when it carries none.
pub fn fingerprint_in(text: &str) -> (r: Result<String, String>)
    ensures
        fingerprint_view(r) == match first_fingerprint(crate::draft::split_words(text@)) {
            Some(k) => Ok(k),
            None => Err("no SHA256 fingerprint in "@ + crate::text::debug_str(text@)),
        },
{
    let ws = crate::draft::words(text);
    let ghost all = crate::draft::split_words(text@);
    let mut i: usize = 0;
    proof {
        assert(all.skip(0) =~= all);
    }
    while i < ws.len()
        invariant
            i <= ws.len(),
            crate::text::strs(ws@) == all,
            all == crate::draft::split_words(text@),
            first_fingerprint(all) == first_fingerprint(all.skip(i as int)),
        decreases ws.len() - i,
    {
        proof {
            assert(all.len() == ws.len());
            assert(all.skip(i as int).len() > 0);
            assert(all.skip(i as int)[0] == ws@[i as int]@);
            assert(all.skip(i as int).drop_first() =~= all.skip(i + 1));
        }
        let w = chars_of(ws[i].as_str());
        if crate::text::starts_lit(&w, "SHA256:") {
            return Ok(string_of(&w));
        }
        i = i + 1;
    }
    proof {
        assert(all.skip(ws.len() as int).len() == 0);
    }
    let mut m = chars_of("no SHA256 fingerprint in ");
    push_str(&mut m, crate::text::debug_quoted(text).as_str());
    Err(string_of(&m))
}

/// The most attestations one act may have in one directory.
pub const ATTESTATION_LIMIT: u32 = 10000;

/// The `n`th attestation file name of an act.
pub fn attestation_name(stem: &str, n: u32) -> (r: String)
    ensures
        r@ == stem@ + "-"@ + decimal(n as nat) + ".dsse.json"@,
{
    let mut out = chars_of(stem);
    push_str(&mut out, "-");
    push_decimal(&mut out, n as u64);
    push_str(&mut out, ".dsse.json");
    string_of(&out)
}

/// The refusal when every attestation name of an act is taken.
pub fn names_exhausted(dir: &str, stem: &str) -> (r: String)
    ensures
        r@ == dir@ + ": more than 10000 "@ + stem@ + "-N.dsse.json files; refusing to allocate another"@,
{
    let mut out = chars_of(dir);
    push_str(&mut out, ": more than 10000 ");
    push_str(&mut out, stem);
    push_str(&mut out, "-N.dsse.json files; refusing to allocate another");
    string_of(&out)
}

/// The finding the signature stage of a check earns, in the order the
/// checks are made: a predicate actor the register does not bind to a
/// principal, a signature that is not base64, `ssh-keygen` missing from the
/// machine (the signature is then unchecked, neither passed nor failed),
/// and otherwise what verifying the signature found.
pub open spec fn spec_signature_stage(
    rel: Seq<char>,
    act: Seq<char>,
    actor: Seq<char>,
    principal: Result<Seq<char>, Seq<char>>,
    keyid: Seq<char>,
    subjects: nat,
    drifted: bool,
    base64_ok: bool,
    keygen_present: bool,
    signature: Result<(), Seq<char>>,
) -> (crate::diagnostic::Severity, Seq<char>, Seq<char>) {
    match principal {
        Err(why) => (
            crate::diagnostic::Severity::Error,
            "attest.unknown-principal"@,
            "predicate actor "@ + crate::text::debug_str(actor) + ": "@ + why,
        ),
        Ok(p) => if !base64_ok {
            (crate::diagnostic::Severity::Error, "attest.malformed"@, "signature is not base64"@)
        } else if !keygen_present {
            (
                crate::diagnostic::Severity::Unknown,
                "attest.unchecked"@,
                "ssh-keygen is not on PATH; the signature was not verified"@,
            )
        } else {
            spec_signature_finding(rel, act, p, keyid, subjects, drifted, signature)
        },
    }
}

pub open spec fn principal_view(p: Result<String, String>) -> Result<Seq<char>, Seq<char>> {
    match p {
        Ok(a) => Ok(a@),
        Err(e) => Err(e@),
    }
}

/// The finding of an attestation's signature stage.
pub fn signature_stage(
    rel: &str,
    act: &str,
    actor: &str,
    principal: &Result<String, String>,
    keyid: &str,
    subjects: usize,
    drifted: bool,
    base64_ok: bool,
    keygen_present: bool,
    signature: &Result<(), String>,
) -> (d: Diagnostic)
    ensures
        (d.severity, d.rule@, d.message@) == spec_signature_stage(
            rel@,
            act@,
            actor@,
            principal_view(*principal),
            keyid@,
            subjects as nat,
            drifted,
            base64_ok,
            keygen_present,
            result_view(*signature),
        ),
        d.severity != crate::diagnostic::Severity::Pass ==> (d.file matches Some(f) && f@ == rel@),
{
    match principal {
        Err(why) => {
            let mut m = chars_of("predicate actor ");
            push_str(&mut m, crate::text::debug_quoted(actor).as_str());
            push_str(&mut m, ": ");
            push_str(&mut m, why.as_str());
            Diagnostic::error("attest.unknown-principal", rel, string_of(&m).as_str())
        },
        Ok(p) => if !base64_ok {
            Diagnostic::error("attest.malformed", rel, "signature is not base64")
        } else if !keygen_present {
            Diagnostic::unknown("attest.unchecked", rel, "ssh-keygen is not on PATH; the signature was not verified")
        } else {
            signature_finding(rel, act, p.as_str(), keyid, subjects, drifted, signature)
        },
    }
}

/// The findings the subjects' checks earn, in order: a subject with no
/// sha256 is malformed, a drifted one is `attest.subject-drift`, the others
/// earn nothing.
pub open spec fn spec_subject_findings(cs: Seq<SubjectCheck>) -> Seq<(Seq<char>, Seq<char>)>
    decreases cs.len(),
{
    if cs.len() == 0 {
        seq![]
    } else {
        let rest = spec_subject_findings(cs.drop_last());
        let c = check_view(cs.last());
        if c.0 == 2 {
            rest.push(("attest.malformed"@, c.1))
        } else if c.0 == 3 {
            rest.push(("attest.subject-drift"@, c.1))
        } else {
            rest
        }
    }
}

/// Whether some subject is malformed or has drifted: the attestation is
/// then not verified, whatever its signature says.
pub open spec fn some_drifted(cs: Seq<SubjectCheck>) -> bool {
    exists|k: int| 0 <= k < cs.len() && (#[trigger] check_view(cs[k])).0 >= 2
}

/// The subject stage of checking an attestation at `rel`: its error
/// findings, each anchored to `rel`, and whether a subject drifted.
pub fn subject_findings(rel: &str, checks: &Vec<SubjectCheck>) -> (r: (Vec<Diagnostic>, bool))
    ensures
        r.0@.map_values(|d: Diagnostic| (d.rule@, d.message@)) == spec_subject_findings(checks@),
        forall|k: int| 0 <= k < r.0@.len() ==> ((#[trigger] r.0@[k]).severity == crate::diagnostic::Severity::Error
            && r.0@[k].file == Some(r.0@[k].file->Some_0) && r.0@[k].file->Some_0@ == rel@),
        r.1 == some_drifted(checks@),
{
    let mut out: Vec<Diagnostic> = Vec::new();
    let mut drifted = false;
    let mut i: usize = 0;
    while i < checks.len()
        invariant
            i <= checks.len(),
            out@.map_values(|d: Diagnostic| (d.rule@, d.message@)) == spec_subject_findings(checks@.take(i as int)),
            forall|k: int| 0 <= k < out@.len() ==> ((#[trigger] out@[k]).severity == crate::diagnostic::Severity::Error
                && out@[k].file == Some(out@[k].file->Some_0) && out@[k].file->Some_0@ == rel@),
            drifted == some_drifted(checks@.take(i as int)),
        decreases checks.len() - i,
    {
        let ghost t = checks@.take(i + 1);
        let ghost before = out@;
        proof {
            assert(t.drop_last() =~= checks@.take(i as int));
            assert(t.last() == checks@[i as int]);
        }
        match &checks[i] {
            SubjectCheck::NoDigest { message } => {
                out.push(Diagnostic::error("attest.malformed", rel, message.as_str()));
                drifted = true;
            },
            SubjectCheck::Drifted { message } => {
                out.push(Diagnostic::error("attest.subject-drift", rel, message.as_str()));
                drifted = true;
            },
            _ => {},
        }
        proof {
            assert(out@.map_values(|d: Diagnostic| (d.rule@, d.message@)) =~= spec_subject_findings(t));
            assert(some_drifted(t) == (some_drifted(checks@.take(i as int)) || check_view(checks@[i as int]).0 >= 2)) by {
                if some_drifted(t) {
                    let k = choose|k: int| 0 <= k < t.len() && (#[trigger] check_view(t[k])).0 >= 2;
                    if k < i {
                        assert(checks@.take(i as int)[k] == t[k]);
                    }
                }
                if some_drifted(checks@.take(i as int)) {
                    let k = choose|k: int| 0 <= k < i && (#[trigger] check_view(checks@.take(i as int)[k])).0 >= 2;
                    assert(t[k] == checks@.take(i as int)[k]);
                }
                if check_view(checks@[i as int]).0 >= 2 {
                    assert(check_view(t[i as int]).0 >= 2);
                }
            }
        }
        i = i + 1;
    }
    proof {
        assert(checks@.take(checks.len() as int) =~= checks@);
    }
    (out, drifted)
}

} // verus!
