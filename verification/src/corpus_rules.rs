//! Rules `war check` applies once to the corpus as a whole: the SAS
//! document against its recorded revision, the acceptance of each SAS
//! revision, committed projections against a fresh compilation, stray temp
//! files, declared independence per assurance level, parent cycles, the ADR
//! corpus, and the notes every run prints.

use vstd::prelude::*;

use crate::authority_check::Verdict;
use crate::diagnostic::{Diagnostic, Severity};
use crate::digest::{sha256_hex, sha256_of, spec_hex};
use crate::pins::{all_agree, finding_of, make, Finding};
use crate::text::{
    chars_of, decimal, eq_chars, insert_sorted, join, push_all, push_decimal, push_join, push_str,
    slice_of, sorted_unique, str_eq, string_of, strs, views,
};
use crate::warrant_rules::push_agreeing;

verus! {

/// A recorded SAS revision: version, state, and the digest it records.
#[derive(Debug)]
pub struct SasPin {
    pub version: String,
    pub state: String,
    pub sha256: String,
}

/// The first revision other than `pinned` that records `digest`.
pub open spec fn proposal_of(revs: Seq<SasPin>, digest: Seq<char>, pinned: Seq<char>) -> Option<SasPin>
    decreases revs.len(),
{
    if revs.len() == 0 {
        None
    } else if revs[0].sha256@ == digest && revs[0].version@ != pinned {
        Some(revs[0])
    } else {
        proposal_of(revs.drop_first(), digest, pinned)
    }
}

/// The SAS document at `doc` against the pinned revision: its bytes match
/// the recorded digest; or they are a recorded proposal awaiting
/// acceptance; or they drifted under an unchanged record.
pub open spec fn spec_sas_document(doc: Seq<char>, pin: SasPin, revs: Seq<SasPin>, bytes: Seq<u8>) -> Finding {
    let actual = spec_hex(sha256_of(bytes));
    if actual == pin.sha256@ {
        (
            Severity::Pass,
            "sas.pinned"@,
            false,
            doc + " matches revision "@ + pin.version@ + " ("@ + pin.state@ + "), sha256:"@ + pin.sha256@.take(12),
        )
    } else {
        match proposal_of(revs, actual, pin.version@) {
            Some(p) => (
                Severity::Warn,
                "sas.proposed-unaccepted"@,
                true,
                "the document is revision "@ + p.version@ + " ("@ + p.state@ + "), sha256:"@ + actual.take(12)
                    + "; the accepted revision "@ + pin.version@ + " remains normative until `war sign "@ + p.version@
                    + "` accepts it"@,
            ),
            None => (
                Severity::Error,
                "sas.digest-drift"@,
                true,
                "the document is sha256:"@ + actual + " but revision "@ + pin.version@ + " ("@ + pin.state@
                    + ") records sha256:"@ + pin.sha256@
                    + ". §101.6: the accepted revision is normative and mirrors state its exact digest. Either restore the bytes or propose a new revision — an edited document under an unchanged record is the failure this check exists for"@,
            ),
        }
    }
}

/// The finding on the SAS document at `doc`, whose bytes are `bytes`, held
/// to the pinned revision `pin` among the recorded `revisions`. The pin's
/// digest is shown by its first twelve characters, which must be ASCII.
pub fn sas_document_finding(doc: &str, pin: &SasPin, revisions: &Vec<SasPin>, bytes: &[u8]) -> (d: Diagnostic)
    requires
        pin.sha256@.len() >= 12,
        forall|i: int| 0 <= i < 12 ==> (pin.sha256@[i] as u32) < 128,
    ensures
        finding_of(d, doc@) == Some(spec_sas_document(doc@, *pin, revisions@, bytes@)),
{
    let actual_s = sha256_hex(bytes);
    let actual = chars_of(actual_s.as_str());
    let recorded = chars_of(pin.sha256.as_str());
    if eq_chars(&actual, &recorded) {
        let mut m = chars_of(doc);
        push_str(&mut m, " matches revision ");
        push_str(&mut m, pin.version.as_str());
        push_str(&mut m, " (");
        push_str(&mut m, pin.state.as_str());
        push_str(&mut m, "), sha256:");
        let head = slice_of(&recorded, 0, 12);
        push_all(&mut m, &head);
        proof {
            assert(head@ =~= pin.sha256@.take(12));
        }
        return make(Severity::Pass, "sas.pinned", false, doc, &m);
    }
    let mut k: usize = 0;
    assert(revisions@.skip(0) =~= revisions@);
    while k < revisions.len()
        invariant
            k <= revisions.len(),
            actual@ == spec_hex(sha256_of(bytes@)),
            actual@ == actual_s@,
            actual.len() == 64,
            actual@ != pin.sha256@,
            proposal_of(revisions@, actual@, pin.version@) == proposal_of(revisions@.skip(k as int), actual@, pin.version@),
        decreases revisions.len() - k,
    {
        proof {
            assert(revisions@.skip(k as int)[0] == revisions@[k as int]);
            assert(revisions@.skip(k as int).drop_first() =~= revisions@.skip(k + 1));
        }
        let r = &revisions[k];
        if str_eq(r.sha256.as_str(), actual_s.as_str()) && !str_eq(r.version.as_str(), pin.version.as_str()) {
            let mut m = chars_of("the document is revision ");
            push_str(&mut m, r.version.as_str());
            push_str(&mut m, " (");
            push_str(&mut m, r.state.as_str());
            push_str(&mut m, "), sha256:");
            let head = slice_of(&actual, 0, 12);
            push_all(&mut m, &head);
            push_str(&mut m, "; the accepted revision ");
            push_str(&mut m, pin.version.as_str());
            push_str(&mut m, " remains normative until `war sign ");
            push_str(&mut m, r.version.as_str());
            push_str(&mut m, "` accepts it");
            proof {
                assert(head@ =~= actual@.take(12));
            }
            return make(Severity::Warn, "sas.proposed-unaccepted", true, doc, &m);
        }
        k = k + 1;
    }
    let mut m = chars_of("the document is sha256:");
    push_all(&mut m, &actual);
    push_str(&mut m, " but revision ");
    push_str(&mut m, pin.version.as_str());
    push_str(&mut m, " (");
    push_str(&mut m, pin.state.as_str());
    push_str(&mut m, ") records sha256:");
    push_str(&mut m, pin.sha256.as_str());
    push_str(&mut m, ". §101.6: the accepted revision is normative and mirrors state its exact digest. Either restore the bytes or propose a new revision — an edited document under an unchanged record is the failure this check exists for");
    make(Severity::Error, "sas.digest-drift", true, doc, &m)
}

/// `sas.unrecorded`: no SAS revision is recorded.
pub fn sas_unrecorded(sas_path: &str) -> (d: Diagnostic)
    ensures
        finding_of(d, sas_path@) == Some((
            Severity::Warn,
            "sas.unrecorded"@,
            true,
            "no SAS revision is recorded; the document is pinned by prose only. `war sas propose <version>` records one"@,
        )),
{
    let m = chars_of("no SAS revision is recorded; the document is pinned by prose only. `war sas propose <version>` records one");
    make(Severity::Warn, "sas.unrecorded", true, sas_path, &m)
}

/// The record file of SAS revision `v`.
pub open spec fn revision_file(v: Seq<char>) -> Seq<char> {
    "docs/sas/revisions/"@ + v + ".toml"@
}

/// The acceptance of SAS revision `version`, signed or not: a signed
/// acceptance passes; an unsigned one is an error for the revision in force
/// and a warning for a superseded one, normative for nothing.
pub open spec fn spec_acceptance(version: Seq<char>, pin: Option<Seq<char>>, v: Verdict) -> Finding {
    let subject = "SAS-"@ + version;
    if v is Signed {
        (Severity::Pass, "authority.signed"@, false, subject + ": "@ + v.spec_why())
    } else if pin == Some(version) {
        (Severity::Error, v.spec_rule(), true, subject + ": "@ + v.spec_why())
    } else {
        (
            Severity::Warn,
            v.spec_rule(),
            true,
            subject + ": superseded by "@ + (match pin { Some(p) => p, None => "no accepted revision"@ })
                + " and normative for nothing; "@ + v.spec_why(),
        )
    }
}

/// The finding on the acceptance of SAS revision `version`, `pin` being the
/// revision in force; anchored to the revision's record.
pub fn acceptance_finding(version: &str, pin: &Option<String>, v: &Verdict) -> (d: Diagnostic)
    ensures
        finding_of(d, revision_file(version@)) == Some(spec_acceptance(version@, crate::section_refs::oview(*pin), *v)),
{
    let mut file = chars_of("docs/sas/revisions/");
    push_str(&mut file, version);
    push_str(&mut file, ".toml");
    let file_s = string_of(&file);
    let mut m = chars_of("SAS-");
    push_str(&mut m, version);
    let why = v.why();
    if v.is_signed() {
        push_str(&mut m, ": ");
        push_str(&mut m, why.as_str());
        return make(Severity::Pass, "authority.signed", false, file_s.as_str(), &m);
    }
    let in_force = match pin {
        Some(p) => str_eq(p.as_str(), version),
        None => false,
    };
    if in_force {
        push_str(&mut m, ": ");
        push_str(&mut m, why.as_str());
        make(Severity::Error, v.rule(), true, file_s.as_str(), &m)
    } else {
        push_str(&mut m, ": superseded by ");
        match pin {
            Some(p) => push_str(&mut m, p.as_str()),
            None => push_str(&mut m, "no accepted revision"),
        }
        push_str(&mut m, " and normative for nothing; ");
        push_str(&mut m, why.as_str());
        make(Severity::Warn, v.rule(), true, file_s.as_str(), &m)
    }
}

/// A committed projection against a fresh compilation: `name` is its file
/// name (`overview` when it has none), `committed` what is on disk (`None`
/// when it cannot be read), `commit` whether this repository commits
/// generated views. Equal passes, different is an error, missing is an
/// error only where generated views are committed.
pub open spec fn spec_drift(rule: Seq<char>, name: Seq<char>, expected: Seq<char>, committed: Option<Seq<char>>, commit: bool) -> Option<Finding> {
    match committed {
        Some(actual) => if actual == expected {
            Some((Severity::Pass, rule + ".drift"@, false, name + " matches a fresh compilation"@))
        } else {
            Some((
                Severity::Error,
                rule + ".drift"@,
                true,
                "the committed "@ + name
                    + " differs from a fresh compilation; it was edited by hand or its sources changed without recompiling"@,
            ))
        },
        None => if commit {
            Some((
                Severity::Error,
                rule + ".missing"@,
                true,
                name + " is missing and this repository commits generated views; run `war compile`"@,
            ))
        } else {
            None
        },
    }
}

/// The drift finding on one projection, anchored to its path `relative`.
pub fn drift_finding(rule: &str, relative: &str, name: &Option<String>, expected: &str, committed: &Option<String>, commit: bool) -> (r: Option<Diagnostic>)
    ensures
        match (r, spec_drift(rule@, match name { Some(n) => n@, None => "overview"@ }, expected@, crate::section_refs::oview(*committed), commit)) {
            (Some(d), Some(f)) => finding_of(d, relative@) == Some(f),
            (None, None) => true,
            _ => false,
        },
{
    let n: &str = match name {
        Some(n) => n.as_str(),
        None => "overview",
    };
    match committed {
        Some(actual) => {
            if str_eq(actual.as_str(), expected) {
                let mut rl = chars_of(rule);
                push_str(&mut rl, ".drift");
                let mut m = chars_of(n);
                push_str(&mut m, " matches a fresh compilation");
                Some(make(Severity::Pass, string_of(&rl).as_str(), false, relative, &m))
            } else {
                let mut rl = chars_of(rule);
                push_str(&mut rl, ".drift");
                let mut m = chars_of("the committed ");
                push_str(&mut m, n);
                push_str(&mut m, " differs from a fresh compilation; it was edited by hand or its sources changed without recompiling");
                Some(make(Severity::Error, string_of(&rl).as_str(), true, relative, &m))
            }
        },
        None => {
            if commit {
                let mut rl = chars_of(rule);
                push_str(&mut rl, ".missing");
                let mut m = chars_of(n);
                push_str(&mut m, " is missing and this repository commits generated views; run `war compile`");
                Some(make(Severity::Error, string_of(&rl).as_str(), true, relative, &m))
            } else {
                None
            }
        },
    }
}

/// `{rule}.compile`: the projection could not be compiled at all.
pub fn drift_compile_error(rule: &str, warrants_path: &str, why: &str) -> (d: Diagnostic)
    ensures
        finding_of(d, warrants_path@) == Some((Severity::Error, rule@ + ".compile"@, true, why@)),
{
    let mut rl = chars_of(rule);
    push_str(&mut rl, ".compile");
    let m = chars_of(why);
    make(Severity::Error, string_of(&rl).as_str(), true, warrants_path, &m)
}

/// `storage.stray-temp` for a temp file of the atomic write path, anchored
/// to the temp file itself.
pub fn stray_temp_finding(temp: &str, record: &str) -> (d: Diagnostic)
    ensures
        finding_of(d, temp@) == Some((
            Severity::Warn,
            "storage.stray-temp"@,
            true,
            temp@ + " is a temp file left by a write that stopped before its rename; it was meant to replace "@ + record@
                + ", which is whole as it stands (the previous bytes, or absent). Nothing reads the temp file. Remove it once you know which act stopped"@,
        )),
{
    let mut m = chars_of(temp);
    push_str(&mut m, " is a temp file left by a write that stopped before its rename; it was meant to replace ");
    push_str(&mut m, record);
    push_str(&mut m, ", which is whole as it stands (the previous bytes, or absent). Nothing reads the temp file. Remove it once you know which act stopped");
    make(Severity::Warn, "storage.stray-temp", true, temp, &m)
}

/// How many of `levels` are `l`.
pub open spec fn count_of_level(levels: Seq<Seq<char>>, l: Seq<char>) -> nat
    decreases levels.len(),
{
    if levels.len() == 0 {
        0
    } else {
        count_of_level(levels.drop_last(), l) + if levels.last() == l { 1nat } else { 0nat }
    }
}

fn count_level(levels: &Vec<String>, l: &Vec<char>) -> (n: usize)
    ensures
        n == count_of_level(strs(levels@), l@),
{
    let mut n: usize = 0;
    let mut i: usize = 0;
    while i < levels.len()
        invariant
            i <= levels.len(),
            n <= i,
            n == count_of_level(strs(levels@).take(i as int), l@),
        decreases levels.len() - i,
    {
        proof {
            assert(strs(levels@).take(i + 1).drop_last() =~= strs(levels@).take(i as int));
            assert(strs(levels@).take(i + 1).last() == levels@[i as int]@);
        }
        let v = chars_of(levels[i].as_str());
        if eq_chars(&v, l) {
            n = n + 1;
        }
        i = i + 1;
    }
    proof {
        assert(strs(levels@).take(levels.len() as int) =~= strs(levels@));
    }
    n
}

/// The assurance levels of the validated Warrants, each once, in ascending
/// order, with how many Warrants declare it.
pub fn level_counts(levels: &Vec<String>) -> (r: Vec<(String, usize)>)
    ensures
        sorted_unique(r@.map_values(|p: (String, usize)| p.0@)),
        forall|l: Seq<char>| r@.map_values(|p: (String, usize)| p.0@).contains(l) <==> strs(levels@).contains(l),
        forall|k: int| 0 <= k < r.len() ==> #[trigger] r@[k].1 == count_of_level(strs(levels@), r@[k].0@),
{
    let mut keys: Vec<Vec<char>> = Vec::new();
    let mut i: usize = 0;
    while i < levels.len()
        invariant
            i <= levels.len(),
            sorted_unique(views(keys@)),
            forall|l: Seq<char>| #[trigger] views(keys@).contains(l) <==> strs(levels@).take(i as int).contains(l),
        decreases levels.len() - i,
    {
        let v = chars_of(levels[i].as_str());
        let ghost before = views(keys@);
        insert_sorted(&mut keys, v);
        proof {
            let t0 = strs(levels@).take(i as int);
            let t1 = strs(levels@).take(i + 1);
            assert(t1 =~= t0.push(levels@[i as int]@));
            assert forall|l: Seq<char>| #[trigger] views(keys@).contains(l) <==> t1.contains(l) by {
                if t1.contains(l) {
                    let j = choose|j: int| 0 <= j < t1.len() && t1[j] == l;
                    if j < i {
                        assert(t0[j] == l);
                        assert(t0.contains(l));
                    }
                }
                if t0.contains(l) {
                    let j = choose|j: int| 0 <= j < t0.len() && t0[j] == l;
                    assert(t1[j] == l);
                }
                if l == levels@[i as int]@ {
                    assert(t1[i as int] == l);
                }
            }
        }
        i = i + 1;
    }
    proof {
        assert(strs(levels@).take(levels.len() as int) =~= strs(levels@));
    }
    let mut out: Vec<(String, usize)> = Vec::new();
    let mut k: usize = 0;
    while k < keys.len()
        invariant
            k <= keys.len(),
            out.len() == k,
            forall|j: int| 0 <= j < k ==> #[trigger] out@[j].0@ == keys@[j]@,
            forall|j: int| 0 <= j < k ==> #[trigger] out@[j].1 == count_of_level(strs(levels@), out@[j].0@),
        decreases keys.len() - k,
    {
        let n = count_level(levels, &keys[k]);
        out.push((string_of(&keys[k]), n));
        k = k + 1;
    }
    proof {
        assert(out@.map_values(|p: (String, usize)| p.0@) =~= views(keys@));
    }
    out
}

/// Declared independence against the minimum for the `count` Warrants
/// of one assurance `level`, anchored to the configuration file.
pub fn independence_finding(config_path: &str, level: &str, count: usize, meets: &Result<(), String>) -> (d: Diagnostic)
    ensures
        finding_of(d, config_path@) == Some(match meets {
            Ok(_) => (
                Severity::Pass,
                "independence.sufficient"@,
                false,
                decimal(count as nat) + " "@ + level@ + " Warrant(s): "@ + "declared independence meets §46.3's minimum"@,
            ),
            Err(why) => (
                Severity::Warn,
                "independence.insufficient"@,
                true,
                decimal(count as nat) + " "@ + level@ + " Warrant(s): "@ + why@,
            ),
        }),
{
    let mut m: Vec<char> = Vec::new();
    push_decimal(&mut m, count as u64);
    push_str(&mut m, " ");
    push_str(&mut m, level);
    push_str(&mut m, " Warrant(s): ");
    match meets {
        Ok(_) => {
            push_str(&mut m, "declared independence meets §46.3's minimum");
            proof {
                assert(m@ =~= decimal(count as nat) + " "@ + level@ + " Warrant(s): "@ + "declared independence meets §46.3's minimum"@);
            }
            make(Severity::Pass, "independence.sufficient", false, config_path, &m)
        },
        Err(why) => {
            push_str(&mut m, why.as_str());
            proof {
                assert(m@ =~= decimal(count as nat) + " "@ + level@ + " Warrant(s): "@ + why@);
            }
            make(Severity::Warn, "independence.insufficient", true, config_path, &m)
        },
    }
}

/// `independence.undeclared`: no independence is declared for the
/// repository.
pub fn independence_undeclared(config_path: &str) -> (d: Diagnostic)
    ensures
        finding_of(d, config_path@) == Some((
            Severity::Warn,
            "independence.undeclared"@,
            true,
            "no independence is declared for this repository, so §46.3's minimums cannot be evaluated for any Warrant. Absent is not the same as none — `none` reads as examined and absent, absent reads as unexamined"@,
        )),
{
    let m = chars_of("no independence is declared for this repository, so §46.3's minimums cannot be evaluated for any Warrant. Absent is not the same as none — `none` reads as examined and absent, absent reads as unexamined");
    make(Severity::Warn, "independence.undeclared", true, config_path, &m)
}

/// The parent graph across the validated Warrants: a pass when it is
/// acyclic, else an error for each cycle, named by its path.
pub open spec fn spec_cycles(cycles: Seq<Vec<String>>, validated: nat) -> Seq<Finding> {
    if cycles.len() == 0 {
        seq![(Severity::Pass, "composition.acyclic"@, false, "parent graph is acyclic across "@ + decimal(validated) + " Warrant(s)"@)]
    } else {
        cycles.map_values(|c: Vec<String>| (Severity::Error, "composition.cycle"@, true, "parent cycle: "@ + join(strs(c@), " → "@)))
    }
}

fn char_vecs_of(v: &Vec<String>) -> (r: Vec<Vec<char>>)
    ensures
        views(r@) == strs(v@),
{
    let mut r: Vec<Vec<char>> = Vec::new();
    let mut i: usize = 0;
    while i < v.len()
        invariant
            i <= v.len(),
            r.len() == i,
            forall|j: int| 0 <= j < i ==> #[trigger] r@[j]@ == v@[j]@,
        decreases v.len() - i,
    {
        r.push(chars_of(v[i].as_str()));
        i = i + 1;
    }
    proof {
        assert(views(r@) =~= strs(v@));
    }
    r
}

/// The cycle findings, anchored to the Warrants directory.
pub fn cycle_findings(warrants_path: &str, cycles: &Vec<Vec<String>>, validated: usize) -> (r: Vec<Diagnostic>)
    ensures
        all_agree(r@, warrants_path@, spec_cycles(cycles@, validated as nat)),
{
    let mut out: Vec<Diagnostic> = Vec::new();
    let ghost want = spec_cycles(cycles@, validated as nat);
    if cycles.len() == 0 {
        let mut m = chars_of("parent graph is acyclic across ");
        push_decimal(&mut m, validated as u64);
        push_str(&mut m, " Warrant(s)");
        let d = make(Severity::Pass, "composition.acyclic", false, warrants_path, &m);
        push_agreeing(&mut out, d, Ghost(warrants_path@), Ghost(Seq::<Finding>::empty()), Ghost(want[0]));
        proof { assert(Seq::<Finding>::empty().push(want[0]) =~= want); }
        return out;
    }
    let mut i: usize = 0;
    while i < cycles.len()
        invariant
            i <= cycles.len(),
            cycles.len() > 0,
            want == spec_cycles(cycles@, validated as nat),
            all_agree(out@, warrants_path@, want.take(i as int)),
        decreases cycles.len() - i,
    {
        let parts = char_vecs_of(&cycles[i]);
        let mut m = chars_of("parent cycle: ");
        push_join(&mut m, &parts, parts.len(), " → ");
        proof {
            assert(views(parts@).take(parts.len() as int) =~= views(parts@));
            assert(want.take(i + 1) =~= want.take(i as int).push(want[i as int]));
        }
        let d = make(Severity::Error, "composition.cycle", true, warrants_path, &m);
        push_agreeing(&mut out, d, Ghost(warrants_path@), Ghost(want.take(i as int)), Ghost(want[i as int]));
        i = i + 1;
    }
    proof { assert(want.take(cycles.len() as int) =~= want); }
    out
}

/// The ADR corpus: an error for each ADR that does not parse, anchored to
/// it, and `adr.parsed` when every one parsed and there is at least one.
pub fn adr_findings(failures: &Vec<(String, String)>, records: usize) -> (r: Vec<Diagnostic>)
    ensures
        r.len() == failures.len() + if failures.len() == 0 && records > 0 { 1int } else { 0int },
        forall|k: int| 0 <= k < failures.len() ==> finding_of(#[trigger] r@[k], failures@[k].0@) == Some((Severity::Error, "adr.malformed"@, true, failures@[k].1@)),
        failures.len() == 0 && records > 0 ==> finding_of(r@[0], ""@) == Some((Severity::Pass, "adr.parsed"@, false, decimal(records as nat) + " ADR(s) parsed"@)),
{
    let mut out: Vec<Diagnostic> = Vec::new();
    let mut i: usize = 0;
    while i < failures.len()
        invariant
            i <= failures.len(),
            out.len() == i,
            forall|k: int| 0 <= k < i ==> finding_of(#[trigger] out@[k], failures@[k].0@) == Some((Severity::Error, "adr.malformed"@, true, failures@[k].1@)),
        decreases failures.len() - i,
    {
        let m = chars_of(failures[i].1.as_str());
        let d = make(Severity::Error, "adr.malformed", true, failures[i].0.as_str(), &m);
        out.push(d);
        i = i + 1;
    }
    if failures.len() == 0 && records > 0 {
        let mut m: Vec<char> = Vec::new();
        push_decimal(&mut m, records as u64);
        push_str(&mut m, " ADR(s) parsed");
        out.push(make(Severity::Pass, "adr.parsed", false, "", &m));
    }
    out
}

/// `corpus.empty`: no Warrants were found.
pub fn corpus_empty(warrants_path: &str) -> (d: Diagnostic)
    ensures
        finding_of(d, warrants_path@) == Some((Severity::Warn, "corpus.empty"@, true, "no Warrants found; nothing to check"@)),
{
    let m = chars_of("no Warrants found; nothing to check");
    make(Severity::Warn, "corpus.empty", true, warrants_path, &m)
}

/// The note on Warrants none of whose obligations are disposed, when there
/// are any.
pub fn undisposed_note(undisposed: usize, total: usize) -> (r: Option<String>)
    ensures
        match r {
            None => undisposed == 0,
            Some(s) => undisposed > 0 && s@ == decimal(undisposed as nat) + " of "@ + decimal(total as nat)
                + " Warrant(s) have no disposed              obligations — §38.6 yields no resolution verdict for them, which is the              expected state of work that has not been assessed"@,
        },
{
    if undisposed == 0 {
        return None;
    }
    let mut m: Vec<char> = Vec::new();
    push_decimal(&mut m, undisposed as u64);
    push_str(&mut m, " of ");
    push_decimal(&mut m, total as u64);
    push_str(&mut m, " Warrant(s) have no disposed              obligations — §38.6 yields no resolution verdict for them, which is the              expected state of work that has not been assessed");
    Some(string_of(&m))
}

/// The scope notes every run prints: what `war check` does not ask.
pub open spec fn spec_scope_notes(check_generated: bool) -> Seq<Seq<char>> {
    seq![
        "gate execution — `war gate --run` executes a registered gate (§44), but `war check` does not invoke it, so nothing here is evidence that a Warrant's acceptance gates were run"@,
        "Preflight readiness (§32.7) — 'well-formed' is a claim about the record only"@,
        "bound-atom resolution — `ref =` atoms cannot be fetched offline"@,
        "Source Holder ambiguity and classification propagation (§91.2 tests 14, 15) — narrowed by OW-ADR-0008: test 14 needs a `source_holder` on atoms, which §13 requires and none declares; test 15 needs a classification ordering, which the SAS does not give. Neither is undecided — both are undeclared"@,
    ] + if check_generated {
        seq![]
    } else {
        seq!["generated-view drift — pass --generated to compare committed projections"@]
    }
}

/// The scope notes, in order.
pub fn scope_notes(check_generated: bool) -> (r: Vec<String>)
    ensures
        strs(r@) == spec_scope_notes(check_generated),
{
    let mut r: Vec<String> = Vec::new();
    r.push(string_of(&chars_of("gate execution — `war gate --run` executes a registered gate (§44), but `war check` does not invoke it, so nothing here is evidence that a Warrant's acceptance gates were run")));
    r.push(string_of(&chars_of("Preflight readiness (§32.7) — 'well-formed' is a claim about the record only")));
    r.push(string_of(&chars_of("bound-atom resolution — `ref =` atoms cannot be fetched offline")));
    r.push(string_of(&chars_of("Source Holder ambiguity and classification propagation (§91.2 tests 14, 15) — narrowed by OW-ADR-0008: test 14 needs a `source_holder` on atoms, which §13 requires and none declares; test 15 needs a classification ordering, which the SAS does not give. Neither is undecided — both are undeclared")));
    if !check_generated {
        r.push(string_of(&chars_of("generated-view drift — pass --generated to compare committed projections")));
    }
    proof {
        assert(strs(r@) =~= spec_scope_notes(check_generated));
    }
    r
}

/// The finding for the Warrants of one assurance level, given whether the
/// declared independence meets that level's minimum.
pub open spec fn spec_independence(level: Seq<char>, count: nat, meets: Result<(), Seq<char>>) -> Finding {
    match meets {
        Ok(_) => (
            Severity::Pass,
            "independence.sufficient"@,
            false,
            decimal(count) + " "@ + level + " Warrant(s): "@ + "declared independence meets §46.3's minimum"@,
        ),
        Err(why) => (
            Severity::Warn,
            "independence.insufficient"@,
            true,
            decimal(count) + " "@ + level + " Warrant(s): "@ + why,
        ),
    }
}

pub open spec fn meets_view(m: Result<(), String>) -> Result<(), Seq<char>> {
    match m {
        Ok(_) => Ok(()),
        Err(e) => Err(e@),
    }
}

/// The independence findings of a check: the undeclared warning when the
/// repository declares no independence; otherwise one finding per level
/// in `counts` (as `level_counts` gives them), `meets[k]` saying whether the
/// declaration meets level `k`'s minimum.
pub fn independence_findings(
    config_path: &str,
    declared: bool,
    counts: &Vec<(String, usize)>,
    meets: &Vec<Result<(), String>>,
) -> (r: Vec<Diagnostic>)
    requires
        declared ==> meets.len() == counts.len(),
    ensures
        !declared ==> r.len() == 1 && finding_of(r@[0], config_path@) == Some((
            Severity::Warn,
            "independence.undeclared"@,
            true,
            "no independence is declared for this repository, so §46.3's minimums cannot be evaluated for any Warrant. Absent is not the same as none — `none` reads as examined and absent, absent reads as unexamined"@,
        )),
        declared ==> r.len() == counts.len() && forall|k: int| 0 <= k < r.len() ==> finding_of(
            #[trigger] r@[k],
            config_path@,
        ) == Some(spec_independence(counts@[k].0@, counts@[k].1 as nat, meets_view(meets@[k]))),
{
    let mut out: Vec<Diagnostic> = Vec::new();
    if !declared {
        out.push(independence_undeclared(config_path));
        return out;
    }
    let mut k: usize = 0;
    while k < counts.len()
        invariant
            k <= counts.len() == meets.len(),
            out.len() == k,
            forall|j: int| 0 <= j < k ==> finding_of(#[trigger] out@[j], config_path@) == Some(
                spec_independence(counts@[j].0@, counts@[j].1 as nat, meets_view(meets@[j])),
            ),
        decreases counts.len() - k,
    {
        let d = independence_finding(config_path, counts[k].0.as_str(), counts[k].1, &meets[k]);
        out.push(d);
        k = k + 1;
    }
    out
}

} // verus!
