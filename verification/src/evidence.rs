//! Gate receipts as committed evidence.
//!
//! A recorded run is admissible for a contract when, in order: the run is a
//! required pass; a receipt lies beside it; the receipt is complete; its seal
//! recomputes over its other fields; its verdict is the run's; and it is
//! bound to the contract as it compiles now. A receipt bound to an earlier
//! revision is a true record of a run and not evidence about this contract.

use vstd::prelude::*;

use crate::text::{
    strs,
    chars_of, push_all, push_str, str_eq, string_of, strip_all_prefix, strip_prefixes,
};

verus! {

/// The directory under a Warrant where its recorded runs live.
pub const GATE_RUNS_DIR: &'static str = "gate-runs";

/// A recorded gate run, as the admission decision reads it.
#[derive(Debug, Clone, PartialEq, Eq)]
pub struct GateRun {
    pub id: String,
    pub gate: String,
    pub askability: String,
    pub execution_status: String,
    pub verdict: String,
}

/// A run's receipt, as the admission decision reads it.
#[derive(Debug, Clone, PartialEq, Eq)]
pub struct GateReceipt {
    pub subject_digests: Vec<String>,
    pub verdict: String,
    pub receipt_digest: String,
}

/// One recorded run and, if present, its receipt.
#[derive(Debug, Clone, PartialEq, Eq)]
pub struct GateEvidence {
    pub run: GateRun,
    pub run_path: String,
    pub receipt: Option<GateReceipt>,
    pub receipt_path: String,
}

/// What the receipt model says of a receipt: why it is incomplete, if it is,
/// and whether its seal recomputes over its other fields.
#[derive(Debug, Clone, PartialEq, Eq)]
pub struct ReceiptChecks {
    pub incomplete: Option<String>,
    pub reseals: bool,
}

/// The subject-digest form a receipt uses to name a contract.
pub open spec fn spec_contract_subject(digest: Seq<char>) -> Seq<char> {
    "contract:sha256:"@ + strip_all_prefix(digest, "sha256:"@)
}

/// `contract:sha256:<hex>` for a contract digest, with or without its
/// `sha256:` prefix.
pub fn contract_subject(contract_digest: &str) -> (r: String)
    ensures
        r@ == spec_contract_subject(contract_digest@),
{
    let v = chars_of(contract_digest);
    let p = chars_of("sha256:");
    let bare = strip_prefixes(&v, &p);
    let mut out = chars_of("contract:sha256:");
    push_all(&mut out, &bare);
    string_of(&out)
}

/// Whether a run is a required pass: askable, completed, pass.
pub open spec fn required_pass(run: GateRun) -> bool {
    &&& run.askability@ == "askable"@
    &&& run.execution_status@ == "completed"@
    &&& run.verdict@ == "pass"@
}

pub fn satisfies_required_pass(run: &GateRun) -> (r: bool)
    ensures
        r == required_pass(*run),
{
    str_eq(run.askability.as_str(), "askable") && str_eq(run.execution_status.as_str(), "completed")
        && str_eq(run.verdict.as_str(), "pass")
}

/// `parts` joined by `, `.
pub open spec fn comma_list(parts: Seq<Seq<char>>) -> Seq<char> {
    crate::text::join(parts, ", "@)
}

pub open spec fn not_a_pass(run: GateRun) -> Seq<char> {
    "the run is not a §44.5 required pass (askability "@ + run.askability@ + ", execution "@
        + run.execution_status@ + ", verdict "@ + run.verdict@ + ")"@
}

pub open spec fn no_receipt(path: Seq<char>) -> Seq<char> {
    "no §44.6 receipt beside the run (expected "@ + path + ")"@
}

pub open spec fn edited_receipt() -> Seq<char> {
    "the receipt's `receipt_digest` does not recompute over its fields — it was edited after it was sealed, and an edited receipt is not a receipt"@
}

pub open spec fn verdicts_disagree(run: Seq<char>, receipt: Seq<char>) -> Seq<char> {
    "the run says verdict "@ + run + " and its receipt says "@ + receipt
}

pub open spec fn nothing_to_bind() -> Seq<char> {
    "the Warrant does not compile, so there is no contract to bind to"@
}

pub open spec fn bound_elsewhere(subjects: Seq<Seq<char>>, wanted: Seq<char>) -> Seq<char> {
    "the receipt is bound to "@ + (if subjects.len() == 0 {
        "no subject"@
    } else {
        comma_list(subjects)
    }) + " and the contract now compiles to "@ + wanted
        + " — a run against an earlier revision is a record, not evidence about this one"@
}

/// Why a recorded run is not admissible for the contract as it stands, the
/// first reason in the order above; `Ok` when it is.
pub open spec fn spec_admissibility(
    e: GateEvidence,
    checks: ReceiptChecks,
    contract_digest: Option<Seq<char>>,
) -> Result<(), Seq<char>> {
    if !required_pass(e.run) {
        Err(not_a_pass(e.run))
    } else {
        match e.receipt {
            None => Err(no_receipt(e.receipt_path@)),
            Some(r) => match checks.incomplete {
                Some(why) => Err("the receipt is incomplete: "@ + why@),
                None => if !checks.reseals {
                    Err(edited_receipt())
                } else if r.verdict@ != e.run.verdict@ {
                    Err(verdicts_disagree(e.run.verdict@, r.verdict@))
                } else {
                    match contract_digest {
                        None => Err(nothing_to_bind()),
                        Some(d) => if strs(r.subject_digests@).contains(
                            spec_contract_subject(d),
                        ) {
                            Ok(())
                        } else {
                            Err(bound_elsewhere(strs(r.subject_digests@), spec_contract_subject(d)))
                        },
                    }
                },
            },
        }
    }
}

pub open spec fn opt_view(o: Option<&str>) -> Option<Seq<char>> {
    match o {
        Some(s) => Some(s@),
        None => None,
    }
}

fn any_equal(v: &Vec<String>, x: &str) -> (r: bool)
    ensures
        r == strs(v@).contains(x@),
{
    let mut i: usize = 0;
    while i < v.len()
        invariant
            i <= v.len(),
            forall|j: int| 0 <= j < i ==> v@[j]@ != x@,
        decreases v.len() - i,
    {
        if str_eq(v[i].as_str(), x) {
            assert(strs(v@)[i as int] == x@);
            return true;
        }
        i = i + 1;
    }
    proof {
        if strs(v@).contains(x@) {
            let j = choose|j: int| 0 <= j < strs(v@).len() && strs(v@)[j] == x@;
            assert(v@[j]@ == x@);
        }
    }
    false
}

fn joined(v: &Vec<String>) -> (r: Vec<char>)
    ensures
        r@ == comma_list(strs(v@)),
{
    let mut cs: Vec<Vec<char>> = Vec::new();
    let mut i: usize = 0;
    while i < v.len()
        invariant
            i <= v.len(),
            crate::text::views(cs@) == strs(v@).take(i as int),
        decreases v.len() - i,
    {
        let c = chars_of(v[i].as_str());
        let ghost before = cs@;
        cs.push(c);
        proof {
            assert(c@ == v@[i as int]@);
            assert(strs(v@)[i as int] == v@[i as int]@);
            assert(crate::text::views(cs@) =~= crate::text::views(before).push(c@));
            assert(strs(v@).take(i + 1) =~= strs(v@).take(i as int).push(v@[i as int]@));
            assert(crate::text::views(cs@) =~= strs(v@).take(i + 1));
        }
        i = i + 1;
    }
    let mut out: Vec<char> = Vec::new();
    crate::text::push_join(&mut out, &cs, cs.len(), ", ");
    proof {
        assert(crate::text::views(cs@).take(cs.len() as int) =~= strs(v@));
    }
    out
}

/// Why a recorded run is not admissible for the contract as it stands.
pub fn admissibility(e: &GateEvidence, checks: &ReceiptChecks, contract_digest: Option<&str>) -> (r:
    Result<(), String>)
    ensures
        match (r, spec_admissibility(*e, *checks, opt_view(contract_digest))) {
            (Ok(()), Ok(())) => true,
            (Err(m), Err(n)) => m@ == n,
            _ => false,
        },
{
    if !satisfies_required_pass(&e.run) {
        let mut v = chars_of("the run is not a §44.5 required pass (askability ");
        push_str(&mut v, e.run.askability.as_str());
        push_str(&mut v, ", execution ");
        push_str(&mut v, e.run.execution_status.as_str());
        push_str(&mut v, ", verdict ");
        push_str(&mut v, e.run.verdict.as_str());
        push_str(&mut v, ")");
        return Err(string_of(&v));
    }
    let receipt = match &e.receipt {
        None => {
            let mut v = chars_of("no §44.6 receipt beside the run (expected ");
            push_str(&mut v, e.receipt_path.as_str());
            push_str(&mut v, ")");
            return Err(string_of(&v));
        },
        Some(r) => r,
    };
    match &checks.incomplete {
        Some(why) => {
            let mut v = chars_of("the receipt is incomplete: ");
            push_str(&mut v, why.as_str());
            return Err(string_of(&v));
        },
        None => {},
    }
    if !checks.reseals {
        return Err(
            string_of(
                &chars_of(
                    "the receipt's `receipt_digest` does not recompute over its fields — it was edited after it was sealed, and an edited receipt is not a receipt",
                ),
            ),
        );
    }
    if !str_eq(receipt.verdict.as_str(), e.run.verdict.as_str()) {
        let mut v = chars_of("the run says verdict ");
        push_str(&mut v, e.run.verdict.as_str());
        push_str(&mut v, " and its receipt says ");
        push_str(&mut v, receipt.verdict.as_str());
        return Err(string_of(&v));
    }
    let digest = match contract_digest {
        None => {
            return Err(
                string_of(
                    &chars_of("the Warrant does not compile, so there is no contract to bind to"),
                ),
            );
        },
        Some(d) => d,
    };
    let wanted = contract_subject(digest);
    if !any_equal(&receipt.subject_digests, wanted.as_str()) {
        let mut v = chars_of("the receipt is bound to ");
        if receipt.subject_digests.len() == 0 {
            push_str(&mut v, "no subject");
        } else {
            let j = joined(&receipt.subject_digests);
            push_all(&mut v, &j);
        }
        push_str(&mut v, " and the contract now compiles to ");
        push_str(&mut v, wanted.as_str());
        push_str(
            &mut v,
            " — a run against an earlier revision is a record, not evidence about this one",
        );
        proof {
            assert(v@ =~= bound_elsewhere(strs(receipt.subject_digests@), wanted@));
        }
        return Err(string_of(&v));
    }
    Ok(())
}

/// How `war check` reports a recorded run.
#[derive(Debug, Clone, Copy, PartialEq, Eq, Structural)]
pub enum EvidenceFinding {
    /// A required pass whose receipt reseals and is bound to this contract.
    Admissible,
    /// A sound record bound to another revision: a warning.
    StaleBinding,
    /// A required pass whose receipt is missing, incomplete, edited or at odds
    /// with it: an error, since it is a claim rather than a record.
    ReceiptInvalid,
    /// A run that is not a required pass: a warning.
    NotAPass,
}

pub open spec fn spec_finding(
    e: GateEvidence,
    checks: ReceiptChecks,
    contract_digest: Option<Seq<char>>,
) -> EvidenceFinding {
    if spec_admissibility(e, checks, contract_digest) is Ok {
        EvidenceFinding::Admissible
    } else if e.receipt matches Some(r) && checks.reseals && r.verdict@ == e.run.verdict@
        && checks.incomplete is None && required_pass(e.run) {
        EvidenceFinding::StaleBinding
    } else if required_pass(e.run) {
        EvidenceFinding::ReceiptInvalid
    } else {
        EvidenceFinding::NotAPass
    }
}

/// The finding `war check` reports for one recorded run.
pub fn finding(e: &GateEvidence, checks: &ReceiptChecks, contract_digest: Option<&str>) -> (r:
    EvidenceFinding)
    ensures
        r == spec_finding(*e, *checks, opt_view(contract_digest)),
{
    if admissibility(e, checks, contract_digest).is_ok() {
        return EvidenceFinding::Admissible;
    }
    let sound = match &e.receipt {
        Some(r) => checks.reseals && str_eq(r.verdict.as_str(), e.run.verdict.as_str())
            && checks.incomplete.is_none() && satisfies_required_pass(&e.run),
        None => false,
    };
    if sound {
        EvidenceFinding::StaleBinding
    } else if satisfies_required_pass(&e.run) {
        EvidenceFinding::ReceiptInvalid
    } else {
        EvidenceFinding::NotAPass
    }
}

impl EvidenceFinding {
    pub open spec fn spec_rule(self) -> Seq<char> {
        match self {
            EvidenceFinding::Admissible => "evidence.admissible"@,
            EvidenceFinding::StaleBinding => "evidence.stale-binding"@,
            EvidenceFinding::ReceiptInvalid => "evidence.receipt-invalid"@,
            EvidenceFinding::NotAPass => "evidence.not-a-pass"@,
        }
    }

    pub fn rule(self) -> (r: &'static str)
        ensures
            r@ == self.spec_rule(),
    {
        match self {
            EvidenceFinding::Admissible => "evidence.admissible",
            EvidenceFinding::StaleBinding => "evidence.stale-binding",
            EvidenceFinding::ReceiptInvalid => "evidence.receipt-invalid",
            EvidenceFinding::NotAPass => "evidence.not-a-pass",
        }
    }
}

/// A receipt bound to an earlier contract never counts for a later one,
/// however sound the run and its seal.
pub proof fn lemma_binding_follows_the_contract(
    e: GateEvidence,
    checks: ReceiptChecks,
    digest: Seq<char>,
)
    requires
        e.receipt matches Some(r) && !strs(r.subject_digests@).contains(
            spec_contract_subject(digest),
        ),
    ensures
        spec_admissibility(e, checks, Some(digest)) is Err,
{
}

/// Without a contract there is nothing to bind to, so nothing is admissible.
pub proof fn lemma_no_contract_no_evidence(e: GateEvidence, checks: ReceiptChecks)
    ensures
        spec_admissibility(e, checks, None) is Err,
{
}

/// A run whose seal does not recompute is never admissible.
pub proof fn lemma_edited_receipt_never_admitted(
    e: GateEvidence,
    checks: ReceiptChecks,
    digest: Option<Seq<char>>,
)
    requires
        !checks.reseals,
    ensures
        spec_admissibility(e, checks, digest) is Err,
{
}

/// The indices of the admissible runs among `es`, in order; `cs[i]` is
/// what the receipt model says of `es[i]`'s receipt.
pub open spec fn admissible_indices(
    es: Seq<GateEvidence>,
    cs: Seq<ReceiptChecks>,
    digest: Option<Seq<char>>,
    n: int,
) -> Seq<usize>
    decreases n,
{
    if n <= 0 {
        seq![]
    } else {
        let rest = admissible_indices(es, cs, digest, n - 1);
        if spec_admissibility(es[n - 1], cs[n - 1], digest) is Ok {
            rest.push((n - 1) as usize)
        } else {
            rest
        }
    }
}

/// The runs that count as evidence for the contract as it stands: those
/// that are admissible, by index, in order.
pub fn admissible_runs(evidence: &Vec<GateEvidence>, checks: &Vec<ReceiptChecks>, contract_digest: Option<&str>) -> (r:
    Vec<usize>)
    requires
        checks.len() == evidence.len(),
    ensures
        r@ == admissible_indices(evidence@, checks@, opt_view(contract_digest), evidence.len() as int),
{
    let mut out: Vec<usize> = Vec::new();
    let mut i: usize = 0;
    while i < evidence.len()
        invariant
            i <= evidence.len() == checks.len(),
            out@ == admissible_indices(evidence@, checks@, opt_view(contract_digest), i as int),
        decreases evidence.len() - i,
    {
        let a = admissibility(&evidence[i], &checks[i], contract_digest);
        if a.is_ok() {
            out.push(i);
        }
        i = i + 1;
    }
    out
}

} // verus!
