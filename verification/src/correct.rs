//! `war correct`: the correction act.
//!
//! An agent may emit a request naming a resolved Warrant's deliverable, the
//! digest its record pins, the digest the file has now, and who may sign.
//! Only a human's response writes a correction record, and every refusal
//! below happens before anything is written.

use vstd::prelude::*;

use crate::authority::{ActorKind, ActorRole, AuthorityRegister};
use crate::authorize::{may_authorize, spec_may_authorize};
use crate::text::{chars_of, debug_quoted, debug_str, push_str, str_eq, string_of, trim, trimmed};

verus! {

pub const REQUEST_SCHEMA: &'static str = "oh.war/correction-request/v1";

pub const RESPONSE_SCHEMA: &'static str = "oh.war/correction-response/v1";

/// What an agent may emit. No recommendation, no suggested wording.
#[derive(Debug, Clone, PartialEq, Eq)]
pub struct CorrectionRequest {
    pub schema: String,
    pub warrant: String,
    pub deliverable_id: String,
    pub target_ref: String,
    pub title: String,
    /// A correction is for a resolved Warrant; before resolution, regenerate.
    pub resolved: bool,
    /// The digest `deliverables.toml` records.
    pub recorded_digest: String,
    /// The digest the chain of prior corrections resolves to.
    pub chain_head: String,
    /// The digest of the file's bytes now.
    pub current_digest: String,
    /// `current_digest != chain_head`.
    pub drift: bool,
    pub prior_corrections: u32,
    pub next_sequence: u32,
    /// Humans the register lets authorize on this Warrant. Agents never appear.
    pub eligible_correctors: Vec<String>,
}

/// What the human returns.
#[derive(Debug, Clone, PartialEq, Eq)]
pub struct CorrectionResponse {
    pub schema: String,
    pub warrant: String,
    pub deliverable_id: String,
    /// Must equal the chain head at ingest.
    pub superseded_digest: String,
    /// Must equal the file's bytes at ingest.
    pub new_digest: String,
    pub reason: String,
    pub kind: String,
    pub corrected_by: String,
    /// The role actually exercised.
    pub acting_role: String,
    pub effective_time: String,
    /// `tty` or `ssh` via `war sign`; absent when hand-written.
    pub signed_via: Option<String>,
}

/// The request's count fields: how many corrections precede this one, at
/// most `u32::MAX - 1`, and the sequence the next one takes.
pub fn sequence_of(prior: usize) -> (r: (u32, u32))
    ensures
        r.0 == (if prior < u32::MAX { prior as u32 } else { (u32::MAX - 1) as u32 }),
        r.1 == r.0 + 1,
{
    let p: u32 = if prior < 4294967295usize { prior as u32 } else { 4294967294u32 };
    (p, p + 1)
}

/// Whether the file has drifted from the digest on record.
pub fn drift(current: &str, head: &str) -> (r: bool)
    ensures
        r == (current@ != head@),
{
    !str_eq(current, head)
}

/// Why ingestion refuses a response: a rule and a message.
#[derive(Debug, Clone, PartialEq, Eq)]
pub struct CorrectionRefusal {
    pub rule: String,
    pub message: String,
}

/// What the records say at ingest, gathered around the decision.
#[derive(Debug, PartialEq, Eq)]
pub struct CorrectionState {
    /// Why the deliverable has no digest to correct, if it has none.
    pub unknown_deliverable: Option<String>,
    pub resolved: bool,
    /// The chain head, or why the chain of prior corrections is broken.
    pub head: Result<String, String>,
    /// The digest of the file's bytes now.
    pub current: String,
    /// Why `effective_time` is not an RFC 3339 UTC time, if it is not.
    pub bad_time: Option<String>,
    /// Who performs the Warrant.
    pub performer: String,
}

pub open spec fn slash(alias: Seq<char>, id: Seq<char>) -> Seq<char> {
    alias + "/"@ + id
}

/// The first refusal a response earns, in order: schema; Warrant and
/// deliverable; a deliverable with a pinned digest; a resolved Warrant; an
/// intact chain; drift; the file's digest; the chain head; a reason; the
/// time; then the signer through the register: known, human, and permitted.
pub open spec fn spec_refusal(
    r: CorrectionResponse,
    alias: Seq<char>,
    id: Seq<char>,
    st: CorrectionState,
    register: AuthorityRegister,
) -> Option<(Seq<char>, Seq<char>)> {
    let who = slash(alias, id);
    if r.schema@ != RESPONSE_SCHEMA@ {
        Some(
            (
                "correction.schema"@,
                "expected "@ + RESPONSE_SCHEMA@ + ", found "@ + debug_str(r.schema@),
            ),
        )
    } else if r.warrant@ != alias || r.deliverable_id@ != id {
        Some(
            (
                "correction.wrong-warrant"@,
                "the response names "@ + slash(r.warrant@, r.deliverable_id@) + "; ingesting for "@
                    + who,
            ),
        )
    } else if st.unknown_deliverable is Some {
        Some(("correction.unknown-deliverable"@, st.unknown_deliverable->Some_0@))
    } else if !st.resolved {
        Some(
            (
                "correction.not-resolved"@,
                alias
                    + " is not resolved. A correction supersedes a pin a resolution holds; before resolution, regenerate deliverables.toml"@,
            ),
        )
    } else {
        match st.head {
            Err(e) => Some(("correction.chain"@, who + ": "@ + e@)),
            Ok(head) => if st.current@ == head@ {
                Some(
                    (
                        "correction.no-drift"@,
                        who + ": the file is at "@ + head@ + "; there is nothing to correct"@,
                    ),
                )
            } else if r.new_digest@ != st.current@ {
                Some(
                    (
                        "correction.stale"@,
                        who + ": the response records new digest "@ + r.new_digest@
                            + " but the file is "@ + st.current@ + " — it corrects nothing"@,
                    ),
                )
            } else if r.superseded_digest@ != head@ {
                Some(
                    (
                        "correction.superseded-mismatch"@,
                        who + ": the response supersedes "@ + r.superseded_digest@
                            + " but the digest on record is "@ + head@
                            + " — it supersedes nothing that happened"@,
                    ),
                )
            } else if trim(r.reason@).len() == 0 {
                Some(
                    (
                        "correction.reason-empty"@,
                        who
                            + ": a correction with no reason is a change nobody can answer for"@,
                    ),
                )
            } else if st.bad_time is Some {
                Some(
                    (
                        "correction.effective-time"@,
                        who + ": effective_time "@ + st.bad_time->Some_0@,
                    ),
                )
            } else {
                match register.spec_actor(r.corrected_by@) {
                    None => Some(
                        (
                            "correction.unknown-actor"@,
                            debug_str(r.corrected_by@)
                                + " holds no role assignment in docs/authority/roles.toml"@,
                        ),
                    ),
                    Some(a) => if a.actor_kind == ActorKind::Agent {
                        Some(
                            (
                                "correction.agent"@,
                                debug_str(r.corrected_by@)
                                    + " is an agent. §27.2: an agent SHALL NOT correct a delivered artifact — a performer that could move its own pins would be judging its own work twice"@,
                            ),
                        )
                    } else {
                        match spec_may_authorize(a, st.performer@) {
                            Err(e) => Some(
                                ("correction.not-permitted"@, r.corrected_by@ + ": "@ + e),
                            ),
                            Ok(()) => None,
                        }
                    },
                }
            },
        }
    }
}

fn refusal(rule: &str, v: &Vec<char>) -> (r: Option<CorrectionRefusal>)
    ensures
        r matches Some(f) && f.rule@ == rule@ && f.message@ == v@,
{
    Some(CorrectionRefusal { rule: string_of(&chars_of(rule)), message: string_of(v) })
}

fn who_of(alias: &str, id: &str) -> (r: Vec<char>)
    ensures
        r@ == slash(alias@, id@),
{
    let mut v = chars_of(alias);
    push_str(&mut v, "/");
    push_str(&mut v, id);
    v
}

/// Whether ingestion refuses the response, and why; `None` admits it.
pub fn correction_refusal(
    r: &CorrectionResponse,
    alias: &str,
    id: &str,
    st: &CorrectionState,
    register: &AuthorityRegister,
) -> (out: Option<CorrectionRefusal>)
    ensures
        match (out, spec_refusal(*r, alias@, id@, *st, *register)) {
            (Some(f), Some((rule, message))) => f.rule@ == rule && f.message@ == message,
            (None, None) => true,
            _ => false,
        },
{
    if !str_eq(r.schema.as_str(), RESPONSE_SCHEMA) {
        let mut v = chars_of("expected ");
        push_str(&mut v, RESPONSE_SCHEMA);
        push_str(&mut v, ", found ");
        push_str(&mut v, debug_quoted(r.schema.as_str()).as_str());
        return refusal("correction.schema", &v);
    }
    if !str_eq(r.warrant.as_str(), alias) || !str_eq(r.deliverable_id.as_str(), id) {
        let mut v = who_of(r.warrant.as_str(), r.deliverable_id.as_str());
        let mut m = chars_of("the response names ");
        crate::text::push_all(&mut m, &v);
        push_str(&mut m, "; ingesting for ");
        v = who_of(alias, id);
        crate::text::push_all(&mut m, &v);
        return refusal("correction.wrong-warrant", &m);
    }
    match &st.unknown_deliverable {
        Some(e) => {
            return refusal("correction.unknown-deliverable", &chars_of(e.as_str()));
        },
        None => {},
    }
    if !st.resolved {
        let mut v = chars_of(alias);
        push_str(
            &mut v,
            " is not resolved. A correction supersedes a pin a resolution holds; before resolution, regenerate deliverables.toml",
        );
        return refusal("correction.not-resolved", &v);
    }
    let who = who_of(alias, id);
    let head = match &st.head {
        Err(e) => {
            let mut v = crate::text::slice_of(&who, 0, who.len());
            push_str(&mut v, ": ");
            push_str(&mut v, e.as_str());
            proof {
                assert(who@.subrange(0, who@.len() as int) =~= who@);
            }
            return refusal("correction.chain", &v);
        },
        Ok(h) => h,
    };
    let mut m = crate::text::slice_of(&who, 0, who.len());
    proof {
        assert(m@ =~= who@);
    }
    if str_eq(st.current.as_str(), head.as_str()) {
        push_str(&mut m, ": the file is at ");
        push_str(&mut m, head.as_str());
        push_str(&mut m, "; there is nothing to correct");
        return refusal("correction.no-drift", &m);
    }
    if !str_eq(r.new_digest.as_str(), st.current.as_str()) {
        push_str(&mut m, ": the response records new digest ");
        push_str(&mut m, r.new_digest.as_str());
        push_str(&mut m, " but the file is ");
        push_str(&mut m, st.current.as_str());
        push_str(&mut m, " — it corrects nothing");
        return refusal("correction.stale", &m);
    }
    if !str_eq(r.superseded_digest.as_str(), head.as_str()) {
        push_str(&mut m, ": the response supersedes ");
        push_str(&mut m, r.superseded_digest.as_str());
        push_str(&mut m, " but the digest on record is ");
        push_str(&mut m, head.as_str());
        push_str(&mut m, " — it supersedes nothing that happened");
        return refusal("correction.superseded-mismatch", &m);
    }
    let reason = chars_of(r.reason.as_str());
    if trimmed(&reason).len() == 0 {
        push_str(&mut m, ": a correction with no reason is a change nobody can answer for");
        return refusal("correction.reason-empty", &m);
    }
    match &st.bad_time {
        Some(e) => {
            push_str(&mut m, ": effective_time ");
            push_str(&mut m, e.as_str());
            return refusal("correction.effective-time", &m);
        },
        None => {},
    }
    let q = debug_quoted(r.corrected_by.as_str());
    let assignment = match register.actor(r.corrected_by.as_str()) {
        None => {
            let mut v = chars_of(q.as_str());
            push_str(&mut v, " holds no role assignment in docs/authority/roles.toml");
            return refusal("correction.unknown-actor", &v);
        },
        Some(a) => a,
    };
    if assignment.actor_kind == ActorKind::Agent {
        let mut v = chars_of(q.as_str());
        push_str(
            &mut v,
            " is an agent. §27.2: an agent SHALL NOT correct a delivered artifact — a performer that could move its own pins would be judging its own work twice",
        );
        return refusal("correction.agent", &v);
    }
    match may_authorize(assignment, st.performer.as_str()) {
        Err(e) => {
            let mut v = chars_of(r.corrected_by.as_str());
            push_str(&mut v, ": ");
            push_str(&mut v, e.as_str());
            refusal("correction.not-permitted", &v)
        },
        Ok(()) => None,
    }
}

/// An agent never corrects a delivered artifact, whatever its roles.
pub proof fn lemma_agent_never_corrects(
    r: CorrectionResponse,
    alias: Seq<char>,
    id: Seq<char>,
    st: CorrectionState,
    register: AuthorityRegister,
)
    requires
        register.spec_actor(r.corrected_by@) matches Some(a) && a.actor_kind == ActorKind::Agent,
    ensures
        spec_refusal(r, alias, id, st, register) is Some,
{
}

/// A file that has not drifted is never corrected.
pub proof fn lemma_no_drift_no_correction(
    r: CorrectionResponse,
    alias: Seq<char>,
    id: Seq<char>,
    st: CorrectionState,
    register: AuthorityRegister,
)
    requires
        st.head matches Ok(h) && h@ == st.current@,
    ensures
        spec_refusal(r, alias, id, st, register) is Some,
{
}

} // verus!
