//! Is an authority record one a human actually signed?
//!
//! For one record: a response exists for the subject with a signature beside
//! it; the signature verifies over the response's exact bytes under the
//! response namespace; it verifies as the principal the register binds to
//! the record's actor; that actor is human; and the response binds the
//! digest the record carries. Every failure is fail-closed and named.
//!
//! The file reads and the `ssh-keygen` runs happen outside this module; the
//! decisions between them are here.

use vstd::prelude::*;

use crate::authority::{first_assignment, lemma_first_assignment, ActorKind, AuthorityRegister};
use crate::text::{
    chars_of, contains, ends_with, occurs, has_prefix, has_suffix, path_join, push_all, push_str,
    starts_with, string_of, strip_all_prefix, strip_prefixes,
};

verus! {

/// The namespace every response signature is made under.
pub const RESPONSE_NAMESPACE: &'static str = "oh.war/response";

/// What kind of act a record claims.
#[derive(Debug, Clone, Copy, PartialEq, Eq, Structural)]
pub enum Act {
    Authorize,
    Resolve,
    Accept,
    Correct,
    /// A roadmap revision, with a schema of its own.
    AcceptRoadmap,
}

impl Act {
    pub open spec fn spec_response_schema(self) -> Seq<char> {
        match self {
            Act::Authorize => "oh.war/authorization-response/v1"@,
            Act::Resolve => "oh.war/resolution-response/v1"@,
            Act::Accept => "oh.war/sas-acceptance-response/v1"@,
            Act::Correct => "oh.war/correction-response/v1"@,
            Act::AcceptRoadmap => "oh.war/roadmap-acceptance-response/v1"@,
        }
    }

    pub open spec fn spec_word(self) -> Seq<char> {
        match self {
            Act::Authorize => "authorization"@,
            Act::Resolve => "resolution"@,
            Act::Accept => "SAS acceptance"@,
            Act::Correct => "correction"@,
            Act::AcceptRoadmap => "roadmap acceptance"@,
        }
    }

    /// The response schema this act's signature must have been made over.
    pub fn response_schema(self) -> (r: &'static str)
        ensures
            r@ == self.spec_response_schema(),
    {
        match self {
            Act::Authorize => "oh.war/authorization-response/v1",
            Act::Resolve => "oh.war/resolution-response/v1",
            Act::Accept => "oh.war/sas-acceptance-response/v1",
            Act::Correct => "oh.war/correction-response/v1",
            Act::AcceptRoadmap => "oh.war/roadmap-acceptance-response/v1",
        }
    }

    /// The act in words, for messages.
    pub fn word(self) -> (r: &'static str)
        ensures
            r@ == self.spec_word(),
    {
        match self {
            Act::Authorize => "authorization",
            Act::Resolve => "resolution",
            Act::Accept => "SAS acceptance",
            Act::Correct => "correction",
            Act::AcceptRoadmap => "roadmap acceptance",
        }
    }
}

/// The answer, with the reason attached to every unhappy case.
#[derive(Debug, Clone, PartialEq, Eq)]
pub enum Verdict {
    /// A human signature over these exact bytes verifies, by this principal.
    Signed { principal: String, response: String },
    /// No response, or no signature beside it.
    Unsigned { why: String },
    /// A signature exists and does not verify, or verifies as someone else.
    Invalid { why: String },
    /// The register does not bind the actor to a principal, or calls it an agent.
    NotHuman { why: String },
    /// `ssh-keygen` is absent. Not a pass.
    Unavailable { why: String },
}

impl Verdict {
    pub open spec fn spec_rule(&self) -> Seq<char> {
        match self {
            Verdict::Signed { .. } => "authority.signed"@,
            Verdict::Unsigned { .. } => "authority.unsigned"@,
            Verdict::Invalid { .. } => "authority.signature-invalid"@,
            Verdict::NotHuman { .. } => "authority.actor-not-human"@,
            Verdict::Unavailable { .. } => "authority.verify-unavailable"@,
        }
    }

    pub open spec fn spec_why(&self) -> Seq<char> {
        match self {
            Verdict::Signed { principal, response } => "signed by "@ + principal@ + " over "@
                + response@,
            Verdict::Unsigned { why } => why@,
            Verdict::Invalid { why } => why@,
            Verdict::NotHuman { why } => why@,
            Verdict::Unavailable { why } => why@,
        }
    }

    pub fn is_signed(&self) -> (r: bool)
        ensures
            r == (self is Signed),
    {
        match self {
            Verdict::Signed { .. } => true,
            _ => false,
        }
    }

    /// The `war check` rule name this verdict reports under.
    pub fn rule(&self) -> (r: &'static str)
        ensures
            r@ == self.spec_rule(),
    {
        match self {
            Verdict::Signed { .. } => "authority.signed",
            Verdict::Unsigned { .. } => "authority.unsigned",
            Verdict::Invalid { .. } => "authority.signature-invalid",
            Verdict::NotHuman { .. } => "authority.actor-not-human",
            Verdict::Unavailable { .. } => "authority.verify-unavailable",
        }
    }

    /// The reason, for every verdict; the signer and the bytes for a signature.
    pub fn why(&self) -> (r: String)
        ensures
            r@ == self.spec_why(),
    {
        match self {
            Verdict::Signed { principal, response } => {
                let mut out = Vec::new();
                push_str(&mut out, "signed by ");
                push_str(&mut out, principal.as_str());
                push_str(&mut out, " over ");
                push_str(&mut out, response.as_str());
                string_of(&out)
            },
            Verdict::Unsigned { why }
            | Verdict::Invalid { why }
            | Verdict::NotHuman { why }
            | Verdict::Unavailable { why } => why.clone(),
        }
    }
}

pub open spec fn spec_response_stem(act: Act, subject: Seq<char>) -> Seq<char> {
    match act {
        Act::Authorize | Act::Accept | Act::AcceptRoadmap => subject,
        Act::Resolve => subject + ".resolution"@,
        Act::Correct => subject + ".correction"@,
    }
}

/// The name a signed response for one act of one subject carries. One name
/// per act, because two acts sharing one name would collide; authorizations
/// keep the bare subject.
pub fn response_stem(act: Act, subject: &str) -> (r: String)
    ensures
        r@ == spec_response_stem(act, subject@),
{
    let mut out = chars_of(subject);
    match act {
        Act::Authorize | Act::Accept | Act::AcceptRoadmap => {},
        Act::Resolve => push_str(&mut out, ".resolution"),
        Act::Correct => push_str(&mut out, ".correction"),
    }
    string_of(&out)
}

pub open spec fn spec_response_path(root: Seq<char>, act: Act, subject: Seq<char>) -> Seq<char> {
    path_join(root, "docs/authority/responses/"@ + spec_response_stem(act, subject)
        + ".response.toml"@)
}

/// Where the signed response for one act of one subject lives under `root`.
pub fn response_path(root: &str, act: Act, subject: &str) -> (r: String)
    ensures
        r@ == spec_response_path(root@, act, subject@),
{
    let stem = response_stem(act, subject);
    let mut rel = chars_of("docs/authority/responses/");
    push_str(&mut rel, stem.as_str());
    push_str(&mut rel, ".response.toml");
    let base = chars_of(root);
    let joined = crate::text::join_path(&base, &rel);
    string_of(&joined)
}

/// Whether a file in the responses directory belongs to this subject: its
/// name starts with the subject and ends `.response.toml`. Retired siblings
/// (renamed to carry their digest) belong too.
pub fn is_candidate_name(name: &str, subject: &str) -> (r: bool)
    ensures
        r == (starts_with(name@, subject@) && ends_with(name@, ".response.toml"@)),
{
    let n = chars_of(name);
    let s = chars_of(subject);
    let suffix = chars_of(".response.toml");
    has_prefix(&n, &s) && has_suffix(&n, &suffix)
}

/// What reading one candidate response decided.
#[derive(Debug, Clone, PartialEq, Eq)]
pub enum Examined {
    /// A response for a different act: not a reason to complain.
    Skip,
    /// Not a signature over this act; the reason replaces the strongest so far.
    Stronger(Verdict),
    /// A retired sibling over another digest: expected, not a finding.
    Retired,
    /// The response is for this act and digest: its signature must be checked.
    CheckSignature,
}

pub open spec fn spec_moved_digest_why(relative: Seq<char>, act: Act, bare: Seq<char>) -> Seq<
    char,
> {
    relative + " is a "@ + act.spec_word()
        + " response and does not mention the digest this record binds ("@ + bare
        + "); a signature over other bytes is not a signature over this act"@
}

/// Judge one candidate response from its text: a response for another act is
/// skipped; the current response over other bytes is invalid; a retired one
/// over other bytes is expected; otherwise its signature decides.
pub fn examine(
    act: Act,
    bound_digest: Option<&str>,
    text: &str,
    is_primary: bool,
    relative: &str,
) -> (r: Examined)
    ensures
        !contains(text@, act.spec_response_schema()) ==> r is Skip,
        contains(text@, act.spec_response_schema()) ==> match bound_digest {
            None => r is CheckSignature,
            Some(want) => {
                let bare = strip_all_prefix(want@, "sha256:"@);
                if contains(text@, bare) {
                    r is CheckSignature
                } else if is_primary {
                    r matches Examined::Stronger(Verdict::Invalid { why }) && why@
                        == spec_moved_digest_why(relative@, act, bare)
                } else {
                    r is Retired
                }
            },
        },
{
    let t = chars_of(text);
    let schema = chars_of(act.response_schema());
    if !occurs(&t, &schema) {
        return Examined::Skip;
    }
    match bound_digest {
        Some(want) => {
            let w = chars_of(want);
            let prefix = chars_of("sha256:");
            let bare = strip_prefixes(&w, &prefix);
            if occurs(&t, &bare) {
                Examined::CheckSignature
            } else if is_primary {
                let mut out = chars_of(relative);
                push_str(&mut out, " is a ");
                push_str(&mut out, act.word());
                push_str(&mut out, " response and does not mention the digest this record binds (");
                push_all(&mut out, &bare);
                push_str(&mut out, "); a signature over other bytes is not a signature over this act");
                Examined::Stronger(Verdict::Invalid { why: string_of(&out) })
            } else {
                Examined::Retired
            }
        },
        None => Examined::CheckSignature,
    }
}

pub open spec fn spec_no_candidates_why(act: Act, subject: Seq<char>, actor: Seq<char>) -> Seq<
    char,
> {
    "the "@ + act.spec_word() + " record names "@ + actor
        + " as its actor and no signed "@ + act.spec_response_schema()
        + " response exists under docs/authority/responses/ for "@ + subject
        + ". An authority record is believed because a human signed it, not because a file says so — draft the act and run `war sign "@
        + subject + " --ssh-sign`"@
}

/// The verdict when no response file carries the subject's name at all.
pub fn no_candidates(act: Act, subject: &str, actor: &str) -> (r: Verdict)
    ensures
        r matches Verdict::Unsigned { why } && why@ == spec_no_candidates_why(
            act,
            subject@,
            actor@,
        ),
{
    let mut out = chars_of("the ");
    push_str(&mut out, act.word());
    push_str(&mut out, " record names ");
    push_str(&mut out, actor);
    push_str(&mut out, " as its actor and no signed ");
    push_str(&mut out, act.response_schema());
    push_str(&mut out, " response exists under docs/authority/responses/ for ");
    push_str(&mut out, subject);
    push_str(&mut out, ". An authority record is believed because a human signed it, not because a file says so — draft the act and run `war sign ");
    push_str(&mut out, subject);
    push_str(&mut out, " --ssh-sign`");
    Verdict::Unsigned { why: string_of(&out) }
}

pub open spec fn spec_unsigned_sidecar_why(relative: Seq<char>) -> Seq<char> {
    relative
        + " carries no `.sig` sidecar, so nothing signed it. A response written by hand is a draft, whatever its fields claim"@
}

/// The verdict for a current response with no signature of its own and no
/// batch covering it.
pub fn no_sidecar(relative: &str) -> (r: Verdict)
    ensures
        r matches Verdict::Unsigned { why } && why@ == spec_unsigned_sidecar_why(relative@),
{
    let mut out = chars_of(relative);
    push_str(
        &mut out,
        " carries no `.sig` sidecar, so nothing signed it. A response written by hand is a draft, whatever its fields claim",
    );
    Verdict::Unsigned { why: string_of(&out) }
}

pub open spec fn spec_none_signed_why(
    act: Act,
    subject: Seq<char>,
    actor: Seq<char>,
    count: nat,
) -> Seq<char> {
    "no "@ + act.spec_word() + " response for "@ + subject
        + " exists under docs/authority/responses/ — "@ + crate::text::decimal(count)
        + " file(s) there carry this subject's name and none is a "@
        + act.spec_response_schema() + " signed by "@ + actor
        + ". Draft the act and run `war sign "@ + subject + " --ssh-sign`"@
}

/// The verdict when candidates existed and none was even examined as a
/// signature for this act: the strongest reason found, or unsigned.
pub fn finish(strongest: Option<Verdict>, act: Act, subject: &str, actor: &str, candidates: u64) -> (r: Verdict)
    ensures
        strongest is Some ==> Some(r) == strongest,
        strongest is None ==> (r matches Verdict::Unsigned { why } && why@
            == spec_none_signed_why(act, subject@, actor@, candidates as nat)),
{
    match strongest {
        Some(v) => v,
        None => {
            let mut out = chars_of("no ");
            push_str(&mut out, act.word());
            push_str(&mut out, " response for ");
            push_str(&mut out, subject);
            push_str(&mut out, " exists under docs/authority/responses/ — ");
            crate::text::push_decimal(&mut out, candidates);
            push_str(&mut out, " file(s) there carry this subject's name and none is a ");
            push_str(&mut out, act.response_schema());
            push_str(&mut out, " signed by ");
            push_str(&mut out, actor);
            push_str(&mut out, ". Draft the act and run `war sign ");
            push_str(&mut out, subject);
            push_str(&mut out, " --ssh-sign`");
            Verdict::Unsigned { why: string_of(&out) }
        },
    }
}

pub open spec fn spec_no_assignment_why(actor: Seq<char>) -> Seq<char> {
    actor
        + " has no assignment in docs/authority/roles.toml, so nothing says this actor may sign anything"@
}

pub open spec fn spec_not_human_why(actor: Seq<char>, kind: ActorKind) -> Seq<char> {
    actor + " is "@ + kind.spec_word() + " in the register; §27.2 reserves this act for a human"@
}

pub open spec fn spec_no_principal_why(actor: Seq<char>) -> Seq<char> {
    actor
        + " has no `ssh_principal` in docs/authority/roles.toml, so a signature cannot be tied to this actor"@
}

/// The principal a signature by `actor` must verify as, or why no signature
/// by `actor` can count: no assignment, not human, or no principal bound.
pub fn signer_principal(register: &AuthorityRegister, actor: &str) -> (r: Result<String, Verdict>)
    ensures
        match register.spec_actor(actor@) {
            None => r matches Err(Verdict::NotHuman { why }) && why@ == spec_no_assignment_why(
                actor@,
            ),
            Some(a) => if a.actor_kind != ActorKind::Human {
                r matches Err(Verdict::NotHuman { why }) && why@ == spec_not_human_why(
                    actor@,
                    a.actor_kind,
                )
            } else {
                match a.ssh_principal {
                    None => r matches Err(Verdict::NotHuman { why }) && why@
                        == spec_no_principal_why(actor@),
                    Some(p) => r matches Ok(q) && q@ == p@,
                }
            },
        },
{
    match register.actor(actor) {
        None => {
            let mut out = chars_of(actor);
            push_str(
                &mut out,
                " has no assignment in docs/authority/roles.toml, so nothing says this actor may sign anything",
            );
            Err(Verdict::NotHuman { why: string_of(&out) })
        },
        Some(a) => {
            if a.actor_kind != ActorKind::Human {
                let mut out = chars_of(actor);
                push_str(&mut out, " is ");
                push_str(&mut out, a.actor_kind.word());
                push_str(&mut out, " in the register; §27.2 reserves this act for a human");
                return Err(Verdict::NotHuman { why: string_of(&out) });
            }
            match &a.ssh_principal {
                None => {
                    let mut out = chars_of(actor);
                    push_str(
                        &mut out,
                        " has no `ssh_principal` in docs/authority/roles.toml, so a signature cannot be tied to this actor",
                    );
                    Err(Verdict::NotHuman { why: string_of(&out) })
                },
                Some(p) => Ok(p.clone()),
            }
        },
    }
}


/// Why checking one signature with `ssh-keygen` did not pass.
#[derive(Debug, Clone, PartialEq, Eq)]
pub enum SshFailure {
    /// `ssh-keygen` could not be run at all.
    Unavailable(String),
    /// It ran and refused.
    Rejected(String),
}

/// One candidate response, as the file reads and signature checks found it.
#[derive(Debug, PartialEq, Eq)]
pub struct Candidate {
    /// Its repository-relative path.
    pub relative: String,
    /// Whether it is the response path this act and subject name now.
    pub is_primary: bool,
    /// Its text, or why it could not be read.
    pub text: Result<String, String>,
    /// Whether a `.sig` sidecar lies beside it.
    pub sidecar: bool,
    /// Its file name.
    pub name: String,
    /// The hex SHA-256 of its bytes, when they could be read.
    pub digest: Option<String>,
    /// What `ssh-keygen -Y verify` says of its sidecar as the principal.
    pub signature: Result<(), SshFailure>,
}

/// One recorded batch, as its file and signature check found it.
#[derive(Debug, PartialEq, Eq)]
pub struct BatchRecord {
    pub batch_id: String,
    /// The actor the batch names as its signer.
    pub signer: String,
    /// The responses it lists: each file name with the hex SHA-256 of the
    /// bytes it covers.
    pub listed: Vec<(String, String)>,
    /// Whether a `.sig` lies beside the batch file.
    pub sig_present: bool,
    /// What `ssh-keygen -Y verify` says of the batch's signature as the
    /// principal.
    pub signature: Result<(), SshFailure>,
}

/// Whether a batch lists a response by its exact name and digest.
pub open spec fn lists(b: BatchRecord, name: Seq<char>, digest: Seq<char>) -> bool {
    exists|k: int| 0 <= k < b.listed.len() && (#[trigger] b.listed@[k]).0@ == name && b.listed@[k].1@ == digest
}

/// The batches from the first on that may cover a response: signed by the
/// actor, listing its exact name and digest, with a signature file. The
/// first whose signature verifies as the principal makes the response
/// signed; an unavailable check decides as unavailable; a rejected one is
/// remembered, the last such standing when none verifies.
pub open spec fn cover_scan(
    principal: Seq<char>,
    actor: Seq<char>,
    relative: Seq<char>,
    name: Seq<char>,
    digest: Seq<char>,
    bs: Seq<BatchRecord>,
    failed: Option<(int, Seq<char>, Seq<char>)>,
) -> Option<(int, Seq<char>, Seq<char>)>
    decreases bs.len(),
{
    if bs.len() == 0 {
        failed
    } else {
        let b = bs[0];
        if b.signer@ != actor || !lists(b, name, digest) || !b.sig_present {
            cover_scan(principal, actor, relative, name, digest, bs.drop_first(), failed)
        } else {
            match b.signature {
                Ok(()) => Some((0, principal, relative + " (in batch "@ + b.batch_id@ + ")"@)),
                Err(SshFailure::Unavailable(w)) => Some((4, w@, seq![])),
                Err(SshFailure::Rejected(w)) => cover_scan(
                    principal,
                    actor,
                    relative,
                    name,
                    digest,
                    bs.drop_first(),
                    Some((2, w@, seq![])),
                ),
            }
        }
    }
}

/// What the recorded batches say of a candidate with no sidecar of its own.
pub open spec fn spec_batch_covering(
    principal: Seq<char>,
    actor: Seq<char>,
    c: Candidate,
    bs: Seq<BatchRecord>,
) -> Option<(int, Seq<char>, Seq<char>)> {
    match c.digest {
        None => None,
        Some(d) => cover_scan(principal, actor, c.relative@, c.name@, d@, bs, None),
    }
}

/// A verdict as values: its kind and its texts.
pub open spec fn vview(v: Verdict) -> (int, Seq<char>, Seq<char>) {
    match v {
        Verdict::Signed { principal, response } => (0, principal@, response@),
        Verdict::Unsigned { why } => (1, why@, seq![]),
        Verdict::Invalid { why } => (2, why@, seq![]),
        Verdict::NotHuman { why } => (3, why@, seq![]),
        Verdict::Unavailable { why } => (4, why@, seq![]),
    }
}

pub open spec fn opt_view(o: Option<&str>) -> Option<Seq<char>> {
    match o {
        Some(s) => Some(s@),
        None => None,
    }
}

/// What judging one readable candidate decides: 0 skip, 1 a stronger reason,
/// 2 retired, 3 its signature decides.
pub open spec fn examined(
    act: Act,
    bound: Option<Seq<char>>,
    text: Seq<char>,
    is_primary: bool,
    relative: Seq<char>,
) -> (int, Seq<char>) {
    if !contains(text, act.spec_response_schema()) {
        (0, seq![])
    } else {
        match bound {
            None => (3, seq![]),
            Some(want) => {
                let bare = strip_all_prefix(want, "sha256:"@);
                if contains(text, bare) {
                    (3, seq![])
                } else if is_primary {
                    (1, spec_moved_digest_why(relative, act, bare))
                } else {
                    (2, seq![])
                }
            },
        }
    }
}

/// The candidates from the first on, with the strongest reason so far: the
/// first one that verifies as the principal (alone or through a batch)
/// decides, as does an unavailable check; otherwise the last reason found
/// stands, and with none, the record is unsigned.
pub open spec fn scan(
    act: Act,
    bound: Option<Seq<char>>,
    principal: Seq<char>,
    subject: Seq<char>,
    actor: Seq<char>,
    count: nat,
    bs: Seq<BatchRecord>,
    cs: Seq<Candidate>,
    strongest: Option<(int, Seq<char>, Seq<char>)>,
) -> (int, Seq<char>, Seq<char>)
    decreases cs.len(),
{
    if cs.len() == 0 {
        match strongest {
            Some(v) => v,
            None => (1, spec_none_signed_why(act, subject, actor, count), seq![]),
        }
    } else {
        let c = cs[0];
        let rest = cs.drop_first();
        match c.text {
            Err(e) => scan(
                act,
                bound,
                principal,
                subject,
                actor,
                count,
                bs,
                rest,
                Some((4, c.relative@ + " could not be read: "@ + e@, seq![])),
            ),
            Ok(text) => {
                let x = examined(act, bound, text@, c.is_primary, c.relative@);
                if x.0 == 0 || x.0 == 2 {
                    scan(act, bound, principal, subject, actor, count, bs, rest, strongest)
                } else if x.0 == 1 {
                    scan(act, bound, principal, subject, actor, count, bs, rest, Some((2, x.1, seq![])))
                } else if !c.sidecar {
                    match spec_batch_covering(principal, actor, c, bs) {
                        Some(v) => if v.0 == 0 || v.0 == 4 {
                            v
                        } else {
                            scan(act, bound, principal, subject, actor, count, bs, rest, Some(v))
                        },
                        None => scan(
                            act,
                            bound,
                            principal,
                            subject,
                            actor,
                            count,
                            bs,
                            rest,
                            Some((1, spec_unsigned_sidecar_why(c.relative@), seq![])),
                        ),
                    }
                } else {
                    match c.signature {
                        Ok(()) => (0, principal, c.relative@),
                        Err(SshFailure::Unavailable(w)) => (4, w@, seq![]),
                        Err(SshFailure::Rejected(w)) => scan(
                            act,
                            bound,
                            principal,
                            subject,
                            actor,
                            count,
                            bs,
                            rest,
                            Some((2, w@, seq![])),
                        ),
                    }
                }
            },
        }
    }
}

/// Whether a record was signed by a human: no candidate at all is unsigned;
/// an unreadable register is unavailable; the register must bind the actor,
/// as a human, to a principal; then the candidates decide in order.
pub open spec fn spec_verify(
    act: Act,
    subject: Seq<char>,
    actor: Seq<char>,
    bound: Option<Seq<char>>,
    register: Result<AuthorityRegister, String>,
    bs: Seq<BatchRecord>,
    cs: Seq<Candidate>,
) -> (int, Seq<char>, Seq<char>) {
    if cs.len() == 0 {
        (1, spec_no_candidates_why(act, subject, actor), seq![])
    } else {
        match register {
            Err(e) => (4, "docs/authority/roles.toml could not be read: "@ + e@, seq![]),
            Ok(reg) => match reg.spec_actor(actor) {
                None => (3, spec_no_assignment_why(actor), seq![]),
                Some(a) => if a.actor_kind != ActorKind::Human {
                    (3, spec_not_human_why(actor, a.actor_kind), seq![])
                } else {
                    match a.ssh_principal {
                        None => (3, spec_no_principal_why(actor), seq![]),
                        Some(p) => scan(act, bound, p@, subject, actor, cs.len(), bs, cs, None),
                    }
                },
            },
        }
    }
}

fn lists_exactly(b: &BatchRecord, name: &str, digest: &str) -> (r: bool)
    ensures
        r == lists(*b, name@, digest@),
{
    let mut k: usize = 0;
    while k < b.listed.len()
        invariant
            k <= b.listed.len(),
            forall|j: int| 0 <= j < k ==> !((#[trigger] b.listed@[j]).0@ == name@ && b.listed@[j].1@ == digest@),
        decreases b.listed.len() - k,
    {
        if crate::text::str_eq(b.listed[k].0.as_str(), name) && crate::text::str_eq(b.listed[k].1.as_str(), digest) {
            return true;
        }
        k = k + 1;
    }
    false
}

/// What the recorded batches say of a candidate with no sidecar of its
/// own, when `principal` is the register's principal for `actor`.
pub fn batch_covering(principal: &str, actor: &str, c: &Candidate, batches: &Vec<BatchRecord>) -> (r: Option<Verdict>)
    ensures
        match (r, spec_batch_covering(principal@, actor@, *c, batches@)) {
            (Some(v), Some(w)) => vview(v) == w,
            (None, None) => true,
            _ => false,
        },
{
    let digest = match &c.digest {
        None => {
            return None;
        },
        Some(d) => d,
    };
    let ghost bs = batches@;
    let mut failed: Option<Verdict> = None;
    let mut i: usize = 0;
    proof {
        assert(bs.skip(0) =~= bs);
    }
    while i < batches.len()
        invariant
            i <= batches.len(),
            bs == batches@,
            c.digest == Some(*digest),
            spec_batch_covering(principal@, actor@, *c, bs) == cover_scan(
                principal@,
                actor@,
                c.relative@,
                c.name@,
                digest@,
                bs.skip(i as int),
                match failed {
                    Some(v) => Some(vview(v)),
                    None => None,
                },
            ),
        decreases batches.len() - i,
    {
        let b = &batches[i];
        proof {
            assert(bs.skip(i as int)[0] == *b);
            assert(bs.skip(i as int).drop_first() =~= bs.skip(i + 1));
        }
        if crate::text::str_eq(b.signer.as_str(), actor) && lists_exactly(b, c.name.as_str(), digest.as_str())
            && b.sig_present {
            match &b.signature {
                Ok(()) => {
                    let mut resp = chars_of(c.relative.as_str());
                    push_str(&mut resp, " (in batch ");
                    push_str(&mut resp, b.batch_id.as_str());
                    push_str(&mut resp, ")");
                    return Some(Verdict::Signed { principal: string_of(&chars_of(principal)), response: string_of(&resp) });
                },
                Err(SshFailure::Unavailable(w)) => {
                    return Some(Verdict::Unavailable { why: string_of(&chars_of(w.as_str())) });
                },
                Err(SshFailure::Rejected(w)) => {
                    failed = Some(Verdict::Invalid { why: string_of(&chars_of(w.as_str())) });
                },
            }
        }
        i = i + 1;
    }
    proof {
        assert(bs.skip(batches.len() as int).len() == 0);
    }
    failed
}

/// The verdict on one authority record, from what reading its candidate
/// responses and checking their signatures found.
pub fn verify(
    act: Act,
    subject: &str,
    actor: &str,
    bound_digest: Option<&str>,
    register: &Result<AuthorityRegister, String>,
    batches: &Vec<BatchRecord>,
    candidates: &Vec<Candidate>,
) -> (r: Verdict)
    ensures
        vview(r) == spec_verify(act, subject@, actor@, opt_view(bound_digest), *register, batches@, candidates@),
        r is Signed ==> exists|k: int| 0 <= k < candidates.len() && signs_as(act, opt_view(bound_digest),
            #[trigger] candidates@[k], batches@, vview(r).2),
{
    proof {
        let v = spec_verify(act, subject@, actor@, opt_view(bound_digest), *register, batches@, candidates@);
        if v.0 == 0 {
            lemma_signed_response_mentions_the_bound_digest(act, subject@, actor@, opt_view(bound_digest),
                *register, batches@, candidates@);
            let k = choose|k: int| 0 <= k < candidates@.len() && signs_as(act, opt_view(bound_digest),
                #[trigger] candidates@[k], batches@, v.2);
        }
    }
    if candidates.len() == 0 {
        return no_candidates(act, subject, actor);
    }
    let reg = match register {
        Err(e) => {
            let mut out = chars_of("docs/authority/roles.toml could not be read: ");
            push_str(&mut out, e.as_str());
            return Verdict::Unavailable { why: string_of(&out) };
        },
        Ok(r) => r,
    };
    let principal = match signer_principal(reg, actor) {
        Err(v) => {
            return v;
        },
        Ok(p) => p,
    };
    let ghost cs = candidates@;
    let ghost bound = opt_view(bound_digest);
    let mut strongest: Option<Verdict> = None;
    let mut i: usize = 0;
    assert(cs.skip(0) =~= cs);
    while i < candidates.len()
        invariant
            i <= candidates.len(),
            cs == candidates@,
            bound == opt_view(bound_digest),
            spec_verify(act, subject@, actor@, bound, *register, batches@, cs).0 == 0 ==> exists|k: int|
                0 <= k < cs.len() && signs_as(act, bound, #[trigger] cs[k], batches@,
                spec_verify(act, subject@, actor@, bound, *register, batches@, cs).2),
            spec_verify(act, subject@, actor@, bound, *register, batches@, cs) == scan(
                act,
                bound,
                principal@,
                subject@,
                actor@,
                cs.len(),
                batches@,
                cs.skip(i as int),
                match strongest {
                    Some(v) => Some(vview(v)),
                    None => None,
                },
            ),
        decreases candidates.len() - i,
    {
        let c = &candidates[i];
        proof {
            assert(cs.skip(i as int)[0] == *c);
            assert(cs.skip(i as int).drop_first() =~= cs.skip(i + 1));
        }
        match &c.text {
            Err(e) => {
                let mut out = chars_of(c.relative.as_str());
                push_str(&mut out, " could not be read: ");
                push_str(&mut out, e.as_str());
                strongest = Some(Verdict::Unavailable { why: string_of(&out) });
            },
            Ok(text) => {
                let x = examine(act, bound_digest, text.as_str(), c.is_primary, c.relative.as_str());
                proof {
                    let e = examined(act, bound, text@, c.is_primary, c.relative@);
                    assert(e.0 == 0 ==> x is Skip);
                    assert(e.0 == 2 ==> x is Retired);
                    assert(e.0 == 3 ==> x is CheckSignature);
                    assert(e.0 == 1 ==> (x matches Examined::Stronger(v) && vview(v) == (2int, e.1, Seq::<char>::empty())));
                }
                match x {
                    Examined::Skip => {},
                    Examined::Retired => {},
                    Examined::Stronger(v) => {
                        strongest = Some(v);
                    },
                    Examined::CheckSignature => {
                        if !c.sidecar {
                            match batch_covering(principal.as_str(), actor, c, batches) {
                                Some(w) => {
                                    if w.is_signed() {
                                        return w;
                                    }
                                    match w {
                                        Verdict::Unavailable { .. } => {
                                            return w;
                                        },
                                        _ => {
                                            strongest = Some(w);
                                        },
                                    }
                                },
                                None => {
                                    strongest = Some(no_sidecar(c.relative.as_str()));
                                },
                            }
                        } else {
                            match &c.signature {
                                Ok(()) => {
                                    return Verdict::Signed {
                                        principal,
                                        response: string_of(&chars_of(c.relative.as_str())),
                                    };
                                },
                                Err(SshFailure::Unavailable(w)) => {
                                    return Verdict::Unavailable { why: string_of(&chars_of(w.as_str())) };
                                },
                                Err(SshFailure::Rejected(w)) => {
                                    strongest = Some(Verdict::Invalid { why: string_of(&chars_of(w.as_str())) });
                                },
                            }
                        }
                    },
                }
            },
        }
        i = i + 1;
    }
    proof {
        assert(cs.skip(i as int).len() == 0);
    }
    let n = candidates.len() as u64;
    let r = finish(strongest, act, subject, actor, n);
    r
}

proof fn lemma_cover_signed(
    principal: Seq<char>,
    actor: Seq<char>,
    relative: Seq<char>,
    name: Seq<char>,
    digest: Seq<char>,
    bs: Seq<BatchRecord>,
    failed: Option<(int, Seq<char>, Seq<char>)>,
)
    requires
        failed is None || failed->Some_0.0 != 0,
    ensures
        cover_scan(principal, actor, relative, name, digest, bs, failed) matches Some(v) ==> (v.0 == 0
            ==> v.1 == principal),
    decreases bs.len(),
{
    if bs.len() > 0 {
        lemma_cover_signed(principal, actor, relative, name, digest, bs.drop_first(), failed);
        match bs[0].signature {
            Err(SshFailure::Rejected(w)) => {
                lemma_cover_signed(principal, actor, relative, name, digest, bs.drop_first(), Some((2, w@, seq![])));
            },
            _ => {},
        }
    }
}

proof fn lemma_scan_signed(
    act: Act,
    bound: Option<Seq<char>>,
    principal: Seq<char>,
    subject: Seq<char>,
    actor: Seq<char>,
    count: nat,
    bs: Seq<BatchRecord>,
    cs: Seq<Candidate>,
    strongest: Option<(int, Seq<char>, Seq<char>)>,
)
    requires
        strongest is None || strongest->Some_0.0 != 0,
    ensures
        scan(act, bound, principal, subject, actor, count, bs, cs, strongest).0 == 0
            ==> scan(act, bound, principal, subject, actor, count, bs, cs, strongest).1 == principal,
    decreases cs.len(),
{
    if cs.len() > 0 {
        let c = cs[0];
        let rest = cs.drop_first();
        match c.text {
            Err(e) => lemma_scan_signed(act, bound, principal, subject, actor, count, bs, rest,
                Some((4, c.relative@ + " could not be read: "@ + e@, seq![]))),
            Ok(text) => {
                let x = examined(act, bound, text@, c.is_primary, c.relative@);
                lemma_scan_signed(act, bound, principal, subject, actor, count, bs, rest, strongest);
                lemma_scan_signed(act, bound, principal, subject, actor, count, bs, rest, Some((2, x.1, seq![])));
                lemma_scan_signed(act, bound, principal, subject, actor, count, bs, rest,
                    Some((1, spec_unsigned_sidecar_why(c.relative@), seq![])));
                match c.digest {
                    Some(d) => {
                        lemma_cover_signed(principal, actor, c.relative@, c.name@, d@, bs, None);
                        match spec_batch_covering(principal, actor, c, bs) {
                            Some(v) => if v.0 != 0 {
                                lemma_scan_signed(act, bound, principal, subject, actor, count, bs, rest, Some(v));
                            },
                            None => {},
                        }
                    },
                    None => {},
                }
                match c.signature {
                    Err(SshFailure::Rejected(w)) => lemma_scan_signed(act, bound, principal, subject, actor,
                        count, bs, rest, Some((2, w@, seq![]))),
                    _ => {},
                }
            },
        }
    }
}

/// The principal the register binds `actor` to as a human, if it does.
pub open spec fn registers_principal(register: Result<AuthorityRegister, String>, actor: Seq<char>) -> Option<Seq<char>> {
    match register {
        Ok(reg) => match reg.spec_actor(actor) {
            Some(a) => if a.actor_kind == ActorKind::Human {
                match a.ssh_principal {
                    Some(p) => Some(p@),
                    None => None,
                }
            } else {
                None
            },
            None => None,
        },
        Err(_) => None,
    }
}

/// A record is found signed only as the principal the register binds the
/// actor to, as a human, whether the response carries its own signature or
/// is covered by a batch.
pub proof fn lemma_signed_is_the_registers_principal(
    act: Act,
    subject: Seq<char>,
    actor: Seq<char>,
    bound: Option<Seq<char>>,
    register: Result<AuthorityRegister, String>,
    bs: Seq<BatchRecord>,
    cs: Seq<Candidate>,
)
    requires
        spec_verify(act, subject, actor, bound, register, bs, cs).0 == 0,
    ensures
        registers_principal(register, actor) == Some(spec_verify(act, subject, actor, bound, register, bs, cs).1),
{
    match register {
        Ok(reg) => match reg.spec_actor(actor) {
            Some(a) => match a.ssh_principal {
                Some(p) => lemma_scan_signed(act, bound, p@, subject, actor, cs.len(), bs, cs, None),
                None => {},
            },
            None => {},
        },
        Err(_) => {},
    }
}

/// A response without a signature of its own is signed through a batch
/// only when some batch names the actor as its signer, lists the response's
/// exact file name and digest, and has a signature file.
pub proof fn lemma_batch_cover_lists_the_response(
    principal: Seq<char>,
    actor: Seq<char>,
    c: Candidate,
    bs: Seq<BatchRecord>,
)
    requires
        spec_batch_covering(principal, actor, c, bs) matches Some(v) && v.0 == 0,
    ensures
        c.digest matches Some(d) && exists|i: int| 0 <= i < bs.len() && (#[trigger] bs[i]).signer@ == actor
            && lists(bs[i], c.name@, d@) && bs[i].sig_present,
{
    match c.digest {
        Some(d) => lemma_cover_lists(principal, actor, c.relative@, c.name@, d@, bs, None),
        None => {},
    }
}

proof fn lemma_cover_lists(
    principal: Seq<char>,
    actor: Seq<char>,
    relative: Seq<char>,
    name: Seq<char>,
    digest: Seq<char>,
    bs: Seq<BatchRecord>,
    failed: Option<(int, Seq<char>, Seq<char>)>,
)
    requires
        failed is None || failed->Some_0.0 != 0,
        cover_scan(principal, actor, relative, name, digest, bs, failed) matches Some(v) && v.0 == 0,
    ensures
        exists|i: int| 0 <= i < bs.len() && (#[trigger] bs[i]).signer@ == actor && lists(bs[i], name, digest)
            && bs[i].sig_present,
    decreases bs.len(),
{
    if bs.len() > 0 {
        let b = bs[0];
        if b.signer@ != actor || !lists(b, name, digest) || !b.sig_present {
            lemma_cover_lists(principal, actor, relative, name, digest, bs.drop_first(), failed);
            let i = choose|i: int| 0 <= i < bs.drop_first().len() && (#[trigger] bs.drop_first()[i]).signer@ == actor
                && lists(bs.drop_first()[i], name, digest) && bs.drop_first()[i].sig_present;
            assert(bs[i + 1] == bs.drop_first()[i]);
        } else {
            match b.signature {
                Err(SshFailure::Rejected(w)) => {
                    lemma_cover_lists(principal, actor, relative, name, digest, bs.drop_first(), Some((2, w@, seq![])));
                    let i = choose|i: int| 0 <= i < bs.drop_first().len() && (#[trigger] bs.drop_first()[i]).signer@ == actor
                        && lists(bs.drop_first()[i], name, digest) && bs.drop_first()[i].sig_present;
                    assert(bs[i + 1] == bs.drop_first()[i]);
                },
                _ => {
                    assert(bs[0] == b);
                },
            }
        }
    }
}

/// Whether a path is the one left out of the search.
pub open spec fn excluded(exclude: Option<Seq<char>>, p: Seq<char>) -> bool {
    exclude == Some(p)
}

/// Whether a directory entry `(path, file name)` is a candidate response of
/// the subject: named for it, not the primary response, not left out.
pub open spec fn entry_taken(e: (String, String), primary: Seq<char>, exclude: Option<Seq<char>>, subject: Seq<char>) -> bool {
    e.0@ != primary && !excluded(exclude, e.0@) && starts_with(e.1@, subject) && ends_with(
        e.1@,
        ".response.toml"@,
    )
}

/// The candidate responses of a subject among the first `n` entries of
/// the responses directory: the primary response when it is a file, and
/// each entry named for the subject, the path left out excepted.
pub open spec fn candidate_set(
    primary: Seq<char>,
    primary_is_file: bool,
    exclude: Option<Seq<char>>,
    entries: Seq<(String, String)>,
    subject: Seq<char>,
    n: int,
) -> Set<Seq<char>>
    decreases n,
{
    if n <= 0 {
        if primary_is_file && !excluded(exclude, primary) {
            Set::empty().insert(primary)
        } else {
            Set::empty()
        }
    } else {
        let rest = candidate_set(primary, primary_is_file, exclude, entries, subject, n - 1);
        if entry_taken(entries[n - 1], primary, exclude, subject) {
            rest.insert(entries[n - 1].0@)
        } else {
            rest
        }
    }
}

fn is_excluded(exclude: Option<&str>, p: &str) -> (b: bool)
    ensures
        b == excluded(opt_view(exclude), p@),
{
    match exclude {
        Some(e) => crate::text::str_eq(e, p),
        None => false,
    }
}

/// The candidate responses of a subject, sorted, each once, from the
/// primary response path, whether it is a file, the path left out (if any)
/// and the entries of the responses directory as `(path, file name)`.
pub fn candidate_paths(
    primary: &str,
    primary_is_file: bool,
    exclude: Option<&str>,
    entries: &Vec<(String, String)>,
    subject: &str,
) -> (r: Vec<String>)
    ensures
        crate::text::sorted_unique(crate::text::strs(r@)),
        crate::text::strs(r@).to_set() == candidate_set(
            primary@,
            primary_is_file,
            opt_view(exclude),
            entries@,
            subject@,
            entries.len() as int,
        ),
{
    let mut out: Vec<String> = Vec::new();
    let ghost ev = opt_view(exclude);
    proof {
        assert(crate::text::strs(out@) =~= Seq::<Seq<char>>::empty());
        assert(crate::text::strs(out@).to_set() =~= Set::<Seq<char>>::empty());
    }
    if primary_is_file && !is_excluded(exclude, primary) {
        crate::selection::insert_heading(&mut out, &string_of(&chars_of(primary)));
    }
    let mut i: usize = 0;
    while i < entries.len()
        invariant
            i <= entries.len(),
            ev == opt_view(exclude),
            crate::text::sorted_unique(crate::text::strs(out@)),
            crate::text::strs(out@).to_set() == candidate_set(primary@, primary_is_file, ev, entries@, subject@, i as int),
        decreases entries.len() - i,
    {
        let path = &entries[i].0;
        let take = !crate::text::str_eq(path.as_str(), primary) && !is_excluded(exclude, path.as_str())
            && is_candidate_name(entries[i].1.as_str(), subject);
        if take {
            crate::selection::insert_heading(&mut out, path);
        }
        i = i + 1;
    }
    out
}


/// What a response must be to sign a record: readable, a response for the
/// act, and, when the record binds a digest, mentioning that digest without
/// its `sha256:` prefix; the verdict then names it, alone or in the batch
/// that covers it.
pub open spec fn signs_as(act: Act, bound: Option<Seq<char>>, c: Candidate, bs: Seq<BatchRecord>, response: Seq<char>) -> bool {
    &&& c.text matches Ok(text)
    &&& contains(text@, act.spec_response_schema())
    &&& (bound matches Some(want) ==> contains(text@, strip_all_prefix(want, "sha256:"@)))
    &&& (response == c.relative@ || exists|j: int| 0 <= j < bs.len()
        && response == c.relative@ + " (in batch "@ + (#[trigger] bs[j]).batch_id@ + ")"@)
}

proof fn lemma_cover_names_a_batch(
    principal: Seq<char>,
    actor: Seq<char>,
    relative: Seq<char>,
    name: Seq<char>,
    digest: Seq<char>,
    bs: Seq<BatchRecord>,
    failed: Option<(int, Seq<char>, Seq<char>)>,
)
    requires
        failed is None || failed->Some_0.0 != 0,
        cover_scan(principal, actor, relative, name, digest, bs, failed) matches Some(v) && v.0 == 0,
    ensures
        cover_scan(principal, actor, relative, name, digest, bs, failed) matches Some(v)
            && exists|j: int| 0 <= j < bs.len() && v.2 == relative + " (in batch "@ + (#[trigger] bs[j]).batch_id@ + ")"@,
    decreases bs.len(),
{
    if bs.len() > 0 {
        let b = bs[0];
        let rest = bs.drop_first();
        if b.signer@ != actor || !lists(b, name, digest) || !b.sig_present {
            lemma_cover_names_a_batch(principal, actor, relative, name, digest, rest, failed);
            let v = cover_scan(principal, actor, relative, name, digest, rest, failed)->Some_0;
            let j = choose|j: int| 0 <= j < rest.len() && v.2 == relative + " (in batch "@ + (#[trigger] rest[j]).batch_id@ + ")"@;
            assert(bs[j + 1] == rest[j]);
        } else {
            match b.signature {
                Err(SshFailure::Rejected(w)) => {
                    lemma_cover_names_a_batch(principal, actor, relative, name, digest, rest, Some((2, w@, seq![])));
                    let v = cover_scan(principal, actor, relative, name, digest, rest, Some((2, w@, seq![])))->Some_0;
                    let j = choose|j: int| 0 <= j < rest.len() && v.2 == relative + " (in batch "@ + (#[trigger] rest[j]).batch_id@ + ")"@;
                    assert(bs[j + 1] == rest[j]);
                },
                _ => {
                    assert(bs[0] == b);
                },
            }
        }
    }
}

proof fn lemma_scan_signs_as(
    act: Act,
    bound: Option<Seq<char>>,
    principal: Seq<char>,
    subject: Seq<char>,
    actor: Seq<char>,
    count: nat,
    bs: Seq<BatchRecord>,
    cs: Seq<Candidate>,
    strongest: Option<(int, Seq<char>, Seq<char>)>,
)
    requires
        strongest is None || strongest->Some_0.0 != 0,
    ensures
        scan(act, bound, principal, subject, actor, count, bs, cs, strongest).0 == 0 ==> exists|k: int|
            0 <= k < cs.len() && signs_as(act, bound, #[trigger] cs[k], bs,
                scan(act, bound, principal, subject, actor, count, bs, cs, strongest).2),
    decreases cs.len(),
{
    if cs.len() > 0 {
        let c = cs[0];
        let rest = cs.drop_first();
        let v = scan(act, bound, principal, subject, actor, count, bs, cs, strongest);
        match c.text {
            Err(e) => {
                let s2 = Some((4, c.relative@ + " could not be read: "@ + e@, seq![]));
                lemma_scan_signs_as(act, bound, principal, subject, actor, count, bs, rest, s2);
                if v.0 == 0 {
                    let k = choose|k: int| 0 <= k < rest.len() && signs_as(act, bound, #[trigger] rest[k], bs, v.2);
                    assert(cs[k + 1] == rest[k]);
                }
            },
            Ok(text) => {
                let x = examined(act, bound, text@, c.is_primary, c.relative@);
                if x.0 == 2 || x.0 == 0 {
                    lemma_scan_signs_as(act, bound, principal, subject, actor, count, bs, rest, strongest);
                    if v.0 == 0 {
                        let k = choose|k: int| 0 <= k < rest.len() && signs_as(act, bound, #[trigger] rest[k], bs, v.2);
                        assert(cs[k + 1] == rest[k]);
                    }
                } else if x.0 == 1 {
                    lemma_scan_signs_as(act, bound, principal, subject, actor, count, bs, rest, Some((2, x.1, seq![])));
                    if v.0 == 0 {
                        let k = choose|k: int| 0 <= k < rest.len() && signs_as(act, bound, #[trigger] rest[k], bs, v.2);
                        assert(cs[k + 1] == rest[k]);
                    }
                } else if !c.sidecar {
                    match spec_batch_covering(principal, actor, c, bs) {
                        Some(w) => {
                            if w.0 == 0 {
                                match c.digest {
                                    Some(d) => {
                                        lemma_cover_names_a_batch(principal, actor, c.relative@, c.name@, d@, bs, None);
                                    },
                                    None => {},
                                }
                                assert(signs_as(act, bound, cs[0], bs, v.2));
                            } else if w.0 != 4 {
                                lemma_scan_signs_as(act, bound, principal, subject, actor, count, bs, rest, Some(w));
                                if v.0 == 0 {
                                    let k = choose|k: int| 0 <= k < rest.len() && signs_as(act, bound, #[trigger] rest[k], bs, v.2);
                                    assert(cs[k + 1] == rest[k]);
                                }
                            }
                        },
                        None => {
                            let s2 = Some((1, spec_unsigned_sidecar_why(c.relative@), seq![]));
                            lemma_scan_signs_as(act, bound, principal, subject, actor, count, bs, rest, s2);
                            if v.0 == 0 {
                                let k = choose|k: int| 0 <= k < rest.len() && signs_as(act, bound, #[trigger] rest[k], bs, v.2);
                                assert(cs[k + 1] == rest[k]);
                            }
                        },
                    }
                } else {
                    match c.signature {
                        Ok(()) => {
                            assert(signs_as(act, bound, cs[0], bs, v.2));
                        },
                        Err(SshFailure::Unavailable(w)) => {},
                        Err(SshFailure::Rejected(w)) => {
                            lemma_scan_signs_as(act, bound, principal, subject, actor, count, bs, rest, Some((2, w@, seq![])));
                            if v.0 == 0 {
                                let k = choose|k: int| 0 <= k < rest.len() && signs_as(act, bound, #[trigger] rest[k], bs, v.2);
                                assert(cs[k + 1] == rest[k]);
                            }
                        },
                    }
                }
            },
        }
    }
}

/// A record is found signed only through one of its candidate responses
/// that could be read, is a response for this act and, when the record
/// binds a digest, mentions that digest without its `sha256:` prefix; the
/// verdict names that response's path, alone or in the batch that covers
/// it. A response over other bytes (a retired sibling) never signs the
/// record.
pub proof fn lemma_signed_response_mentions_the_bound_digest(
    act: Act,
    subject: Seq<char>,
    actor: Seq<char>,
    bound: Option<Seq<char>>,
    register: Result<AuthorityRegister, String>,
    bs: Seq<BatchRecord>,
    cs: Seq<Candidate>,
)
    requires
        spec_verify(act, subject, actor, bound, register, bs, cs).0 == 0,
    ensures
        exists|k: int| 0 <= k < cs.len() && {
            let c = #[trigger] cs[k];
            let response = spec_verify(act, subject, actor, bound, register, bs, cs).2;
            &&& c.text matches Ok(text)
            &&& contains(text@, act.spec_response_schema())
            &&& (bound matches Some(want) ==> contains(text@, strip_all_prefix(want, "sha256:"@)))
            &&& (response == c.relative@ || exists|j: int| 0 <= j < bs.len()
                && response == c.relative@ + " (in batch "@ + (#[trigger] bs[j]).batch_id@ + ")"@)
        },
{
    match register {
        Ok(reg) => match reg.spec_actor(actor) {
            Some(a) => match a.ssh_principal {
                Some(p) => {
                    lemma_scan_signs_as(act, bound, p@, subject, actor, cs.len(), bs, cs, None);
                    let k = choose|k: int| 0 <= k < cs.len() && signs_as(act, bound, #[trigger] cs[k], bs,
                        spec_verify(act, subject, actor, bound, register, bs, cs).2);
                    assert(signs_as(act, bound, cs[k], bs, spec_verify(act, subject, actor, bound, register, bs, cs).2));
                },
                None => {},
            },
            None => {},
        },
        Err(_) => {},
    }
}

} // verus!
