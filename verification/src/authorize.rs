//! `war authorize`: the authorization seam.
//!
//! The request half puts a Warrant's exact contract digest to a human; the
//! ingest half checks what came back. Nothing here fills in an authorizer:
//! a response is admitted only when its envelope names this Warrant and the
//! current digest, and the register shows its authorizer may sign it. A
//! refused response writes nothing.

use vstd::prelude::*;

use crate::authority::{ActorKind, ActorRole, AuthorityRegister, RoleAssignment};
use crate::text::{chars_of, debug_quoted, debug_str, push_str, str_eq, string_of};

verus! {

pub const REQUEST_SCHEMA: &'static str = "oh.war/authorization-request/v1";

pub const RESPONSE_SCHEMA: &'static str = "oh.war/authorization-response/v1";

pub const AUTHORIZATION_SCHEMA: &'static str = "oh.war/authorization/v1";

pub const JUDGMENTS_SCHEMA: &'static str = "oh.war/judgments/v1";

/// What is put to the authorizer. It carries no recommendation and no
/// suggested meaning: the meaning is the authorizer's to state.
#[derive(Debug, Clone, PartialEq, Eq)]
pub struct AuthorizationRequest {
    pub schema: String,
    pub warrant: String,
    pub title: String,
    pub assurance_level: String,
    /// The exact revision being put forward.
    pub contract_digest: String,
    /// Which elements of the contract that digest covers.
    pub contract_coverage: Vec<String>,
    /// Who proposed it, echoed so that self-authorization can be detected.
    pub proposer: String,
    pub obligations: Vec<RequestedObligation>,
    /// Assumptions carrying an accepted residual risk; each needs a judgment.
    pub residual_risks: Vec<RequestedResidualRisk>,
    /// Actors the register says may authorize this. Informational only.
    pub eligible_authorizers: Vec<String>,
}

#[derive(Debug, Clone, PartialEq, Eq)]
pub struct RequestedObligation {
    pub id: String,
    pub statement: String,
}

#[derive(Debug, Clone, PartialEq, Eq)]
pub struct RequestedResidualRisk {
    pub assumption_id: String,
    pub statement: String,
    /// A residual risk with no stated consequence is not one anyone can weigh.
    pub consequence_if_false: String,
    /// The judgment the assumption points at, empty when it points at none.
    pub judgment_ref: String,
}

/// The envelope of what the authorizer returns: the fields the admission
/// decision reads.
#[derive(Debug, Clone, PartialEq, Eq)]
pub struct AuthorizationResponse {
    pub schema: String,
    pub warrant: String,
    /// Must equal the request's digest.
    pub contract_digest: String,
    pub authorizer: String,
    /// The role actually exercised.
    pub acting_role: String,
    /// What authorizing meant here.
    pub meaning: String,
    pub effective_time: String,
    pub policy_basis: Option<String>,
    /// Judgments made at the same moment.
    pub judgment: Vec<Judgment>,
}

/// A judgment as the admission decision reads it: who made it, and of what kind.
#[derive(Debug, Clone, PartialEq, Eq)]
pub struct Judgment {
    pub id: String,
    pub kind: String,
    pub statement: String,
    pub actor: String,
    pub acting_role: String,
    pub meaning: String,
}

/// A declared assumption, as far as the request reads it.
#[derive(Debug, Clone, PartialEq, Eq)]
pub struct Assumption {
    pub id: String,
    pub statement: String,
    pub consequence_if_false: String,
    pub judgment_ref: String,
    /// Whether its epistemic status is an accepted residual risk.
    pub accepted_residual_risk: bool,
}

/// Why a response was refused before anything was written.
#[derive(Debug, Clone, PartialEq, Eq)]
pub enum Refusal {
    UnknownSchema { found: String },
    WrongWarrant { named: String, ingesting: String },
    /// The signature is against a contract revision that is no longer the one
    /// on disk.
    StaleDigest { signed: String, current: String },
    /// The named authorizer holds no role assignment at all.
    UnknownActor { actor: String },
    /// The register refused the act: an agent, self-authorization, or a role
    /// the actor does not hold.
    NotPermitted { detail: String },
}

// ---------------------------------------------------------------------------
// What the register permits
// ---------------------------------------------------------------------------

pub open spec fn agent_may_not_authorize(actor: Seq<char>) -> Seq<char> {
    debug_str(actor) + " is an agent; an agent shall not authorize a Warrant"@
}

pub open spec fn may_not_self_authorize(actor: Seq<char>) -> Seq<char> {
    debug_str(actor) + " proposed this Warrant and may not also authorize it"@
}

pub open spec fn not_an_authorizer(actor: Seq<char>) -> Seq<char> {
    debug_str(actor) + " does not hold the authorizer role"@
}

/// Whether an assignment may authorize a Warrant its `proposer` proposed:
/// agents never, the proposer never, and otherwise only an authorizer.
pub open spec fn spec_may_authorize(a: RoleAssignment, proposer: Seq<char>) -> Result<
    (),
    Seq<char>,
> {
    if a.actor_kind == ActorKind::Agent {
        Err(agent_may_not_authorize(a.actor@))
    } else if a.actor@ == proposer {
        Err(may_not_self_authorize(a.actor@))
    } else if !a.has_role(ActorRole::Authorizer) {
        Err(not_an_authorizer(a.actor@))
    } else {
        Ok(())
    }
}

pub open spec fn agent_may_not_accept_risk(actor: Seq<char>) -> Seq<char> {
    debug_str(actor) + " is an agent; an agent shall not accept a residual risk"@
}

pub open spec fn not_a_risk_acceptor(actor: Seq<char>) -> Seq<char> {
    debug_str(actor) + " does not hold the risk_acceptor role"@
}

/// Whether an assignment may accept a residual risk.
pub open spec fn spec_may_accept_residual_risk(a: RoleAssignment) -> Result<(), Seq<char>> {
    if a.actor_kind == ActorKind::Agent {
        Err(agent_may_not_accept_risk(a.actor@))
    } else if !a.has_role(ActorRole::RiskAcceptor) {
        Err(not_a_risk_acceptor(a.actor@))
    } else {
        Ok(())
    }
}

/// `a + b` as a `String`.
fn concat(a: &str, b: &str) -> (r: String)
    ensures
        r@ == a@ + b@,
{
    let mut v = chars_of(a);
    push_str(&mut v, b);
    string_of(&v)
}

/// Whether this assignment may authorize what `proposer` proposed.
pub fn may_authorize(a: &RoleAssignment, proposer: &str) -> (r: Result<(), String>)
    ensures
        match (r, spec_may_authorize(*a, proposer@)) {
            (Ok(()), Ok(())) => true,
            (Err(m), Err(n)) => m@ == n,
            _ => false,
        },
{
    let q = debug_quoted(a.actor.as_str());
    if a.actor_kind == ActorKind::Agent {
        Err(concat(q.as_str(), " is an agent; an agent shall not authorize a Warrant"))
    } else if str_eq(a.actor.as_str(), proposer) {
        Err(concat(q.as_str(), " proposed this Warrant and may not also authorize it"))
    } else if !a.holds(ActorRole::Authorizer) {
        Err(concat(q.as_str(), " does not hold the authorizer role"))
    } else {
        Ok(())
    }
}

/// Whether this assignment may accept a residual risk.
pub fn may_accept_residual_risk(a: &RoleAssignment) -> (r: Result<(), String>)
    ensures
        match (r, spec_may_accept_residual_risk(*a)) {
            (Ok(()), Ok(())) => true,
            (Err(m), Err(n)) => m@ == n,
            _ => false,
        },
{
    let q = debug_quoted(a.actor.as_str());
    if a.actor_kind == ActorKind::Agent {
        Err(concat(q.as_str(), " is an agent; an agent shall not accept a residual risk"))
    } else if !a.holds(ActorRole::RiskAcceptor) {
        Err(concat(q.as_str(), " does not hold the risk_acceptor role"))
    } else {
        Ok(())
    }
}

// ---------------------------------------------------------------------------
// The response envelope
// ---------------------------------------------------------------------------

/// Whether a refusal carries exactly what the response and the context say.
pub open spec fn refusal_matches(
    r: Refusal,
    response: AuthorizationResponse,
    ingesting: Seq<char>,
    current_digest: Seq<char>,
    proposer: Seq<char>,
    register: AuthorityRegister,
) -> bool {
    match r {
        Refusal::UnknownSchema { found } => {
            &&& response.schema@ != RESPONSE_SCHEMA@
            &&& found@ == response.schema@
        },
        Refusal::WrongWarrant { named, ingesting: i } => {
            &&& response.schema@ == RESPONSE_SCHEMA@
            &&& response.warrant@ != ingesting
            &&& named@ == response.warrant@
            &&& i@ == ingesting
        },
        Refusal::StaleDigest { signed, current } => {
            &&& response.schema@ == RESPONSE_SCHEMA@
            &&& response.warrant@ == ingesting
            &&& response.contract_digest@ != current_digest
            &&& signed@ == response.contract_digest@
            &&& current@ == current_digest
        },
        Refusal::UnknownActor { actor } => {
            &&& response.schema@ == RESPONSE_SCHEMA@
            &&& response.warrant@ == ingesting
            &&& response.contract_digest@ == current_digest
            &&& register.spec_actor(response.authorizer@) is None
            &&& actor@ == response.authorizer@
        },
        Refusal::NotPermitted { detail } => {
            &&& response.schema@ == RESPONSE_SCHEMA@
            &&& response.warrant@ == ingesting
            &&& response.contract_digest@ == current_digest
            &&& register.spec_actor(response.authorizer@) matches Some(a) && spec_may_authorize(
                a,
                proposer,
            ) == Err::<(), Seq<char>>(detail@)
        },
    }
}

/// Whether a response is admissible: the right schema, this Warrant, the
/// current digest, and an authorizer the register lets sign it.
pub open spec fn admissible(
    response: AuthorizationResponse,
    ingesting: Seq<char>,
    current_digest: Seq<char>,
    proposer: Seq<char>,
    register: AuthorityRegister,
) -> bool {
    &&& response.schema@ == RESPONSE_SCHEMA@
    &&& response.warrant@ == ingesting
    &&& response.contract_digest@ == current_digest
    &&& register.spec_actor(response.authorizer@) matches Some(a) && spec_may_authorize(
        a,
        proposer,
    ) is Ok
}

/// Check the response envelope and the authorizer's standing, writing nothing.
pub fn validate_response(
    response: &AuthorizationResponse,
    ingesting: &str,
    current_digest: &str,
    proposer: &str,
    register: &AuthorityRegister,
) -> (r: Result<(), Refusal>)
    ensures
        r is Ok <==> admissible(*response, ingesting@, current_digest@, proposer@, *register),
        r matches Err(f) ==> refusal_matches(
            f,
            *response,
            ingesting@,
            current_digest@,
            proposer@,
            *register,
        ),
{
    if !str_eq(response.schema.as_str(), RESPONSE_SCHEMA) {
        return Err(Refusal::UnknownSchema { found: string_of(&chars_of(response.schema.as_str())) });
    }
    if !str_eq(response.warrant.as_str(), ingesting) {
        return Err(
            Refusal::WrongWarrant {
                named: string_of(&chars_of(response.warrant.as_str())),
                ingesting: string_of(&chars_of(ingesting)),
            },
        );
    }
    if !str_eq(response.contract_digest.as_str(), current_digest) {
        return Err(
            Refusal::StaleDigest {
                signed: string_of(&chars_of(response.contract_digest.as_str())),
                current: string_of(&chars_of(current_digest)),
            },
        );
    }
    let assignment = match register.actor(response.authorizer.as_str()) {
        Some(a) => a,
        None => {
            return Err(
                Refusal::UnknownActor { actor: string_of(&chars_of(response.authorizer.as_str())) },
            );
        },
    };
    match may_authorize(assignment, proposer) {
        Ok(()) => Ok(()),
        Err(detail) => Err(Refusal::NotPermitted { detail }),
    }
}

impl Refusal {
    pub open spec fn spec_message(self) -> Seq<char> {
        match self {
            Refusal::UnknownSchema { found } => "unknown response schema "@ + debug_str(found@)
                + "; expected "@ + debug_str(RESPONSE_SCHEMA@),
            Refusal::WrongWarrant { named, ingesting } => "response names "@ + debug_str(named@)
                + " but is being ingested for "@ + ingesting@,
            Refusal::StaleDigest { signed, current } => "the response authorizes contract "@
                + signed@ + " but the Warrant now compiles to "@ + current@
                + ". The EXACT authorized revision is required, so this signature covers a document that no longer exists. Re-issue the request and have it signed again"@,
            Refusal::UnknownActor { actor } => debug_str(actor@)
                + " holds no role assignment in docs/authority/roles.toml, so there is no authority to exercise. Authority comes from a record a human wrote, never from a name supplied in the response itself"@,
            Refusal::NotPermitted { detail } => detail@,
        }
    }

    /// The refusal in words.
    pub fn message(&self) -> (r: String)
        ensures
            r@ == self.spec_message(),
    {
        let mut v: Vec<char> = Vec::new();
        match self {
            Refusal::UnknownSchema { found } => {
                push_str(&mut v, "unknown response schema ");
                push_str(&mut v, debug_quoted(found.as_str()).as_str());
                push_str(&mut v, "; expected ");
                push_str(&mut v, debug_quoted(RESPONSE_SCHEMA).as_str());
            },
            Refusal::WrongWarrant { named, ingesting } => {
                push_str(&mut v, "response names ");
                push_str(&mut v, debug_quoted(named.as_str()).as_str());
                push_str(&mut v, " but is being ingested for ");
                push_str(&mut v, ingesting.as_str());
            },
            Refusal::StaleDigest { signed, current } => {
                push_str(&mut v, "the response authorizes contract ");
                push_str(&mut v, signed.as_str());
                push_str(&mut v, " but the Warrant now compiles to ");
                push_str(&mut v, current.as_str());
                push_str(
                    &mut v,
                    ". The EXACT authorized revision is required, so this signature covers a document that no longer exists. Re-issue the request and have it signed again",
                );
            },
            Refusal::UnknownActor { actor } => {
                push_str(&mut v, debug_quoted(actor.as_str()).as_str());
                push_str(
                    &mut v,
                    " holds no role assignment in docs/authority/roles.toml, so there is no authority to exercise. Authority comes from a record a human wrote, never from a name supplied in the response itself",
                );
            },
            Refusal::NotPermitted { detail } => {
                push_str(&mut v, detail.as_str());
            },
        }
        string_of(&v)
    }

    pub open spec fn spec_rule(self) -> Seq<char> {
        match self {
            Refusal::UnknownSchema { .. } => "authorize.response-schema"@,
            Refusal::WrongWarrant { .. } => "authorize.response-warrant"@,
            Refusal::StaleDigest { .. } => "authorize.stale-digest"@,
            Refusal::UnknownActor { .. } => "authorize.unknown-actor"@,
            Refusal::NotPermitted { .. } => "authorize.not-permitted"@,
        }
    }

    /// The diagnostic rule a refusal is reported under.
    pub fn rule(&self) -> (r: &'static str)
        ensures
            r@ == self.spec_rule(),
    {
        match self {
            Refusal::UnknownSchema { .. } => "authorize.response-schema",
            Refusal::WrongWarrant { .. } => "authorize.response-warrant",
            Refusal::StaleDigest { .. } => "authorize.stale-digest",
            Refusal::UnknownActor { .. } => "authorize.unknown-actor",
            Refusal::NotPermitted { .. } => "authorize.not-permitted",
        }
    }
}


// ---------------------------------------------------------------------------
// Judgments made with the authorization
// ---------------------------------------------------------------------------

pub open spec fn no_assignment_for_judgment(actor: Seq<char>) -> Seq<char> {
    debug_str(actor) + " holds no role assignment, so it cannot make a judgment"@
}

pub open spec fn agent_may_only_recommend(actor: Seq<char>) -> Seq<char> {
    debug_str(actor)
        + " is an agent. An agent may recommend a judgment, not make one: record it as a recommendation. Granting the judge role would not change this"@
}

pub open spec fn not_a_judge(actor: Seq<char>) -> Seq<char> {
    debug_str(actor) + " does not hold the judge role"@
}

/// Whether the register lets a judgment's actor make it: an unknown actor
/// never, an agent never (checked before any role), a residual-risk
/// acceptance only a risk acceptor, anything else only a judge.
pub open spec fn spec_judgment_permitted(j: Judgment, register: AuthorityRegister) -> Result<
    (),
    Seq<char>,
> {
    match register.spec_actor(j.actor@) {
        None => Err(no_assignment_for_judgment(j.actor@)),
        Some(a) => if a.actor_kind == ActorKind::Agent {
            Err(agent_may_only_recommend(j.actor@))
        } else if j.kind@ == "residual_risk_acceptance"@ {
            spec_may_accept_residual_risk(a)
        } else if a.has_role(ActorRole::Judge) {
            Ok(())
        } else {
            Err(not_a_judge(j.actor@))
        },
    }
}

/// Whether a judgment's actor may make it.
pub fn judgment_is_permitted(j: &Judgment, register: &AuthorityRegister) -> (r: Result<(), String>)
    ensures
        match (r, spec_judgment_permitted(*j, *register)) {
            (Ok(()), Ok(())) => true,
            (Err(m), Err(n)) => m@ == n,
            _ => false,
        },
{
    let q = debug_quoted(j.actor.as_str());
    let a = match register.actor(j.actor.as_str()) {
        Some(a) => a,
        None => {
            return Err(concat(q.as_str(), " holds no role assignment, so it cannot make a judgment"));
        },
    };
    if a.actor_kind == ActorKind::Agent {
        return Err(
            concat(
                q.as_str(),
                " is an agent. An agent may recommend a judgment, not make one: record it as a recommendation. Granting the judge role would not change this",
            ),
        );
    }
    if str_eq(j.kind.as_str(), "residual_risk_acceptance") {
        may_accept_residual_risk(a)
    } else if a.holds(ActorRole::Judge) {
        Ok(())
    } else {
        Err(concat(q.as_str(), " does not hold the judge role"))
    }
}

/// One line per judgment the register refuses, `id: why`, in order.
pub open spec fn judgment_failures_of(js: Seq<Judgment>, register: AuthorityRegister) -> Seq<
    Seq<char>,
>
    decreases js.len(),
{
    if js.len() == 0 {
        seq![]
    } else {
        let rest = judgment_failures_of(js.drop_last(), register);
        match spec_judgment_permitted(js.last(), register) {
            Ok(()) => rest,
            Err(m) => rest.push(js.last().id@ + ": "@ + m),
        }
    }
}

/// Every judgment is checked before anything is written: the failures, each
/// as `id: why`. An empty result admits them all.
pub fn judgment_failures(js: &Vec<Judgment>, register: &AuthorityRegister) -> (r: Vec<String>)
    ensures
        r@.map_values(|s: String| s@) == judgment_failures_of(js@, *register),
{
    let mut out: Vec<String> = Vec::new();
    let mut i: usize = 0;
    while i < js.len()
        invariant
            i <= js.len(),
            out@.map_values(|s: String| s@) == judgment_failures_of(js@.take(i as int), *register),
        decreases js.len() - i,
    {
        proof {
            assert(js@.take(i + 1).drop_last() =~= js@.take(i as int));
            assert(js@.take(i + 1).last() == js@[i as int]);
        }
        let ghost before = out@;
        match judgment_is_permitted(&js[i], register) {
            Ok(()) => {},
            Err(m) => {
                let mut v = chars_of(js[i].id.as_str());
                push_str(&mut v, ": ");
                push_str(&mut v, m.as_str());
                let line = string_of(&v);
                out.push(line);
                proof {
                    assert(out@.map_values(|s: String| s@) =~= before.map_values(|s: String| s@).push(
                        line@,
                    ));
                }
            },
        }
        i = i + 1;
    }
    proof {
        assert(js@.take(js.len() as int) =~= js@);
    }
    out
}

// ---------------------------------------------------------------------------
// What the request lists
// ---------------------------------------------------------------------------

/// The text fields of a residual risk.
pub open spec fn risk_view(r: RequestedResidualRisk) -> (Seq<char>, Seq<char>, Seq<char>, Seq<char>) {
    (r.assumption_id@, r.statement@, r.consequence_if_false@, r.judgment_ref@)
}

/// The residual risks among the assumptions, in order.
pub open spec fn residual_risks_of(s: Seq<Assumption>) -> Seq<
    (Seq<char>, Seq<char>, Seq<char>, Seq<char>),
>
    decreases s.len(),
{
    if s.len() == 0 {
        seq![]
    } else {
        let rest = residual_risks_of(s.drop_last());
        let a = s.last();
        if a.accepted_residual_risk {
            rest.push((a.id@, a.statement@, a.consequence_if_false@, a.judgment_ref@))
        } else {
            rest
        }
    }
}

fn copy_of(s: &String) -> (r: String)
    ensures
        r@ == s@,
{
    string_of(&chars_of(s.as_str()))
}

/// The assumptions carrying an accepted residual risk, each as the request
/// puts it to the authorizer.
pub fn residual_risks_in(assumptions: &Vec<Assumption>) -> (r: Vec<RequestedResidualRisk>)
    ensures
        r@.map_values(|x: RequestedResidualRisk| risk_view(x)) == residual_risks_of(assumptions@),
{
    let mut out: Vec<RequestedResidualRisk> = Vec::new();
    let mut i: usize = 0;
    while i < assumptions.len()
        invariant
            i <= assumptions.len(),
            out@.map_values(|x: RequestedResidualRisk| risk_view(x)) == residual_risks_of(
                assumptions@.take(i as int),
            ),
        decreases assumptions.len() - i,
    {
        proof {
            assert(assumptions@.take(i + 1).drop_last() =~= assumptions@.take(i as int));
            assert(assumptions@.take(i + 1).last() == assumptions@[i as int]);
        }
        let a = &assumptions[i];
        if a.accepted_residual_risk {
            let ghost before = out@;
            let x = RequestedResidualRisk {
                assumption_id: copy_of(&a.id),
                statement: copy_of(&a.statement),
                consequence_if_false: copy_of(&a.consequence_if_false),
                judgment_ref: copy_of(&a.judgment_ref),
            };
            out.push(x);
            proof {
                assert(out@.map_values(|x: RequestedResidualRisk| risk_view(x)) =~= before.map_values(
                    |x: RequestedResidualRisk| risk_view(x),
                ).push(risk_view(x)));
            }
        }
        i = i + 1;
    }
    proof {
        assert(assumptions@.take(assumptions.len() as int) =~= assumptions@);
    }
    out
}

/// The actors, in register order, who hold the authorizer role and whom the
/// register would let authorize what `performer` proposed.
pub open spec fn eligible_of(s: Seq<RoleAssignment>, performer: Seq<char>) -> Seq<Seq<char>>
    decreases s.len(),
{
    if s.len() == 0 {
        seq![]
    } else {
        let rest = eligible_of(s.drop_last(), performer);
        let a = s.last();
        if a.has_role(ActorRole::Authorizer) && spec_may_authorize(a, performer) is Ok {
            rest.push(a.actor@)
        } else {
            rest
        }
    }
}

/// Who the request names as eligible to authorize.
pub fn eligible_authorizers(register: &AuthorityRegister, performer: &str) -> (r: Vec<String>)
    ensures
        r@.map_values(|s: String| s@) == eligible_of(register.assignments@, performer@),
{
    let asg = &register.assignments;
    let mut out: Vec<String> = Vec::new();
    let mut i: usize = 0;
    while i < asg.len()
        invariant
            i <= asg.len(),
            asg == &register.assignments,
            out@.map_values(|s: String| s@) == eligible_of(asg@.take(i as int), performer@),
        decreases asg.len() - i,
    {
        proof {
            assert(asg@.take(i + 1).drop_last() =~= asg@.take(i as int));
            assert(asg@.take(i + 1).last() == asg@[i as int]);
        }
        let a = &asg[i];
        if a.holds(ActorRole::Authorizer) && may_authorize(a, performer).is_ok() {
            let ghost before = out@;
            let name = copy_of(&a.actor);
            out.push(name);
            proof {
                assert(out@.map_values(|s: String| s@) =~= before.map_values(|s: String| s@).push(
                    name@,
                ));
            }
        }
        i = i + 1;
    }
    proof {
        assert(asg@.take(asg.len() as int) =~= asg@);
    }
    out
}

// ---------------------------------------------------------------------------
// The revision an admitted signature writes
// ---------------------------------------------------------------------------

/// Where a contract revision stands.
#[derive(Debug, Clone, Copy, PartialEq, Eq, Structural)]
pub enum RevisionState {
    Draft,
    Proposed,
    Authorized,
}

/// A contract revision as the authorization record carries it.
#[derive(Debug, Clone, PartialEq, Eq)]
pub struct ContractRevision {
    pub revision: u64,
    pub contract_digest: String,
    pub state: RevisionState,
    /// Who authorized it, once it is authorized.
    pub authorizer: Option<String>,
}

/// The persisted authorization record.
#[derive(Debug, Clone, PartialEq, Eq)]
pub struct AuthorizationRecord {
    pub schema: String,
    pub warrant: String,
    pub revision: ContractRevision,
    /// The SAS revision the authorized contract was compiled against.
    pub sas_revision: Option<String>,
}

/// Whether a persisted authorization covers the contract as it stands now:
/// it is authorized, by someone, and at the current digest.
pub fn authorizes_current_contract(record: &AuthorizationRecord, current_digest: &str) -> (r: bool)
    ensures
        r == (record.revision.state == RevisionState::Authorized
            && record.revision.contract_digest@ == current_digest@
            && record.revision.authorizer is Some),
{
    record.revision.state == RevisionState::Authorized && str_eq(
        record.revision.contract_digest.as_str(),
        current_digest,
    ) && record.revision.authorizer.is_some()
}

/// What an admitted signature does to the Warrant's revisions.
#[derive(Debug, Clone, Copy, PartialEq, Eq, Structural)]
pub enum RevisionStep {
    /// No revision was authorized before: this is revision 1.
    First,
    /// The same digest is already authorized; an authorized revision is
    /// immutable, so nothing is added.
    AlreadyAuthorized { revision: u64 },
    /// The contract moved, but the amendment records a later revision needs
    /// are not all there.
    NeedsAmendment { revision: u64, needed: u64, found: u64 },
    /// The contract moved and is amended: this is the next revision.
    Amend { revision: u64 },
}

/// Revision N+1 needs N amendment records; re-signing the authorized digest
/// is refused.
pub open spec fn spec_revision_step(
    previous: Option<(u64, Seq<char>)>,
    current_digest: Seq<char>,
    amendments: u64,
) -> RevisionStep {
    match previous {
        None => RevisionStep::First,
        Some((n, d)) => if d == current_digest {
            RevisionStep::AlreadyAuthorized { revision: n }
        } else if amendments < n {
            RevisionStep::NeedsAmendment { revision: n, needed: n, found: amendments }
        } else {
            RevisionStep::Amend { revision: (n + 1) as u64 }
        },
    }
}

/// The step an admitted signature takes, given the revision authorized
/// before (if any) and how many amendment records exist.
pub fn revision_step(previous: &Option<ContractRevision>, current_digest: &str, amendments: u64) -> (r:
    RevisionStep)
    requires
        previous matches Some(p) ==> p.revision < u64::MAX,
    ensures
        r == spec_revision_step(
            match previous {
                Some(p) => Some((p.revision, p.contract_digest@)),
                None => None,
            },
            current_digest@,
            amendments,
        ),
{
    match previous {
        None => RevisionStep::First,
        Some(p) => {
            if str_eq(p.contract_digest.as_str(), current_digest) {
                RevisionStep::AlreadyAuthorized { revision: p.revision }
            } else if amendments < p.revision {
                RevisionStep::NeedsAmendment { revision: p.revision, needed: p.revision, found: amendments }
            } else {
                RevisionStep::Amend { revision: p.revision + 1 }
            }
        },
    }
}


// ---------------------------------------------------------------------------
// Laws
// ---------------------------------------------------------------------------

/// An agent is never admitted as authorizer, whatever roles the register
/// grants it and whatever the response claims.
pub proof fn lemma_agent_never_authorizes(
    response: AuthorizationResponse,
    ingesting: Seq<char>,
    current_digest: Seq<char>,
    proposer: Seq<char>,
    register: AuthorityRegister,
)
    requires
        register.spec_actor(response.authorizer@) matches Some(a) && a.actor_kind
            == ActorKind::Agent,
    ensures
        !admissible(response, ingesting, current_digest, proposer, register),
{
}

/// Whoever proposed a Warrant cannot also authorize it.
pub proof fn lemma_proposer_never_authorizes(
    response: AuthorizationResponse,
    ingesting: Seq<char>,
    current_digest: Seq<char>,
    register: AuthorityRegister,
)
    ensures
        !admissible(response, ingesting, current_digest, response.authorizer@, register),
{
    crate::authority::lemma_first_assignment(register.assignments@, response.authorizer@);
}

/// A signature binds the exact digest: one over any other digest than the
/// current one is never admitted.
pub proof fn lemma_stale_digest_never_admitted(
    response: AuthorizationResponse,
    ingesting: Seq<char>,
    current_digest: Seq<char>,
    proposer: Seq<char>,
    register: AuthorityRegister,
)
    requires
        response.contract_digest@ != current_digest,
    ensures
        !admissible(response, ingesting, current_digest, proposer, register),
{
}

/// An agent's judgment is never recorded as made, whatever roles it holds.
pub proof fn lemma_agent_judgment_refused(j: Judgment, register: AuthorityRegister)
    requires
        register.spec_actor(j.actor@) matches Some(a) && a.actor_kind == ActorKind::Agent,
    ensures
        spec_judgment_permitted(j, register) is Err,
{
}

/// An authorization stops covering the contract once the contract moves.
pub proof fn lemma_moved_contract_not_covered(record: AuthorizationRecord, current_digest: Seq<char>)
    requires
        record.revision.contract_digest@ != current_digest,
    ensures
        !(record.revision.state == RevisionState::Authorized && record.revision.contract_digest@
            == current_digest && record.revision.authorizer is Some),
{
}

/// Every actor the request lists as eligible is one whose signature, on a
/// response otherwise in order, is admitted, when the register names each
/// actor once.
pub proof fn lemma_listed_authorizers_are_admitted(
    register: AuthorityRegister,
    performer: Seq<char>,
    response: AuthorizationResponse,
    ingesting: Seq<char>,
    current_digest: Seq<char>,
)
    requires
        forall|i: int, j: int|
            0 <= i < j < register.assignments@.len() ==> register.assignments@[i].actor@
                != register.assignments@[j].actor@,
        eligible_of(register.assignments@, performer).contains(response.authorizer@),
        response.schema@ == RESPONSE_SCHEMA@,
        response.warrant@ == ingesting,
        response.contract_digest@ == current_digest,
    ensures
        admissible(response, ingesting, current_digest, performer, register),
{
    let s = register.assignments@;
    let k = lemma_eligible_member(s, performer, response.authorizer@);
    crate::authority::lemma_first_assignment(s, response.authorizer@);
    match crate::authority::first_assignment(s, response.authorizer@) {
        Some(i) => {
            if i != k {
                if i < k {
                    assert(s[i].actor@ != s[k].actor@);
                } else {
                    assert(s[k].actor@ != s[i].actor@);
                }
            }
        },
        None => {
            assert(s[k].actor@ == response.authorizer@);
        },
    }
}

proof fn lemma_eligible_member(s: Seq<RoleAssignment>, performer: Seq<char>, x: Seq<char>) -> (k:
    int)
    requires
        eligible_of(s, performer).contains(x),
    ensures
        0 <= k < s.len(),
        s[k].actor@ == x,
        s[k].has_role(ActorRole::Authorizer),
        spec_may_authorize(s[k], performer) is Ok,
    decreases s.len(),
{
    let rest = eligible_of(s.drop_last(), performer);
    let a = s.last();
    if a.has_role(ActorRole::Authorizer) && spec_may_authorize(a, performer) is Ok && a.actor@
        == x {
        (s.len() - 1) as int
    } else {
        if a.has_role(ActorRole::Authorizer) && spec_may_authorize(a, performer) is Ok {
            let j = choose|j: int| 0 <= j < rest.push(a.actor@).len() && rest.push(a.actor@)[j] == x;
            assert(j < rest.len());
            assert(rest[j] == x);
        }
        assert(rest.contains(x));
        let k = lemma_eligible_member(s.drop_last(), performer, x);
        assert(s[k] == s.drop_last()[k]);
        k
    }
}

} // verus!
