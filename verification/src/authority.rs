//! The role register: who may act, in which role, and as which signing
//! principal. Authority comes from a record a human wrote, never from a name
//! a response supplies about itself.

use vstd::prelude::*;

verus! {

/// Whether an actor is a person or an agent.
#[derive(Debug, Clone, Copy, PartialEq, Eq, Structural)]
pub enum ActorKind {
    Human,
    Agent,
}

impl ActorKind {
    pub open spec fn spec_word(self) -> Seq<char> {
        match self {
            ActorKind::Human => "human"@,
            ActorKind::Agent => "agent"@,
        }
    }

    /// The register's spelling of the kind.
    pub fn word(self) -> (r: &'static str)
        ensures
            r@ == self.spec_word(),
    {
        match self {
            ActorKind::Human => "human",
            ActorKind::Agent => "agent",
        }
    }
}

/// The roles an assignment can grant.
#[derive(Debug, Clone, Copy, PartialEq, Eq, Structural)]
pub enum ActorRole {
    Performer,
    Authorizer,
    Judge,
    Resolver,
    RiskAcceptor,
    Verifier,
}

/// One actor's entry in `docs/authority/roles.toml`.
#[derive(Debug, Clone, PartialEq, Eq)]
pub struct RoleAssignment {
    pub actor: String,
    pub actor_kind: ActorKind,
    pub roles: Vec<ActorRole>,
    /// The ssh principal a signature by this actor verifies as.
    pub ssh_principal: Option<String>,
}

/// The committed register of role assignments.
#[derive(Debug, Clone, PartialEq, Eq)]
pub struct AuthorityRegister {
    pub assignments: Vec<RoleAssignment>,
}

/// The index of the first assignment for `actor`.
pub open spec fn first_assignment(asg: Seq<RoleAssignment>, actor: Seq<char>) -> Option<int>
    decreases asg.len(),
{
    if asg.len() == 0 {
        None
    } else if asg[0].actor@ == actor {
        Some(0)
    } else {
        match first_assignment(asg.drop_first(), actor) {
            Some(i) => Some(i + 1),
            None => None,
        }
    }
}

pub proof fn lemma_first_assignment(asg: Seq<RoleAssignment>, actor: Seq<char>)
    ensures
        first_assignment(asg, actor) matches Some(i) ==> 0 <= i < asg.len() && asg[i].actor@
            == actor && forall|j: int| 0 <= j < i ==> asg[j].actor@ != actor,
        first_assignment(asg, actor) is None ==> forall|j: int|
            0 <= j < asg.len() ==> asg[j].actor@ != actor,
    decreases asg.len(),
{
    if asg.len() > 0 && asg[0].actor@ != actor {
        lemma_first_assignment(asg.drop_first(), actor);
        assert forall|j: int| 0 < j < asg.len() implies asg[j] == asg.drop_first()[j - 1] by {}
    }
}

impl RoleAssignment {
    pub open spec fn has_role(self, role: ActorRole) -> bool {
        self.roles@.contains(role)
    }

    /// Whether this assignment grants `role`.
    pub fn holds(&self, role: ActorRole) -> (r: bool)
        ensures
            r == self.has_role(role),
    {
        let mut i: usize = 0;
        while i < self.roles.len()
            invariant
                i <= self.roles.len(),
                forall|j: int| 0 <= j < i ==> self.roles@[j] != role,
            decreases self.roles.len() - i,
        {
            if self.roles[i] == role {
                return true;
            }
            i = i + 1;
        }
        false
    }
}

impl AuthorityRegister {
    pub open spec fn spec_actor(self, actor: Seq<char>) -> Option<RoleAssignment> {
        match first_assignment(self.assignments@, actor) {
            Some(i) => Some(self.assignments@[i]),
            None => None,
        }
    }

    /// The first assignment naming `actor`.
    pub fn actor(&self, actor: &str) -> (r: Option<&RoleAssignment>)
        ensures
            r matches Some(a) ==> self.spec_actor(actor@) == Some(*a),
            r is None ==> self.spec_actor(actor@) is None,
    {
        proof {
            lemma_first_assignment(self.assignments@, actor@);
        }
        let mut i: usize = 0;
        while i < self.assignments.len()
            invariant
                i <= self.assignments.len(),
                forall|j: int| 0 <= j < i ==> self.assignments@[j].actor@ != actor@,
                first_assignment(self.assignments@, actor@) matches Some(k) ==> i <= k,
            decreases self.assignments.len() - i,
        {
            proof {
                lemma_first_assignment(self.assignments@, actor@);
            }
            if crate::text::str_eq(self.assignments[i].actor.as_str(), actor) {
                return Some(&self.assignments[i]);
            }
            i = i + 1;
        }
        None
    }
}

} // verus!
