//! Agent-assisted planning protocol: what an agent may return from a
//! planning turn. An agent never mutates repository files directly.

use vstd::prelude::*;

verus! {

/// What an agent is permitted to return from a planning turn: data, never an
/// action, so no variant carries a path to be written.
#[derive(Debug, Clone, Copy, PartialEq, Eq, Structural)]
#[non_exhaustive]
pub enum ProposalKind {
    /// Create a new authored atom in a role.
    CreateAtom,
    /// Replace the body of an existing authored atom.
    ReplaceAtom,
    /// Raise a question for the human rather than guessing.
    Question,
    /// Flag that a normative decision was detected and needs an ADR.
    DecisionDetected,
}

impl ProposalKind {
    /// Whether this variant describes only an intent, carrying no write target.
    /// Every variant does; the match is exhaustive on purpose.
    pub fn describes_only_intent(self) -> (r: bool)
        ensures
            r,
    {
        match self {
            ProposalKind::CreateAtom | ProposalKind::ReplaceAtom | ProposalKind::Question
            | ProposalKind::DecisionDetected => true,
        }
    }
}

} // verus!
