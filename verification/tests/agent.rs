use openwarrant::agent::ProposalKind;

#[test]
fn no_proposal_kind_names_a_write_target() {
    for kind in [
        ProposalKind::CreateAtom,
        ProposalKind::ReplaceAtom,
        ProposalKind::Question,
        ProposalKind::DecisionDetected,
    ] {
        assert!(
            kind.describes_only_intent(),
            "{kind:?} carries a write target; §74.5 forbids direct model mutation"
        );
    }
}
