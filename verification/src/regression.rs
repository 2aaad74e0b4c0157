//! Reasons for which a research epoch ends.

use vstd::prelude::*;

verus! {

/// Why an epoch of agent work was closed.
#[derive(Debug, Clone, Copy, PartialEq, Eq, Structural)]
pub enum EpochEndReason {
    NoveltyPlateau,
    EvidencePlateau,
    DreamCoverageReached,
    ContradictionRiskHigh,
    ToolLoop,
    BudgetExhausted,
    HumanInterrupted,
}

/// The snake_case wire name of a reason.
pub open spec fn epoch_end_reason_name(r: EpochEndReason) -> Seq<char> {
    match r {
        EpochEndReason::NoveltyPlateau => "novelty_plateau"@,
        EpochEndReason::EvidencePlateau => "evidence_plateau"@,
        EpochEndReason::DreamCoverageReached => "dream_coverage_reached"@,
        EpochEndReason::ContradictionRiskHigh => "contradiction_risk_high"@,
        EpochEndReason::ToolLoop => "tool_loop"@,
        EpochEndReason::BudgetExhausted => "budget_exhausted"@,
        EpochEndReason::HumanInterrupted => "human_interrupted"@,
    }
}

impl EpochEndReason {
    pub fn as_str(&self) -> (res: &'static str)
        ensures
            res@ == epoch_end_reason_name(*self),
    {
        match self {
            EpochEndReason::NoveltyPlateau => "novelty_plateau",
            EpochEndReason::EvidencePlateau => "evidence_plateau",
            EpochEndReason::DreamCoverageReached => "dream_coverage_reached",
            EpochEndReason::ContradictionRiskHigh => "contradiction_risk_high",
            EpochEndReason::ToolLoop => "tool_loop",
            EpochEndReason::BudgetExhausted => "budget_exhausted",
            EpochEndReason::HumanInterrupted => "human_interrupted",
        }
    }
}

} // verus!
