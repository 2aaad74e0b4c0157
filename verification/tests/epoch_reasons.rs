use feroha::regression::EpochEndReason;

#[test]
fn epoch_end_reason_names_are_snake_case() {
    assert_eq!(EpochEndReason::DreamCoverageReached.as_str(), "dream_coverage_reached");
    assert_eq!(EpochEndReason::NoveltyPlateau.as_str(), "novelty_plateau");
    assert_eq!(EpochEndReason::HumanInterrupted.as_str(), "human_interrupted");
}
