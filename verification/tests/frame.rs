use extrem::frame::{FrameBudget, FrameError};
use std::time::Duration;

#[test]
fn sixty_hz_budget_is_about_sixteen_point_six_ms() {
    let budget = FrameBudget::from_millihz(60_000).unwrap();
    assert_eq!(budget.target_hz_millihz(), 60_000);
    assert_eq!(budget.duration(), Duration::from_nanos(16_666_666));
    assert_eq!(budget.budget_nanos(), 16_666_666);
}

#[test]
fn rejects_invalid_rates() {
    assert_eq!(FrameBudget::from_millihz(0), Err(FrameError::InvalidTargetHz));
    assert_eq!(FrameError::InvalidTargetHz.message(), "target_hz must be finite and > 0");
}

#[test]
fn slowest_rate_has_the_longest_budget() {
    let budget = FrameBudget::from_millihz(1).unwrap();
    assert_eq!(budget.budget_nanos(), 1_000_000_000_000);
    assert_eq!(budget.duration(), Duration::from_secs(1000));
    let fastest = FrameBudget::from_millihz(u64::MAX).unwrap();
    assert_eq!(fastest.budget_nanos(), 0);
}
