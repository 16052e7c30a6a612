use extrem::hysteresis::{DrsError, DrsHysteresis, LodError, LodLevels, LodSignal, Pressure, ScaleStep};

#[test]
fn promotion_requires_hysteresis_and_moves_one_level() {
    let mut selector = LodLevels::new(4, 3, 2).unwrap();
    for _ in 0..2 {
        assert!(!selector.step(LodSignal::Promote).changed);
    }
    let decision = selector.step(LodSignal::Promote);
    assert_eq!(decision.next_level, 1);
    assert_eq!(decision.previous_level, 2);
    assert!(decision.changed);
}

#[test]
fn invisible_objects_demote_after_hysteresis() {
    let mut selector = LodLevels::new(4, 3, 1).unwrap();
    for _ in 0..3 {
        selector.step(LodSignal::Demote);
    }
    assert_eq!(selector.level(), 2);
}

#[test]
fn neutral_band_resets_streaks() {
    let mut selector = LodLevels::new(4, 3, 2).unwrap();
    selector.step(LodSignal::Promote);
    selector.step(LodSignal::Neutral);
    selector.step(LodSignal::Promote);
    selector.step(LodSignal::Promote);
    assert_eq!(selector.level(), 2);
}

#[test]
fn levels_remain_bounded() {
    let mut finest = LodLevels::new(4, 1, 0).unwrap();
    finest.step(LodSignal::Promote);
    assert_eq!(finest.level(), 0);
    let mut coarsest = LodLevels::new(4, 1, 4).unwrap();
    coarsest.step(LodSignal::Demote);
    assert_eq!(coarsest.level(), 4);
}

#[test]
fn invalid_level_configuration_is_rejected() {
    assert!(matches!(LodLevels::new(4, 0, 1), Err(LodError::InvalidConfig)));
    assert!(matches!(LodLevels::new(4, 3, 5), Err(LodError::InvalidConfig)));
}

#[test]
fn requires_hysteresis_before_lowering_scale() {
    let mut controller = DrsHysteresis::new(3, 6).unwrap();
    assert_eq!(controller.step(Pressure::Over), ScaleStep::Hold);
    assert_eq!(controller.step(Pressure::Over), ScaleStep::Hold);
    assert_eq!(controller.step(Pressure::Over), ScaleStep::Lower);
}

#[test]
fn cooldown_prevents_immediate_repeated_changes() {
    let mut controller = DrsHysteresis::new(3, 6).unwrap();
    for _ in 0..3 {
        controller.step(Pressure::Over);
    }
    for _ in 0..6 {
        assert_eq!(controller.step(Pressure::Over), ScaleStep::Hold);
    }
    for _ in 0..2 {
        assert_eq!(controller.step(Pressure::Under), ScaleStep::Hold);
    }
    assert_eq!(controller.step(Pressure::Under), ScaleStep::Raise);
}

#[test]
fn invalid_hysteresis_config_is_rejected() {
    assert!(matches!(DrsHysteresis::new(0, 6), Err(DrsError::InvalidConfig)));
}
