use extrem::adaptive::{
    all_hold,
    validate_step_range, AdaptiveQualityConfigError, AdaptiveQualityDecision, FixedStepBudgetActuator,
    AdaptiveQualityOutcome, AdmissionStep, FixedStepPolicy, FixedStepRequest, FrameLoad, GuardTruth,
};

fn policy() -> FixedStepPolicy {
    FixedStepPolicy::new(3, 2, 4).unwrap()
}

fn load(seconds: Option<f64>) -> FrameLoad {
    match seconds.filter(|value| value.is_finite() && *value > 0.0) {
        None => FrameLoad::Missing,
        Some(value) if value > 0.030 => FrameLoad::AboveDegrade,
        Some(value) if value < 0.015 => FrameLoad::BelowRecover,
        Some(_) => FrameLoad::WithinBand,
    }
}

fn perform<A: FixedStepBudgetActuator>(actuator: &mut A, request: FixedStepRequest) -> bool {
    match request {
        FixedStepRequest::Validate(budget) => actuator.validate_fixed_step_budget(budget),
        FixedStepRequest::Apply(budget) => {
            actuator.apply_fixed_step_budget(budget);
            true
        }
        FixedStepRequest::Verify(budget) => actuator.verify_fixed_step_budget(budget),
        FixedStepRequest::Rollback(budget) => {
            actuator.rollback_fixed_step_budget(budget);
            true
        }
    }
}

fn run<A: FixedStepBudgetActuator>(policy: &mut FixedStepPolicy, actuator: &mut A, first: AdmissionStep) -> AdaptiveQualityOutcome {
    let mut step = first;
    loop {
        match step {
            AdmissionStep::Done(outcome) => return outcome,
            AdmissionStep::Ask(admission, request) => {
                let answer = perform(actuator, request);
                step = policy.advance(admission, answer);
            }
        }
    }
}

fn apply<A: FixedStepBudgetActuator>(
    policy: &mut FixedStepPolicy,
    actuator: &mut A,
    frame: u64,
    seconds: Option<f64>,
) -> AdaptiveQualityOutcome {
    if policy.fault_latched() {
        return AdaptiveQualityOutcome::FaultLatched;
    }
    let plan = policy.plan(actuator, frame, load(seconds));
    let guard = all_hold(plan.metric, plan.cooldown);
    let first = policy.begin_admission(frame, plan.current, plan.decision, guard);
    run(policy, actuator, first)
}

struct Budget {
    current: u32,
}

impl FixedStepBudgetActuator for Budget {
    fn current_fixed_step_budget(&self) -> u32 {
        self.current
    }
    fn validate_fixed_step_budget(&self, target: u32) -> bool {
        target >= 1
    }
    fn apply_fixed_step_budget(&mut self, target: u32) {
        self.current = target;
    }
    fn verify_fixed_step_budget(&self, target: u32) -> bool {
        self.current == target
    }
    fn rollback_fixed_step_budget(&mut self, previous: u32) {
        self.current = previous;
    }
}

#[derive(Debug)]
struct FaultyActuator {
    current: u32,
    fail_target_verification: bool,
    fail_rollback_verification: bool,
    previous: u32,
}

impl FixedStepBudgetActuator for FaultyActuator {
    fn current_fixed_step_budget(&self) -> u32 {
        self.current
    }
    fn validate_fixed_step_budget(&self, target: u32) -> bool {
        target >= 1
    }
    fn apply_fixed_step_budget(&mut self, target: u32) {
        self.previous = self.current;
        self.current = target;
    }
    fn verify_fixed_step_budget(&self, target: u32) -> bool {
        if target == self.previous && self.fail_rollback_verification {
            return false;
        }
        if target == self.current && self.fail_target_verification && target != self.previous {
            return false;
        }
        self.current == target
    }
    fn rollback_fixed_step_budget(&mut self, previous: u32) {
        self.current = previous;
    }
}

#[test]
fn missing_metric_is_unknown_and_never_mutates() {
    let mut controller = policy();
    let mut engine = Budget { current: 4 };
    let outcome = apply(&mut controller, &mut engine, 1, None);
    assert_eq!(
        outcome,
        AdaptiveQualityOutcome::Held { guard: GuardTruth::Unknown, decision: AdaptiveQualityDecision::Hold }
    );
    assert_eq!(engine.current, 4);
}

#[test]
fn hysteresis_and_cooldown_bound_stateful_changes() {
    let mut controller = policy();
    let mut engine = Budget { current: 4 };
    assert!(matches!(
        apply(&mut controller, &mut engine, 10, Some(0.040)),
        AdaptiveQualityOutcome::Committed { previous: 4, target: 3, .. }
    ));
    assert_eq!(engine.current, 3);
    assert_eq!(
        apply(&mut controller, &mut engine, 11, Some(0.040)),
        AdaptiveQualityOutcome::Held {
            guard: GuardTruth::False,
            decision: AdaptiveQualityDecision::DecreaseFixedStepBudget { target: 2 },
        }
    );
    assert_eq!(engine.current, 3);
    assert!(matches!(
        apply(&mut controller, &mut engine, 13, Some(0.040)),
        AdaptiveQualityOutcome::Committed { previous: 3, target: 2, .. }
    ));
    assert_eq!(engine.current, 2);
    assert_eq!(
        apply(&mut controller, &mut engine, 16, Some(0.020)),
        AdaptiveQualityOutcome::Held { guard: GuardTruth::True, decision: AdaptiveQualityDecision::Hold }
    );
    assert!(matches!(
        apply(&mut controller, &mut engine, 17, Some(0.010)),
        AdaptiveQualityOutcome::Committed { previous: 2, target: 3, .. }
    ));
}

#[test]
fn verification_failure_rolls_back_before_cooldown_is_committed() {
    let mut controller = policy();
    let mut actuator = FaultyActuator {
        current: 4,
        previous: 4,
        fail_target_verification: true,
        fail_rollback_verification: false,
    };
    assert_eq!(
        apply(&mut controller, &mut actuator, 3, Some(0.040)),
        AdaptiveQualityOutcome::RolledBackAfterVerificationFailure { attempted: 3, restored: 4 }
    );
    assert_eq!(actuator.current, 4);
    assert_eq!(controller.last_transition_frame(), None);
}

#[test]
fn trusted_validation_rejection_never_reaches_mutation() {
    struct RejectingActuator {
        current: u32,
    }

    impl FixedStepBudgetActuator for RejectingActuator {
        fn current_fixed_step_budget(&self) -> u32 {
            self.current
        }
        fn validate_fixed_step_budget(&self, _target: u32) -> bool {
            false
        }
        fn apply_fixed_step_budget(&mut self, _target: u32) {
            panic!("trusted validation rejection must prevent actuation");
        }
        fn verify_fixed_step_budget(&self, target: u32) -> bool {
            self.current == target
        }
        fn rollback_fixed_step_budget(&mut self, _previous: u32) {
            panic!("no rollback is needed when validation rejects before actuation");
        }
    }

    let mut controller = policy();
    let mut actuator = RejectingActuator { current: 4 };
    assert_eq!(
        apply(&mut controller, &mut actuator, 3, Some(0.040)),
        AdaptiveQualityOutcome::RejectedByTrustedValidation { target: 3 }
    );
    assert_eq!(actuator.current, 4);
    assert_eq!(controller.last_transition_frame(), None);
}

#[test]
fn rollback_verification_failure_is_explicitly_fail_closed() {
    let mut controller = policy();
    let mut actuator = FaultyActuator {
        current: 4,
        previous: 4,
        fail_target_verification: true,
        fail_rollback_verification: true,
    };
    assert_eq!(
        apply(&mut controller, &mut actuator, 3, Some(0.040)),
        AdaptiveQualityOutcome::RollbackFailedClosed { attempted: 3, expected_restore: 4 }
    );
    assert_eq!(controller.last_transition_frame(), None);
    assert!(controller.fault_latched());

    actuator.fail_target_verification = false;
    actuator.fail_rollback_verification = false;
    assert_eq!(apply(&mut controller, &mut actuator, 4, Some(0.040)), AdaptiveQualityOutcome::FaultLatched);
    assert_eq!(actuator.current, 4);

    assert!(controller.recover_after_fault(&actuator, 4));
    assert!(!controller.fault_latched());
    assert!(matches!(
        apply(&mut controller, &mut actuator, 5, Some(0.040)),
        AdaptiveQualityOutcome::Committed { previous: 4, target: 3, .. }
    ));
}

#[test]
fn fault_recovery_requires_verified_expected_state() {
    let mut controller = policy();
    let mut actuator = FaultyActuator {
        current: 4,
        previous: 4,
        fail_target_verification: true,
        fail_rollback_verification: true,
    };
    assert!(matches!(
        apply(&mut controller, &mut actuator, 3, Some(0.040)),
        AdaptiveQualityOutcome::RollbackFailedClosed { .. }
    ));
    assert!(!controller.recover_after_fault(&actuator, 4));
    assert!(controller.fault_latched());
}

#[test]
fn out_of_order_frame_is_unknown_and_cannot_mutate() {
    let mut controller = policy();
    let mut engine = Budget { current: 4 };
    assert!(matches!(
        apply(&mut controller, &mut engine, 10, Some(0.040)),
        AdaptiveQualityOutcome::Committed { target: 3, .. }
    ));
    assert_eq!(
        apply(&mut controller, &mut engine, 9, Some(0.040)),
        AdaptiveQualityOutcome::Held {
            guard: GuardTruth::Unknown,
            decision: AdaptiveQualityDecision::DecreaseFixedStepBudget { target: 2 },
        }
    );
    assert_eq!(engine.current, 3);
}

#[test]
fn invalid_step_ranges_are_rejected() {
    assert_eq!(validate_step_range(0, 4), Err(AdaptiveQualityConfigError::ZeroMinimum));
    assert_eq!(validate_step_range(5, 4), Err(AdaptiveQualityConfigError::InvalidStepRange));
    assert_eq!(validate_step_range(4, 4), Ok(()));
    assert!(FixedStepPolicy::new(3, 0, 4).is_err());
    assert_eq!(
        AdaptiveQualityConfigError::ZeroMinimum.message(),
        "minimum fixed-step budget must be at least one"
    );
    assert_eq!(AdaptiveQualityDecision::Hold.target(), None);
    assert_eq!(AdaptiveQualityDecision::IncreaseFixedStepBudget { target: 3 }.target(), Some(3));
}

#[test]
fn recovery_needs_latched_fault_matching_report_and_verification() {
    let mut controller = policy();
    assert!(!controller.recover_with(4, 4, true));
    let mut actuator = FaultyActuator {
        current: 4,
        previous: 4,
        fail_target_verification: true,
        fail_rollback_verification: true,
    };
    apply(&mut controller, &mut actuator, 3, Some(0.040));
    assert!(controller.fault_latched());
    assert!(!controller.recover_with(5, 5, true));
    assert!(!controller.recover_with(4, 3, true));
    assert!(!controller.recover_with(4, 4, false));
    assert!(controller.fault_latched());
    assert!(controller.recover_with(4, 4, true));
    assert!(!controller.fault_latched());
    assert!(!controller.recover_with(4, 4, true));
}

fn requests_and_outcome(validated: bool, applied: bool, restored: bool) -> (Vec<FixedStepRequest>, AdaptiveQualityOutcome) {
    let mut policy = policy();
    let decision = AdaptiveQualityDecision::DecreaseFixedStepBudget { target: 3 };
    let mut step = policy.begin_admission(7, 4, decision, GuardTruth::True);
    let mut requests = Vec::new();
    loop {
        match step {
            AdmissionStep::Done(outcome) => return (requests, outcome),
            AdmissionStep::Ask(admission, request) => {
                requests.push(request);
                let answer = match (request, requests.len()) {
                    (FixedStepRequest::Validate(_), _) => validated,
                    (FixedStepRequest::Verify(_), 3) => applied,
                    (FixedStepRequest::Verify(_), _) => restored,
                    _ => true,
                };
                step = policy.advance(admission, answer);
            }
        }
    }
}

#[test]
fn admitted_step_outcome_follows_the_actuator_answers() {
    let decision = AdaptiveQualityDecision::DecreaseFixedStepBudget { target: 3 };
    assert_eq!(
        requests_and_outcome(false, true, true),
        (vec![FixedStepRequest::Validate(3)], AdaptiveQualityOutcome::RejectedByTrustedValidation { target: 3 })
    );
    assert_eq!(
        requests_and_outcome(true, true, false),
        (vec![FixedStepRequest::Validate(3), FixedStepRequest::Apply(3), FixedStepRequest::Verify(3)], AdaptiveQualityOutcome::Committed { previous: 4, target: 3, decision })
    );
    assert_eq!(
        requests_and_outcome(true, false, true),
        (
            vec![FixedStepRequest::Validate(3), FixedStepRequest::Apply(3), FixedStepRequest::Verify(3), FixedStepRequest::Rollback(4), FixedStepRequest::Verify(4)],
            AdaptiveQualityOutcome::RolledBackAfterVerificationFailure { attempted: 3, restored: 4 }
        )
    );
    assert_eq!(
        requests_and_outcome(true, false, false),
        (
            vec![FixedStepRequest::Validate(3), FixedStepRequest::Apply(3), FixedStepRequest::Verify(3), FixedStepRequest::Rollback(4), FixedStepRequest::Verify(4)],
            AdaptiveQualityOutcome::RollbackFailedClosed { attempted: 3, expected_restore: 4 }
        )
    );
}

#[test]
fn admission_without_requests_for_held_or_out_of_range_steps() {
    let policy = policy();
    let step = AdaptiveQualityDecision::IncreaseFixedStepBudget { target: 5 };
    assert_eq!(
        policy.begin_admission(1, 4, step, GuardTruth::True),
        AdmissionStep::Done(AdaptiveQualityOutcome::RejectedByTrustedValidation { target: 5 })
    );
    assert_eq!(
        policy.begin_admission(1, 4, step, GuardTruth::Unknown),
        AdmissionStep::Done(AdaptiveQualityOutcome::Held { guard: GuardTruth::Unknown, decision: step })
    );
    assert!(matches!(
        policy.begin_for_load(1, 4, FrameLoad::AboveDegrade),
        AdmissionStep::Ask(_, FixedStepRequest::Validate(3))
    ));
    assert!(matches!(policy.begin_for_load(1, 4, FrameLoad::Missing), AdmissionStep::Done(_)));
}

#[test]
fn admission_guard_is_a_three_valued_conjunction() {
    let (no, yes, unknown) = (GuardTruth::False, GuardTruth::True, GuardTruth::Unknown);
    assert_eq!(all_hold(yes, yes), yes);
    assert_eq!(all_hold(yes, unknown), unknown);
    assert_eq!(all_hold(unknown, unknown), unknown);
    assert_eq!(all_hold(unknown, no), no);
    assert_eq!(all_hold(no, yes), no);
}
