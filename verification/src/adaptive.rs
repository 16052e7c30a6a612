//! Admission of one quality knob, the fixed-step budget, with hysteresis, cooldown and a
//! validate / apply / verify / rollback transaction against a trusted actuator.
//!
//! The frame-time classification (which needs the caller's floating-point thresholds) and the
//! three-valued guard are supplied by the caller; everything that decides whether and how the
//! actuator is touched lives here.
use vstd::prelude::*;

verus! {

/// Configuration errors, in the order in which a configuration is checked.
#[derive(Clone, Copy, Debug, PartialEq, Eq, Structural)]
pub enum AdaptiveQualityConfigError {
    NonFiniteThreshold,
    NonPositiveThreshold,
    InvalidHysteresis,
    ZeroMinimum,
    InvalidStepRange,
}

impl AdaptiveQualityConfigError {
    /// Stable user-facing message.
    pub fn message(&self) -> (s: &'static str)
        ensures
            s@ == match *self {
                AdaptiveQualityConfigError::NonFiniteThreshold => "frame-time thresholds must be finite"@,
                AdaptiveQualityConfigError::NonPositiveThreshold => "frame-time thresholds must be positive"@,
                AdaptiveQualityConfigError::InvalidHysteresis => "recover_below_seconds must be strictly below degrade_above_seconds"@,
                AdaptiveQualityConfigError::ZeroMinimum => "minimum fixed-step budget must be at least one"@,
                AdaptiveQualityConfigError::InvalidStepRange => "minimum fixed-step budget must not exceed maximum fixed-step budget"@,
            },
    {
        match self {
            AdaptiveQualityConfigError::NonFiniteThreshold => "frame-time thresholds must be finite",
            AdaptiveQualityConfigError::NonPositiveThreshold => "frame-time thresholds must be positive",
            AdaptiveQualityConfigError::InvalidHysteresis => "recover_below_seconds must be strictly below degrade_above_seconds",
            AdaptiveQualityConfigError::ZeroMinimum => "minimum fixed-step budget must be at least one",
            AdaptiveQualityConfigError::InvalidStepRange => "minimum fixed-step budget must not exceed maximum fixed-step budget",
        }
    }
}

/// What the controller would like to do with the fixed-step budget.
#[derive(Clone, Copy, Debug, PartialEq, Eq, Structural)]
pub enum AdaptiveQualityDecision {
    Hold,
    DecreaseFixedStepBudget { target: u32 },
    IncreaseFixedStepBudget { target: u32 },
}

impl AdaptiveQualityDecision {
    pub open spec fn target_spec(self) -> Option<u32> {
        match self {
            AdaptiveQualityDecision::Hold => None,
            AdaptiveQualityDecision::DecreaseFixedStepBudget { target } => Some(target),
            AdaptiveQualityDecision::IncreaseFixedStepBudget { target } => Some(target),
        }
    }

    /// The requested budget, if the decision requests one.
    pub fn target(self) -> (r: Option<u32>)
        ensures
            r == self.target_spec(),
    {
        match self {
            AdaptiveQualityDecision::Hold => None,
            AdaptiveQualityDecision::DecreaseFixedStepBudget { target } => Some(target),
            AdaptiveQualityDecision::IncreaseFixedStepBudget { target } => Some(target),
        }
    }
}

/// A measured frame interval classified against the configured thresholds.
#[derive(Clone, Copy, Debug, PartialEq, Eq, Structural)]
pub enum FrameLoad {
    /// No usable measurement (absent, non-finite or non-positive).
    Missing,
    /// Strictly above the degrade threshold.
    AboveDegrade,
    /// Strictly below the recover threshold.
    BelowRecover,
    /// Measured, between the two thresholds.
    WithinBand,
}

/// Three-valued truth of an admission fact.
#[derive(Clone, Copy, Debug, PartialEq, Eq, Structural)]
pub enum GuardTruth {
    True,
    False,
    Unknown,
}

/// Result of one admission attempt.
#[derive(Clone, Copy, Debug, PartialEq, Eq, Structural)]
pub enum AdaptiveQualityOutcome {
    Held { guard: GuardTruth, decision: AdaptiveQualityDecision },
    Committed { previous: u32, target: u32, decision: AdaptiveQualityDecision },
    RejectedByTrustedValidation { target: u32 },
    RolledBackAfterVerificationFailure { attempted: u32, restored: u32 },
    RollbackFailedClosed { attempted: u32, expected_restore: u32 },
    /// A prior rollback could not be verified; admission stays disabled.
    FaultLatched,
}

/// Trusted stateful boundary implemented by the embedding.
///
/// Nothing is assumed of an implementation: every answer it gives is re-checked by
/// the caller, and a failed verification is answered by a rollback.
pub trait FixedStepBudgetActuator {
    fn current_fixed_step_budget(&self) -> u32;

    fn validate_fixed_step_budget(&self, target: u32) -> bool;

    fn apply_fixed_step_budget(&mut self, target: u32);

    fn verify_fixed_step_budget(&self, target: u32) -> bool;

    fn rollback_fixed_step_budget(&mut self, previous: u32);
}

/// Checks the integer part of a configuration: a budget range of at least one step.
pub fn validate_step_range(min_steps: u32, max_steps: u32) -> (r: Result<(), AdaptiveQualityConfigError>)
    ensures
        min_steps == 0 ==> r == Err::<(), AdaptiveQualityConfigError>(AdaptiveQualityConfigError::ZeroMinimum),
        min_steps != 0 && min_steps > max_steps ==> r == Err::<(), AdaptiveQualityConfigError>(
            AdaptiveQualityConfigError::InvalidStepRange,
        ),
        1 <= min_steps <= max_steps ==> r is Ok,
{
    if min_steps == 0 {
        return Err(AdaptiveQualityConfigError::ZeroMinimum);
    }
    if min_steps > max_steps {
        return Err(AdaptiveQualityConfigError::InvalidStepRange);
    }
    Ok(())
}

/// The decision for budget `current` under `load`: one step down when overloaded, one step up
/// when underloaded, never leaving `[min_steps, max_steps]`.
pub open spec fn decision_for(min_steps: u32, max_steps: u32, current: u32, load: FrameLoad) -> AdaptiveQualityDecision {
    match load {
        FrameLoad::AboveDegrade => if current > min_steps {
            AdaptiveQualityDecision::DecreaseFixedStepBudget { target: (current - 1) as u32 }
        } else {
            AdaptiveQualityDecision::Hold
        },
        FrameLoad::BelowRecover => if current < max_steps {
            AdaptiveQualityDecision::IncreaseFixedStepBudget { target: (current + 1) as u32 }
        } else {
            AdaptiveQualityDecision::Hold
        },
        _ => AdaptiveQualityDecision::Hold,
    }
}

/// Cooldown fact for `frame`, given the frame of the last committed transition.
pub open spec fn cooldown_truth_for(cooldown_frames: u64, last: Option<u64>, frame: u64) -> GuardTruth {
    match last {
        None => GuardTruth::True,
        Some(l) => if frame < l {
            GuardTruth::Unknown
        } else if frame - l < cooldown_frames {
            GuardTruth::False
        } else {
            GuardTruth::True
        },
    }
}

/// Everything that an admission attempt needs before the guard is evaluated.
#[derive(Clone, Copy, Debug, PartialEq, Eq, Structural)]
pub struct AdmissionPlan {
    pub current: u32,
    pub decision: AdaptiveQualityDecision,
    pub metric: GuardTruth,
    pub cooldown: GuardTruth,
}

/// Outcome of an admitted step: refused when the actuator does not validate the target,
/// committed when the applied target verifies, rolled back when the restored budget
/// verifies, and failed closed otherwise.
pub open spec fn commit_outcome_spec(
    target: u32,
    current: u32,
    decision: AdaptiveQualityDecision,
    validated: bool,
    applied: bool,
    restored: bool,
) -> AdaptiveQualityOutcome {
    if !validated {
        AdaptiveQualityOutcome::RejectedByTrustedValidation { target }
    } else if applied {
        AdaptiveQualityOutcome::Committed { previous: current, target, decision }
    } else if restored {
        AdaptiveQualityOutcome::RolledBackAfterVerificationFailure { attempted: target, restored: current }
    } else {
        AdaptiveQualityOutcome::RollbackFailedClosed { attempted: target, expected_restore: current }
    }
}

/// A request the admission transaction makes of the actuator.
#[derive(Clone, Copy, Debug, PartialEq, Eq, Structural)]
pub enum FixedStepRequest {
    /// Does the actuator accept this budget?
    Validate(u32),
    /// Set this budget.
    Apply(u32),
    /// Is this budget in effect?
    Verify(u32),
    /// Restore this budget.
    Rollback(u32),
}

/// The request an admission transaction is waiting on.
#[derive(Clone, Copy, Debug, PartialEq, Eq, Structural)]
pub enum AdmissionStage {
    Validating,
    Applying,
    VerifyingTarget,
    RollingBack,
    VerifyingRestore,
}

/// An admission transaction in flight: a step from budget `current` to `target`, for
/// `decision`, on `frame`.
#[derive(Clone, Copy, Debug, PartialEq, Eq, Structural)]
pub struct Admission {
    pub frame: u64,
    pub current: u32,
    pub target: u32,
    pub decision: AdaptiveQualityDecision,
    pub stage: AdmissionStage,
}

/// What an admission needs next: an actuator request, or nothing more, with its outcome.
#[derive(Clone, Copy, Debug, PartialEq, Eq, Structural)]
pub enum AdmissionStep {
    Ask(Admission, FixedStepRequest),
    Done(AdaptiveQualityOutcome),
}

/// The first step of admitting `decision`.
pub open spec fn admission_start(
    latched: bool,
    min: u32,
    max: u32,
    frame: u64,
    current: u32,
    decision: AdaptiveQualityDecision,
    guard: GuardTruth,
) -> AdmissionStep {
    if latched {
        AdmissionStep::Done(AdaptiveQualityOutcome::FaultLatched)
    } else {
        match decision.target_spec() {
            None => AdmissionStep::Done(AdaptiveQualityOutcome::Held { guard, decision }),
            Some(t) => if guard != GuardTruth::True {
                AdmissionStep::Done(AdaptiveQualityOutcome::Held { guard, decision })
            } else if t < min || t > max {
                AdmissionStep::Done(AdaptiveQualityOutcome::RejectedByTrustedValidation { target: t })
            } else {
                AdmissionStep::Ask(
                    Admission { frame, current, target: t, decision, stage: AdmissionStage::Validating },
                    FixedStepRequest::Validate(t),
                )
            },
        }
    }
}

/// The step after the actuator answered `answer` to the outstanding request of `a`.
pub open spec fn admission_next(a: Admission, answer: bool) -> AdmissionStep {
    match a.stage {
        AdmissionStage::Validating => if answer {
            AdmissionStep::Ask(Admission { stage: AdmissionStage::Applying, ..a }, FixedStepRequest::Apply(a.target))
        } else {
            AdmissionStep::Done(AdaptiveQualityOutcome::RejectedByTrustedValidation { target: a.target })
        },
        AdmissionStage::Applying => AdmissionStep::Ask(
            Admission { stage: AdmissionStage::VerifyingTarget, ..a },
            FixedStepRequest::Verify(a.target),
        ),
        AdmissionStage::VerifyingTarget => if answer {
            AdmissionStep::Done(
                AdaptiveQualityOutcome::Committed { previous: a.current, target: a.target, decision: a.decision },
            )
        } else {
            AdmissionStep::Ask(Admission { stage: AdmissionStage::RollingBack, ..a }, FixedStepRequest::Rollback(a.current))
        },
        AdmissionStage::RollingBack => AdmissionStep::Ask(
            Admission { stage: AdmissionStage::VerifyingRestore, ..a },
            FixedStepRequest::Verify(a.current),
        ),
        AdmissionStage::VerifyingRestore => if answer {
            AdmissionStep::Done(
                AdaptiveQualityOutcome::RolledBackAfterVerificationFailure { attempted: a.target, restored: a.current },
            )
        } else {
            AdmissionStep::Done(
                AdaptiveQualityOutcome::RollbackFailedClosed { attempted: a.target, expected_restore: a.current },
            )
        },
    }
}

/// Runs a transaction from its first request with the actuator's answers: whether it
/// `validated` the target, whether the target verified after it was `applied`, and whether
/// the previous budget verified after it was `restored`. The requests made, in order, are
/// validate(target), then apply(target) and verify(target) if validated, then
/// rollback(current) and verify(current) if the target did not verify.
pub open spec fn admission_run(a: Admission, validated: bool, applied: bool, restored: bool) -> (
    Seq<FixedStepRequest>,
    AdaptiveQualityOutcome,
) {
    (
        if !validated {
            seq![FixedStepRequest::Validate(a.target)]
        } else if applied {
            seq![
                FixedStepRequest::Validate(a.target),
                FixedStepRequest::Apply(a.target),
                FixedStepRequest::Verify(a.target),
            ]
        } else {
            seq![
                FixedStepRequest::Validate(a.target),
                FixedStepRequest::Apply(a.target),
                FixedStepRequest::Verify(a.target),
                FixedStepRequest::Rollback(a.current),
                FixedStepRequest::Verify(a.current),
            ]
        },
        commit_outcome_spec(a.target, a.current, a.decision, validated, applied, restored),
    )
}

/// Stepping a transaction with the actuator's answers makes exactly the requests of
/// `admission_run`, in order, and ends with its outcome.
pub proof fn lemma_admission_run(a: Admission, validated: bool, applied: bool, restored: bool)
    requires
        a.stage == AdmissionStage::Validating,
    ensures
        ({
            let run = admission_run(a, validated, applied, restored);
            let a1 = (Admission { stage: AdmissionStage::Applying, ..a });
            let a2 = (Admission { stage: AdmissionStage::VerifyingTarget, ..a });
            let a3 = (Admission { stage: AdmissionStage::RollingBack, ..a });
            let a4 = (Admission { stage: AdmissionStage::VerifyingRestore, ..a });
            &&& run.0[0] == FixedStepRequest::Validate(a.target)
            &&& !validated ==> (run.0.len() == 1 && admission_next(a, validated) == AdmissionStep::Done(run.1))
            &&& validated ==> (admission_next(a, validated) == AdmissionStep::Ask(a1, run.0[1]) && admission_next(
                a1,
                true,
            ) == AdmissionStep::Ask(a2, run.0[2]))
            &&& validated && applied ==> (run.0.len() == 3 && admission_next(a2, applied) == AdmissionStep::Done(
                run.1,
            ))
            &&& validated && !applied ==> (run.0.len() == 5 && admission_next(a2, applied) == AdmissionStep::Ask(
                a3,
                run.0[3],
            ) && admission_next(a3, true) == AdmissionStep::Ask(a4, run.0[4]) && admission_next(a4, restored)
                == AdmissionStep::Done(run.1))
        }),
{
}

/// Three-valued conjunction of the two admission facts: a false fact refuses, two true facts
/// admit, anything else is unknown.
pub open spec fn both_hold(metric: GuardTruth, cooldown: GuardTruth) -> GuardTruth {
    if metric == GuardTruth::False || cooldown == GuardTruth::False {
        GuardTruth::False
    } else if metric == GuardTruth::True && cooldown == GuardTruth::True {
        GuardTruth::True
    } else {
        GuardTruth::Unknown
    }
}

/// The admission guard over the metric and cooldown facts.
pub fn all_hold(metric: GuardTruth, cooldown: GuardTruth) -> (r: GuardTruth)
    ensures
        r == both_hold(metric, cooldown),
{
    match (metric, cooldown) {
        (GuardTruth::False, _) | (_, GuardTruth::False) => GuardTruth::False,
        (GuardTruth::True, GuardTruth::True) => GuardTruth::True,
        _ => GuardTruth::Unknown,
    }
}

/// Hysteresis, cooldown and fail-closed transaction state of the fixed-step controller.
pub struct FixedStepPolicy {
    cooldown_frames: u64,
    min_steps: u32,
    max_steps: u32,
    last_transition_frame: Option<u64>,
    fault_latched: bool,
}

impl FixedStepPolicy {
    pub closed spec fn cooldown_spec(&self) -> u64 {
        self.cooldown_frames
    }

    pub closed spec fn min_spec(&self) -> u32 {
        self.min_steps
    }

    pub closed spec fn max_spec(&self) -> u32 {
        self.max_steps
    }

    pub closed spec fn last_spec(&self) -> Option<u64> {
        self.last_transition_frame
    }

    pub closed spec fn latched_spec(&self) -> bool {
        self.fault_latched
    }

    /// The configuration part of the state, which no admission changes.
    pub open spec fn same_config(&self, other: &Self) -> bool {
        &&& self.cooldown_spec() == other.cooldown_spec()
        &&& self.min_spec() == other.min_spec()
        &&& self.max_spec() == other.max_spec()
    }

    pub closed spec fn wf(&self) -> bool {
        1 <= self.min_steps <= self.max_steps
    }

    pub fn new(cooldown_frames: u64, min_steps: u32, max_steps: u32) -> (r: Result<Self, AdaptiveQualityConfigError>)
        ensures
            match r {
                Ok(p) => {
                    &&& 1 <= min_steps <= max_steps
                    &&& p.wf()
                    &&& p.cooldown_spec() == cooldown_frames
                    &&& p.min_spec() == min_steps
                    &&& p.max_spec() == max_steps
                    &&& p.last_spec() is None
                    &&& !p.latched_spec()
                },
                Err(e) => {
                    &&& !(1 <= min_steps <= max_steps)
                    &&& e == (if min_steps == 0 {
                        AdaptiveQualityConfigError::ZeroMinimum
                    } else {
                        AdaptiveQualityConfigError::InvalidStepRange
                    })
                },
            },
    {
        match validate_step_range(min_steps, max_steps) {
            Err(e) => Err(e),
            Ok(()) => Ok(FixedStepPolicy {
                cooldown_frames,
                min_steps,
                max_steps,
                last_transition_frame: None,
                fault_latched: false,
            }),
        }
    }

    pub fn last_transition_frame(&self) -> (r: Option<u64>)
        ensures
            r == self.last_spec(),
    {
        self.last_transition_frame
    }

    /// Whether an unverified rollback has disabled further admission.
    pub fn fault_latched(&self) -> (r: bool)
        ensures
            r == self.latched_spec(),
    {
        self.fault_latched
    }

    pub fn min_steps(&self) -> (r: u32)
        ensures
            r == self.min_spec(),
    {
        self.min_steps
    }

    pub fn max_steps(&self) -> (r: u32)
        ensures
            r == self.max_spec(),
    {
        self.max_steps
    }

    pub fn cooldown_frames(&self) -> (r: u64)
        ensures
            r == self.cooldown_spec(),
    {
        self.cooldown_frames
    }

    /// One step towards the load, within the configured range.
    pub fn decide(&self, current: u32, load: FrameLoad) -> (d: AdaptiveQualityDecision)
        ensures
            d == decision_for(self.min_spec(), self.max_spec(), current, load),
    {
        match load {
            FrameLoad::AboveDegrade => {
                if current > self.min_steps {
                    AdaptiveQualityDecision::DecreaseFixedStepBudget { target: current - 1 }
                } else {
                    AdaptiveQualityDecision::Hold
                }
            },
            FrameLoad::BelowRecover => {
                if current < self.max_steps {
                    AdaptiveQualityDecision::IncreaseFixedStepBudget { target: current + 1 }
                } else {
                    AdaptiveQualityDecision::Hold
                }
            },
            _ => AdaptiveQualityDecision::Hold,
        }
    }

    /// The metric fact: known exactly when a measurement was usable.
    pub fn metric_truth(load: FrameLoad) -> (t: GuardTruth)
        ensures
            t == (if load == FrameLoad::Missing { GuardTruth::Unknown } else { GuardTruth::True }),
    {
        match load {
            FrameLoad::Missing => GuardTruth::Unknown,
            _ => GuardTruth::True,
        }
    }

    /// The cooldown fact: unknown for a frame older than the last transition, false
    /// while fewer than `cooldown_frames` frames have passed since it.
    pub fn cooldown_truth(&self, frame: u64) -> (t: GuardTruth)
        ensures
            t == cooldown_truth_for(self.cooldown_spec(), self.last_spec(), frame),
    {
        match self.last_transition_frame {
            None => GuardTruth::True,
            Some(last) => {
                if frame < last {
                    GuardTruth::Unknown
                } else if frame - last < self.cooldown_frames {
                    GuardTruth::False
                } else {
                    GuardTruth::True
                }
            },
        }
    }

    /// Reads the actuator's budget and prepares the decision and the two admission facts.
    pub fn plan<A: FixedStepBudgetActuator>(&self, actuator: &A, frame: u64, load: FrameLoad) -> (p: AdmissionPlan)
        ensures
            p.decision == decision_for(self.min_spec(), self.max_spec(), p.current, load),
            p.metric == (if load == FrameLoad::Missing { GuardTruth::Unknown } else { GuardTruth::True }),
            p.cooldown == cooldown_truth_for(self.cooldown_spec(), self.last_spec(), frame),
    {
        let current = actuator.current_fixed_step_budget();
        AdmissionPlan {
            current,
            decision: self.decide(current, load),
            metric: Self::metric_truth(load),
            cooldown: self.cooldown_truth(frame),
        }
    }

    /// Starts admitting `decision`, taken at budget `current` on `frame`, once the guard over
    /// the admission facts has evaluated to `guard`. No actuator request is needed when a
    /// fault is latched, the decision holds, the guard is not true or the target lies outside
    /// the configured range; otherwise the transaction starts by asking the actuator to
    /// validate the target.
    pub fn begin_admission(&self, frame: u64, current: u32, decision: AdaptiveQualityDecision, guard: GuardTruth) -> (r:
        AdmissionStep)
        ensures
            r == admission_start(self.latched_spec(), self.min_spec(), self.max_spec(), frame, current, decision, guard),
    {
        if self.fault_latched {
            return AdmissionStep::Done(AdaptiveQualityOutcome::FaultLatched);
        }
        let target = match decision.target() {
            None => return AdmissionStep::Done(AdaptiveQualityOutcome::Held { guard, decision }),
            Some(target) => target,
        };
        match guard {
            GuardTruth::True => {},
            _ => return AdmissionStep::Done(AdaptiveQualityOutcome::Held { guard, decision }),
        }
        if target < self.min_steps || target > self.max_steps {
            return AdmissionStep::Done(AdaptiveQualityOutcome::RejectedByTrustedValidation { target });
        }
        AdmissionStep::Ask(
            Admission { frame, current, target, decision, stage: AdmissionStage::Validating },
            FixedStepRequest::Validate(target),
        )
    }

    /// Starts admitting the one-step decision for `load` at budget `current` on `frame`,
    /// guarded by the conjunction of the metric and cooldown facts.
    pub fn begin_for_load(&self, frame: u64, current: u32, load: FrameLoad) -> (r: AdmissionStep)
        ensures
            r == admission_start(
                self.latched_spec(),
                self.min_spec(),
                self.max_spec(),
                frame,
                current,
                decision_for(self.min_spec(), self.max_spec(), current, load),
                both_hold(
                    if load == FrameLoad::Missing { GuardTruth::Unknown } else { GuardTruth::True },
                    cooldown_truth_for(self.cooldown_spec(), self.last_spec(), frame),
                ),
            ),
    {
        let decision = self.decide(current, load);
        let guard = all_hold(Self::metric_truth(load), self.cooldown_truth(frame));
        self.begin_admission(frame, current, decision, guard)
    }

    /// Advances `admission` with the actuator's answer to its outstanding request: whether it
    /// validated or verified, for those requests; an apply or a rollback has no answer, and
    /// `answer` is then not read. A verified target records the transition frame; a restore
    /// that does not verify latches a fault.
    pub fn advance(&mut self, admission: Admission, answer: bool) -> (r: AdmissionStep)
        ensures
            r == admission_next(admission, answer),
            final(self).same_config(old(self)),
            final(self).wf() == old(self).wf(),
            final(self).last_spec() == (if r matches AdmissionStep::Done(AdaptiveQualityOutcome::Committed { .. }) {
                Some(admission.frame)
            } else {
                old(self).last_spec()
            }),
            final(self).latched_spec() == (old(self).latched_spec() || r matches AdmissionStep::Done(
                AdaptiveQualityOutcome::RollbackFailedClosed { .. },
            )),
    {
        let target = admission.target;
        let current = admission.current;
        match admission.stage {
            AdmissionStage::Validating => {
                if answer {
                    AdmissionStep::Ask(
                        Admission { stage: AdmissionStage::Applying, ..admission },
                        FixedStepRequest::Apply(target),
                    )
                } else {
                    AdmissionStep::Done(AdaptiveQualityOutcome::RejectedByTrustedValidation { target })
                }
            },
            AdmissionStage::Applying => AdmissionStep::Ask(
                Admission { stage: AdmissionStage::VerifyingTarget, ..admission },
                FixedStepRequest::Verify(target),
            ),
            AdmissionStage::VerifyingTarget => {
                if answer {
                    self.last_transition_frame = Some(admission.frame);
                    AdmissionStep::Done(
                        AdaptiveQualityOutcome::Committed { previous: current, target, decision: admission.decision },
                    )
                } else {
                    AdmissionStep::Ask(
                        Admission { stage: AdmissionStage::RollingBack, ..admission },
                        FixedStepRequest::Rollback(current),
                    )
                }
            },
            AdmissionStage::RollingBack => AdmissionStep::Ask(
                Admission { stage: AdmissionStage::VerifyingRestore, ..admission },
                FixedStepRequest::Verify(current),
            ),
            AdmissionStage::VerifyingRestore => {
                if answer {
                    AdmissionStep::Done(
                        AdaptiveQualityOutcome::RolledBackAfterVerificationFailure { attempted: target, restored: current },
                    )
                } else {
                    self.fault_latched = true;
                    AdmissionStep::Done(
                        AdaptiveQualityOutcome::RollbackFailedClosed { attempted: target, expected_restore: current },
                    )
                }
            },
        }
    }

    /// Clears a latched fault only after the actuator reports and verifies an expected
    /// in-range budget. The actuator is only read.
    pub fn recover_after_fault<A: FixedStepBudgetActuator>(&mut self, actuator: &A, expected: u32) -> (r: bool)
        ensures
            final(self).same_config(old(self)),
            final(self).wf() == old(self).wf(),
            final(self).last_spec() == old(self).last_spec(),
            r ==> {
                &&& old(self).latched_spec()
                &&& old(self).min_spec() <= expected <= old(self).max_spec()
                &&& !final(self).latched_spec()
            },
            !r ==> *final(self) == *old(self),
            !old(self).latched_spec() ==> !r,
            expected < old(self).min_spec() || expected > old(self).max_spec() ==> !r,
    {
        if !self.fault_latched || expected < self.min_steps || expected > self.max_steps {
            return false;
        }
        let reported = actuator.current_fixed_step_budget();
        let verified = reported == expected && actuator.verify_fixed_step_budget(expected);
        self.recover_with(expected, reported, verified)
    }

    /// Clears a latched fault given what the actuator answered: the budget it `reported` and
    /// whether it `verified` `expected`. Recovery needs a latched fault, an in-range
    /// `expected`, a reported budget equal to it, and a successful verification.
    pub fn recover_with(&mut self, expected: u32, reported: u32, verified: bool) -> (r: bool)
        ensures
            r == (old(self).latched_spec() && old(self).min_spec() <= expected <= old(self).max_spec() && reported
                == expected && verified),
            final(self).same_config(old(self)),
            final(self).wf() == old(self).wf(),
            final(self).last_spec() == old(self).last_spec(),
            final(self).latched_spec() == (old(self).latched_spec() && !r),
    {
        if !self.fault_latched || expected < self.min_steps || expected > self.max_steps {
            return false;
        }
        if reported != expected || !verified {
            return false;
        }
        self.fault_latched = false;
        true
    }
}

} // verus!
