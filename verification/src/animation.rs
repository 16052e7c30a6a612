//! Skeleton hierarchy identifiers and checks, and the adaptive-evaluation contract types.
use crate::text::{decimal_text, usize_text};
use vstd::prelude::*;

verus! {

/// Stable identifier for a joint within a skeleton hierarchy.
#[derive(Clone, Copy, Debug, PartialEq, Eq, Hash, PartialOrd, Ord, Structural)]
pub struct JointId(pub usize);

/// Errors produced during skeleton validation, animation clip creation, or sampling.
#[derive(Clone, Copy, Debug, PartialEq, Eq, Structural)]
pub enum AnimationError {
    InvalidTransform,
    InvalidParentIndex(usize),
    NonTopologicalParent,
    NegativeDuration,
    UnsortedKeyframes,
    NonFiniteTime,
}

impl AnimationError {
    pub open spec fn text(self) -> Seq<char> {
        match self {
            AnimationError::InvalidTransform => "transform contains NaN or infinite values"@,
            AnimationError::InvalidParentIndex(i) => "joint parent index "@ + decimal_text(i as nat)
                + " out of bounds"@,
            AnimationError::NonTopologicalParent => "parent index must be smaller than joint index"@,
            AnimationError::NegativeDuration => "clip duration must be non-negative"@,
            AnimationError::UnsortedKeyframes => "keyframes must be strictly sorted by time"@,
            AnimationError::NonFiniteTime => "sampling time must be finite and non-NaN"@,
        }
    }

    /// Stable user-facing message.
    pub fn message(&self) -> (s: String)
        ensures
            s@ == self.text(),
    {
        match *self {
            AnimationError::InvalidTransform => String::from_str("transform contains NaN or infinite values"),
            AnimationError::InvalidParentIndex(i) => {
                let mut s = String::from_str("joint parent index ");
                s.append(usize_text(i).as_str());
                s.append(" out of bounds");
                s
            },
            AnimationError::NonTopologicalParent => String::from_str(
                "parent index must be smaller than joint index",
            ),
            AnimationError::NegativeDuration => String::from_str("clip duration must be non-negative"),
            AnimationError::UnsortedKeyframes => String::from_str("keyframes must be strictly sorted by time"),
            AnimationError::NonFiniteTime => String::from_str("sampling time must be finite and non-NaN"),
        }
    }
}

/// Keyframe interpolation mode.
#[derive(Clone, Copy, Debug, PartialEq, Eq, Structural)]
pub enum InterpolationMode {
    Step,
    Linear,
    Slerp,
}

/// The error of joint `i`, if it has one: a non-finite bind pose, then a parent past the
/// last joint, then a parent that does not precede it.
pub open spec fn joint_error(pose_finite: Seq<bool>, parents: Seq<Option<JointId>>, i: int) -> Option<AnimationError> {
    if !pose_finite[i] {
        Some(AnimationError::InvalidTransform)
    } else {
        match parents[i] {
            None => None,
            Some(p) => if p.0 >= parents.len() {
                Some(AnimationError::InvalidParentIndex(p.0))
            } else if p.0 >= i {
                Some(AnimationError::NonTopologicalParent)
            } else {
                None
            },
        }
    }
}

/// The first joint error from joint `i` on, in joint order.
pub open spec fn hierarchy_error_from(pose_finite: Seq<bool>, parents: Seq<Option<JointId>>, i: int) -> Option<
    AnimationError,
>
    decreases parents.len() - i,
{
    if i >= parents.len() {
        None
    } else {
        match joint_error(pose_finite, parents, i) {
            Some(e) => Some(e),
            None => hierarchy_error_from(pose_finite, parents, i + 1),
        }
    }
}

/// Checks a joint list given, per joint, whether its bind pose is finite and its parent.
/// On success every parent precedes its child, so poses can be propagated in list order.
pub fn check_hierarchy(pose_finite: &[bool], parents: &[Option<JointId>]) -> (r: Result<(), AnimationError>)
    requires
        pose_finite@.len() == parents@.len(),
    ensures
        match hierarchy_error_from(pose_finite@, parents@, 0) {
            Some(e) => r == Err::<(), AnimationError>(e),
            None => r is Ok,
        },
        r is Ok ==> forall|i: int| 0 <= i < parents@.len() ==> (#[trigger] parents@[i] matches Some(p) ==> p.0 < i),
{
    let n = parents.len();
    let mut i: usize = 0;
    while i < n
        invariant
            n == parents@.len(),
            n == pose_finite@.len(),
            i <= n,
            hierarchy_error_from(pose_finite@, parents@, 0) == hierarchy_error_from(pose_finite@, parents@, i as int),
            forall|k: int| 0 <= k < i ==> (#[trigger] parents@[k] matches Some(p) ==> p.0 < k),
        decreases n - i,
    {
        if !pose_finite[i] {
            return Err(AnimationError::InvalidTransform);
        }
        match parents[i] {
            None => {},
            Some(parent) => {
                if parent.0 >= n {
                    return Err(AnimationError::InvalidParentIndex(parent.0));
                }
                if parent.0 >= i {
                    return Err(AnimationError::NonTopologicalParent);
                }
            },
        }
        i = i + 1;
    }
    Ok(())
}

/// Verdict of one progressive evaluation step.
#[derive(Clone, Copy, Debug, PartialEq, Eq, Structural)]
pub enum ProgressiveDecision {
    Continue,
    Accept,
    Recover,
}

/// Systems contract for adaptive evaluation under hard invariant constraints.
pub trait AdaptiveDomain {
    type State;

    type Observation;

    type Plan;

    type Error;

    fn observe(&self, state: &Self::State) -> Self::Observation;

    fn propose(&mut self, observation: &Self::Observation) -> Result<Self::Plan, Self::Error>;

    fn validate(&self, plan: &Self::Plan) -> bool;

    fn apply(&mut self, state: &mut Self::State, plan: Self::Plan) -> Result<(), Self::Error>;
}

} // verus!
