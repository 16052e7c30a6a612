use extrem::animation::{check_hierarchy, AnimationError, JointId};

#[test]
fn parents_must_exist_and_precede_their_children() {
    assert_eq!(check_hierarchy(&[true, true], &[None, Some(JointId(0))]), Ok(()));
    assert_eq!(
        check_hierarchy(&[true, true], &[None, Some(JointId(2))]),
        Err(AnimationError::InvalidParentIndex(2))
    );
    assert_eq!(
        check_hierarchy(&[true, true], &[Some(JointId(1)), None]),
        Err(AnimationError::NonTopologicalParent)
    );
    assert_eq!(
        check_hierarchy(&[true, false], &[None, Some(JointId(5))]),
        Err(AnimationError::InvalidTransform)
    );
    assert_eq!(check_hierarchy(&[], &[]), Ok(()));
}

#[test]
fn animation_error_messages_are_stable() {
    assert_eq!(
        AnimationError::InvalidParentIndex(3).message(),
        "joint parent index 3 out of bounds"
    );
    assert_eq!(
        AnimationError::NonFiniteTime.message(),
        "sampling time must be finite and non-NaN"
    );
}
