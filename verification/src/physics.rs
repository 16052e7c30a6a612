//! Body kinds, per-step observations and fault reporting of the reference physics step.
use vstd::prelude::*;

verus! {

#[derive(Clone, Copy, Debug, PartialEq, Eq, Structural)]
pub enum BodyType {
    Static,
    Dynamic,
}

#[derive(Clone, Copy, Debug, PartialEq, Eq, Structural)]
pub enum PhysicsError {
    InvalidMass,
    InvalidDamping,
    InvalidCollider,
    InvalidGravity,
    InvalidTimestep,
}

impl PhysicsError {
    /// Stable user-facing message.
    pub fn message(&self) -> (s: &'static str)
        ensures
            s@ == match *self {
                PhysicsError::InvalidMass => "a dynamic body must have finite positive mass"@,
                PhysicsError::InvalidDamping => "linear damping must be finite and non-negative"@,
                PhysicsError::InvalidCollider => "box half-extents must be finite and positive"@,
                PhysicsError::InvalidGravity => "gravity must contain only finite values"@,
                PhysicsError::InvalidTimestep => "physics timestep must be finite and positive"@,
            },
    {
        match self {
            PhysicsError::InvalidMass => "a dynamic body must have finite positive mass",
            PhysicsError::InvalidDamping => "linear damping must be finite and non-negative",
            PhysicsError::InvalidCollider => "box half-extents must be finite and positive",
            PhysicsError::InvalidGravity => "gravity must contain only finite values",
            PhysicsError::InvalidTimestep => "physics timestep must be finite and positive",
        }
    }
}

/// Work observed during one physics step.
#[derive(Clone, Copy, Debug, PartialEq, Eq, Structural)]
pub struct PhysicsStats {
    pub simulated_bodies: usize,
    pub contacts_with_ground: usize,
    pub contacts_with_bodies: usize,
    pub rejected_bodies: usize,
}

impl Default for PhysicsStats {
    fn default() -> (r: Self)
        ensures
            r == (PhysicsStats { simulated_bodies: 0, contacts_with_ground: 0, contacts_with_bodies: 0, rejected_bodies: 0 }),
    {
        PhysicsStats { simulated_bodies: 0, contacts_with_ground: 0, contacts_with_bodies: 0, rejected_bodies: 0 }
    }
}

/// Last global physics fault. Invalid individual bodies are counted in
/// `PhysicsStats::rejected_bodies`.
#[derive(Clone, Copy, Debug, PartialEq, Eq, Structural)]
pub struct PhysicsFault(pub Option<PhysicsError>);

impl Default for PhysicsFault {
    fn default() -> (r: Self)
        ensures
            r == PhysicsFault(None),
    {
        PhysicsFault(None)
    }
}

/// Plugin that installs gravity, statistics, the fault slot and the fixed-update step.
#[derive(Clone, Copy, Debug, Default)]
pub struct PhysicsPlugin;

} // verus!
