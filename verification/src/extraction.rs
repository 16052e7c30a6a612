//! Observations of render and mesh extraction, independent of GPU submission.
use crate::ecs::Entity;
use vstd::prelude::*;

verus! {

/// Work observed during one extraction, not elapsed time or allocator telemetry.
#[derive(Clone, Copy, Debug, PartialEq, Eq, Structural)]
pub struct RenderExtractionStats {
    /// Active cameras that have a global or local transform.
    pub eligible_cameras: usize,
    /// The lowest eligible entity ID, including its generation.
    pub selected_camera: Option<Entity>,
    /// Actual calls to camera view-projection construction (zero or one).
    pub camera_matrices: usize,
    /// Translation commands, excluding the optional camera command.
    pub transform_commands: usize,
    /// Retained capacity in `(Entity, Vec3)` entries, not bytes or allocations.
    pub scratch_capacity: usize,
}

impl Default for RenderExtractionStats {
    fn default() -> (r: Self)
        ensures
            r == (RenderExtractionStats {
                eligible_cameras: 0,
                selected_camera: None,
                camera_matrices: 0,
                transform_commands: 0,
                scratch_capacity: 0,
            }),
    {
        RenderExtractionStats {
            eligible_cameras: 0,
            selected_camera: None,
            camera_matrices: 0,
            transform_commands: 0,
            scratch_capacity: 0,
        }
    }
}

/// CPU extraction observations, independent from actual GPU submission success.
#[derive(Clone, Copy, Debug, PartialEq, Eq, Structural)]
pub struct MeshExtractionStats {
    pub visible: usize,
    pub hidden: usize,
    pub missing_transform: usize,
    pub eligible_lights: usize,
    pub selected_light: Option<Entity>,
}

impl Default for MeshExtractionStats {
    fn default() -> (r: Self)
        ensures
            r == (MeshExtractionStats {
                visible: 0,
                hidden: 0,
                missing_transform: 0,
                eligible_lights: 0,
                selected_light: None,
            }),
    {
        MeshExtractionStats { visible: 0, hidden: 0, missing_transform: 0, eligible_lights: 0, selected_light: None }
    }
}

} // verus!
