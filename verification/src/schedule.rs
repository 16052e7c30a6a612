//! Execution stages of an application frame and the default plugin group.
use vstd::prelude::*;

verus! {

/// Stages in execution order: startup once, then fixed updates, update, post-update and
/// render every frame.
#[derive(Clone, Copy, Debug, PartialEq, Eq, Hash, Structural)]
pub enum Stage {
    Startup,
    FixedUpdate,
    Update,
    PostUpdate,
    Render,
}

/// Default plugin group for a headless or test-oriented application.
#[derive(Clone, Copy, Debug, Default)]
pub struct MinimalPlugins;

} // verus!
