use extrem::extraction::{MeshExtractionStats, RenderExtractionStats};
use extrem::physics::{BodyType, PhysicsError, PhysicsFault, PhysicsPlugin, PhysicsStats};
use extrem::schedule::{MinimalPlugins, Stage};

#[test]
fn observation_defaults_are_zero() {
    assert_eq!(PhysicsStats::default().simulated_bodies, 0);
    assert_eq!(PhysicsFault::default(), PhysicsFault(None));
    let stats = RenderExtractionStats::default();
    assert_eq!(stats.selected_camera, None);
    assert_eq!(stats.transform_commands, 0);
    assert_eq!(MeshExtractionStats::default().selected_light, None);
    let _ = (PhysicsPlugin, MinimalPlugins);
}

#[test]
fn physics_messages_and_kinds_are_stable() {
    assert_eq!(
        PhysicsError::InvalidTimestep.message(),
        "physics timestep must be finite and positive"
    );
    assert_ne!(BodyType::Static, BodyType::Dynamic);
    assert_ne!(Stage::Startup, Stage::Render);
}
