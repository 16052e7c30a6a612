use vstd::prelude::*;

pub mod text;
pub mod ecs;
pub mod graph_spec;
pub mod render_graph;
pub mod preparation;
pub mod asset_path;
pub mod assets;
pub mod adaptive;
pub mod glb;
pub mod hysteresis;
pub mod codec;
pub mod texture;
pub mod input;
pub mod frame;
pub mod gpu_mesh;
pub mod mesh;
pub mod animation;
pub mod physics;
pub mod schedule;
pub mod extraction;
pub mod history;
pub mod json;
pub mod glb_document;
pub mod glb_import;
pub mod cpu_renderer;

verus! {

} // verus!
