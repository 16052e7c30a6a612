# extrem

The verified core of a small modular game engine, written in Verus.

`src/` is the library. Its functions carry contracts that Verus proves, except a handful of
small trusted wrappers around standard-library and `serde_json` calls, whose contracts are
stated in their doc comments:

- `ecs`: generational entities, one component value of the world's component type per entity,
  and one resource of its resource type.
- `render_graph`, `graph_spec`, `preparation`: the render graph, its cached and shared
  compiled plans (proved equal to a depth-first topological order), and plan preparation
  that keeps pass names aligned with the plan.
- `asset_path`, `assets`: fail-closed normalisation of virtual asset paths, stable asset
  identifiers and the typed, deduplicating asset store.
- `glb`, `json`, `glb_document`, `glb_import`: GLB container framing, little-endian reads,
  index accessors, the JSON parse and the integer structure of a glTF document.
- `hysteresis`, `adaptive`, `frame`: level-of-detail and resolution hysteresis, the
  fixed-step budget admission as a state machine over the actuator's answers, with
  rollback and fault latching, and frame budgets.
- `history`: bounded undo/redo stacks whose records survive failed replays.
- `cpu_renderer`: a software framebuffer with a clipped marker raster and frame statistics.
- `texture`, `gpu_mesh`, `mesh`, `codec`, `input`, `animation`, `physics`, `schedule`,
  `extraction`, `text`: validated texture payloads, mesh geometry checks, consecutive draw
  batching, geometry codecs, button state, skeleton hierarchy checks and shared engine types.

`app/` is ordinary Rust around the library: the floating-point parts (math types, sampling,
frustum tests, frame-time ratios, physics bodies, animation, material factors), the loop
that hands admission requests to an actuator, file output and GPU vertex layouts. `tests/` holds the tests; they run against the compiled
library.
