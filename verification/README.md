# w3drs (verified core)

The logic of the w3drs 3D engine, written in Verus and proved against its contracts:

- `src/render_graph.rs`, `src/exec_validate.rs`, `src/render_graph_exec.rs` — render-graph
  documents, their document and execution validation (each failure specified exactly, in order),
  the executor's formats, usages, bind-group plans, blit copies and checksum.
- `src/ecs/` — archetype storage: entities, component kinds, migration between archetypes,
  id recycling; the world is viewed as a map from entities to their components.
- `src/transform_system.rs` — the order of world-matrix updates: a breadth-first walk of the
  entity hierarchy from its roots, parents before their children.
- `src/assistant/` — editor assistant: edit proposals and their validation, their application to
  file texts, JSON merge patches, the completion event stream, the configuration and Ollama
  backend decisions.
- `src/asset_registry.rs`, `src/gltf_loader.rs`, `src/ibl.rs`, `src/ibl_spec.rs`,
  `src/hiz_pass.rs`, `src/hdr_target.rs`, `src/primitives.rs`, `src/render_command.rs`,
  `src/input.rs`, `src/material.rs`, `src/phase_a_viewer_config.rs` — texture, mesh and draw
  preparation that needs no floating point: mip chains, alpha bleeding, pixel conversion,
  half-float packing, bake presets, pyramid sizes, sphere and cube indices, draw batching,
  pointer buttons, material codes, viewer variants.

`app/` holds what the library cannot: serde and JSON documents, files, threads and channels,
HTTP, and the floating-point parts (geometry, camera, input deltas, the IBL bake, materials, the
matrix products of the transform update).
`tests/` exercises the library through its public API.
