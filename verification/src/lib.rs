//! Verified core of the w3drs engine: render-graph documents and their validation,
//! archetype ECS storage, CPU texture helpers, IBL bake presets and assistant edit proposals.

pub mod asset_registry;
pub mod assistant;
pub mod ecs;
pub mod hdr_target;
pub mod hiz_pass;
pub mod input;
pub mod material;
pub mod phase_a_viewer_config;
pub mod primitives;
pub mod render_command;
pub mod transform_system;
pub mod exec_validate;
pub mod gltf_loader;
pub mod render_graph;
pub mod render_graph_exec;
pub mod ibl;
pub mod ibl_spec;
mod scan;
mod text;

pub use text::str_eq;
