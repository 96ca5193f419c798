//! Core of a render-graph frame renderer: a directed acyclic graph of
//! rendering nodes connected through typed resource slots, a scheduler that
//! resolves a deterministic node order, a transient GPU resource cache, a
//! merger that reconciles per-stage shader layouts into one pipeline layout,
//! and a draw-state compiler that strips redundant state changes from a
//! command stream before it is handed to the GPU.

pub mod command;
pub mod compiler;
pub mod draw_state;
pub mod executor;
pub mod graph;
pub mod layout;
pub mod main_pass_driver;
pub mod pbr_graph;
pub mod resource_cache;
pub mod schedule;
pub mod shadow_pass;
pub mod shadows_node;
pub mod slot;
pub mod texture_node;
pub mod view;
