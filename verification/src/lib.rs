//! A small entity-component-system runtime with a fixed-point physics pipeline.

pub mod commit;
pub mod component;
pub mod access;
pub mod entity;
pub mod error;
pub mod join;
pub mod laws;
pub mod scheduler;
pub mod simulation;
pub mod store;
pub mod systems;
pub mod vec2;
pub mod world;
