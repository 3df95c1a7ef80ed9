//! A small entity-component-system runtime with a frame-scheduled animation
//! component built on top of it.
pub mod ecs;
