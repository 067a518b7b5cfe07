//! The instanced canvas: its input state and instance layout, and the
//! single-file shader watcher it started with.
pub mod instance;
pub mod shader;
