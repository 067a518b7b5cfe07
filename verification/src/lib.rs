//! Shader playlist, hot reloading and input handling for a small WGSL canvas.
//!
//! The library holds the decisions: which files of a directory form the
//! shader playlist and in which order, how the playlist moves, which file
//! events trigger a reload, what a load attempt yields, how keys change the
//! input state and how the instance buffer is laid out.  Reading
//! directories, watching files, compiling WESL modules and talking to the
//! GPU happen around it.
pub mod order;
pub mod paths;
pub mod shader;
pub mod canvas;

