//! What renderers need of a universe.

pub mod canvas;
pub mod text;
pub mod web_gl;
