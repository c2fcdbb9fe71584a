//! Conway's Game of Life on a finite, toroidal grid.
//!
//! A [`universe::Universe`] is one generation of the game: a
//! [`grid::Grid`] of [`cell::Cell`]s. It is made empty, at random or from
//! text, and `step` gives the generation after it. The module
//! [`text_format`] says what the text form of a universe is, and
//! [`rendering`] holds what a renderer asks of a universe.

pub mod cell;
pub mod errors;
pub mod grid;
pub mod rendering;
pub mod strings;
pub mod text_format;
pub mod universe;
