//! Conway's Game of Life on a finite, bounded (non-wrapping) grid.
//!
//! The crate provides the two pure cores of a grid visualizer: the automaton
//! transition (`engine`), and the mapping between logical cell coordinates and
//! pixel-space geometry used for rendering and mouse hit-testing (`geometry`).
//! Grid snapshots can be saved and restored through a textual row-major
//! encoding of the cell states (`codec`).

pub mod codec;
pub mod engine;
pub mod geometry;
pub mod grid;
