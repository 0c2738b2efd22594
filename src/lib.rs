//! Procedural generation of "gore" platformer levels: tile grids, rectangle
//! painting primitives and the carving pipeline that shapes a level.

pub mod grid;
pub mod shapes;
pub mod gore;
