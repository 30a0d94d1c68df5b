//! A minimal 2D rasterization core: lines, rectangles and triangles are
//! turned into single-pixel writes on a fixed-size canvas, with all
//! clipping done by the rasterization routines themselves.

pub mod canvas;
pub mod colors;
pub mod geometry;
pub mod lines;
pub mod tools;
