//! A text-mode top-down map of the solar system.
//!
//! The crate holds the positioning and rasterization engine: the coordinate
//! transform from heliocentric space to screen cells, ring rasterization by
//! angular sampling, priority-based compositing of overlapping writes onto a
//! shared character grid, and the view state the engine reads once per frame.
//! Positions are carried in micro-AU and the zoom factor in thousandths, so
//! that every step of the geometry is exact integer arithmetic.

pub mod bodies;
pub mod grid;
pub mod horizons;
pub mod numeric;
pub mod render;
pub mod view;
