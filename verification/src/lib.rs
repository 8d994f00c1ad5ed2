//! Generator of "2048"-style puzzle boards from a catalog of protoboard
//! templates.
//!
//! A catalog text source groups 4x4 protoboard templates (grids of filled
//! and empty cells) by a tile-count class `t`.  A board is produced by
//! choosing a group, choosing a template by its ID, and assigning
//! power-of-two tile values to the filled cells from a base-11 digit
//! string, one digit per filled cell in row-major order.

pub mod base11;
pub mod catalog;
pub mod grid;
pub mod loader;
pub mod numbers;
pub mod render;
pub mod text;
pub mod wizard;
