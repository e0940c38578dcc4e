//! Converts raster elevation images into a minimized set of axis-aligned
//! brick placements approximating the terrain, and serializes those
//! placements into the save-file formats of a brick-building game.
//!
//! The pipeline: pixel buffers are sampled into a [`grid::HeightGrid`] and an
//! optional [`grid::ColorGrid`]; the optimizer runs one of three merging
//! strategies (none / quadtree / greedy) over the grids, applying the
//! post-processing policies of [`options::GenOptions`]; the resulting brick
//! sequence is handed to the encoder, which lays the bricks out in game
//! units and serializes them.

pub mod error;
pub mod color;
pub mod options;
pub mod grid;
pub mod brick;
pub mod post;
pub mod cells;
pub mod reporter;
pub mod percell;
pub mod greedy;
pub mod quad;
pub mod optimizer;
pub mod sample;
pub mod encode;
pub mod pipeline;
