//! Verified core of the Panea terminal: platform and render contracts, the
//! multiplexer model with its split trees and restore snapshots, input
//! decisions, frame scheduling, glyph atlas packing and caching, damage
//! tracking and merging, CPU frame drawing, and screenshot frame encoding.

pub mod atlas;
pub mod batch_raster;
pub mod batches;
pub mod cpu_raster;
pub mod cursor_assets;
pub mod cursor_fx;
pub mod damage;
pub mod damage_tracker;
pub mod desktop;
pub mod fixtures;
pub mod fonts;
pub mod glyph_cache;
pub mod glyph_placement;
pub mod input;
pub mod keyed;
pub mod mux;
pub mod mux_model;
pub mod mux_restore;
pub mod planner;
pub mod platform_core;
pub mod ppm;
pub mod raster;
pub mod render_core;
pub mod renderer;
pub mod schedule;
pub mod split_tree;
pub mod text;
