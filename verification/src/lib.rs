//! Light storage and propagation for a block world.
//!
//! Light is kept as 4-bit levels in 16x16x16 sections, in storage that whole
//! levels share (`section_storage`) or that each chunk owns (`chunk_light`).
//! Propagation works on a window of five by five chunks (`cache`,
//! `light_cache`, `workset`): `engine` spreads and takes back light,
//! `propagation` and `sky_runs` run whole passes. `equilibrium` states what a
//! pass achieves for block light; `sky_changes`, `sky_lighting`, `sky_edges`,
//! `sky_entering` and `sky_settling` state it for sky light, and `source_laws`
//! for the sources of stored sky light. Around that stand sections and palettes,
//! packets, and the bookkeeping of loaded chunks.
use vstd::prelude::*;

pub mod balance;
pub mod bit_set;
pub mod block_state;
pub mod broadcast;
pub mod cache;
pub mod chunk_lending;
pub mod chunk_light;
pub mod chunk_map;
pub mod count;
pub mod data_layer;
pub mod engine;
pub mod engine_laws;
pub mod engine_measure;
pub mod engine_model;
pub mod equilibrium;
pub mod fx;
pub mod layer_map;
pub mod light_cache;
pub mod light_stage;
pub mod neighbor_counts;
pub mod nibble;
pub mod notification;
pub mod packed;
pub mod packed_queue;
pub mod packet;
pub mod paletted_container;
pub mod pending;
pub mod position;
pub mod propagation;
pub mod queue;
pub mod relight;
pub mod scheduled_ticks;
pub mod section;
pub mod section_range;
pub mod section_storage;
pub mod sky_changes;
pub mod sky_edges;
pub mod sky_entering;
pub mod sky_lighting;
pub mod sky_model;
pub mod sky_propagation;
pub mod sky_runs;
pub mod sky_settling;
pub mod sky_sources;
pub mod sky_support;
pub mod source_laws;
pub mod storage_model;
pub mod support;
pub mod wire;
pub mod workset;

verus! {

/// Maximum light value stored by vanilla lighting.
pub const MAX_LIGHT_LEVEL: u8 = 15;

/// Minimum opacity used while propagating vanilla light.
pub const MIN_LIGHT_OPACITY: u8 = 1;

/// Opacity returned when a block face fully blocks light.
pub const LIGHT_BLOCKED: u8 = 16;

/// Vanilla stores one extra light section below and above the build height.
pub const LIGHT_SECTION_PADDING: i32 = 1;

/// Number of blocks along one edge of a light section.
pub const DATA_LAYER_EDGE: usize = 16;

/// Number of blocks in a light section.
pub const DATA_LAYER_BLOCK_COUNT: usize = 4096;

/// Number of packed bytes in a light section.
pub const DATA_LAYER_SIZE: usize = 2048;

/// Number of packed bytes in one horizontal layer of a light section.
pub const DATA_LAYER_Y_STRIDE: usize = 128;

/// Number of blocks along one edge of a chunk.
pub const CHUNK_EDGE: usize = 16;

/// Number of block columns in a chunk.
pub const CHUNK_COLUMN_COUNT: usize = 256;

/// Vanilla light layer kind.
#[derive(Debug, Clone, Copy, PartialEq, Eq, Hash, Structural)]
pub enum LightLayer {
    /// Sky light propagated from dimensions with skylight.
    Sky,
    /// Block light emitted by blocks.
    Block,
}

} // verus!
