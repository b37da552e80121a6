//! Tile streaming cache and LOD-selection quadtree for a multi-resolution
//! terrain dataset.
//!
//! The library decides, per observer, which quadtree nodes of a terrain are
//! needed each frame, arbitrates a bounded set of tile slots shared by all
//! observers of the terrain, and publishes a resolution table that only ever
//! references loaded slots: rendering never touches unloaded data.
//!
//! The frame pipeline is single-writer and strictly ordered: drain loader
//! completions, traverse every observer's tree, admit or evict for the
//! aggregated request set, dispatch new loads, publish resolution entries and
//! surface approximations. Disk reads, decoding and GPU uploads live outside
//! this crate; they hand in plain byte payloads and take plain records back.

pub mod atlas;
pub mod attachment;
pub mod config;
pub mod coordinate;
pub mod pipeline;
pub mod records;
pub mod registry;
pub mod surface;
pub mod tree;
