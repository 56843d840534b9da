//! Chunked ("bricked") storage engine for dense multi-dimensional numeric
//! volumes (1-6 dimensions).
//!
//! The volume is partitioned into fixed-size bricks; each brick is persisted
//! independently (optionally compressed) through a pluggable storage backend.
//! Arbitrary axis-aligned sub-volumes ("slices") are reconstructed by fetching
//! and stitching together only the bricks that overlap the requested region.
//!
//! This crate holds the verified core: brick geometry (coordinate and index
//! arithmetic), the codecs, and the byte-level scatter/gather that assembles a
//! slice from brick buffers or overlays a slice into them. Asynchronous
//! storage I/O is left to the embedding application, which hands the fetched
//! brick buffers to the functions in [`access`].

pub mod access;
pub mod compression;
pub mod error;
pub mod indexing;
pub mod io;
pub mod layout;
pub mod metadata;
pub mod types;
pub mod utils;

pub use compression::{CompressionMethod, Compressor};
pub use error::VdsError;
pub use io::{FileSystemIOManager, StorageBackend};
pub use layout::{BrickSize, VolumeDataLayout};
pub use metadata::VdsMetadata;
pub use types::{AxisDescriptor, DataType, Dimension};

use vstd::prelude::*;

verus! {

/// Version of this implementation, for display purposes.
pub const OPENVDS_VERSION: &'static str = "0.1.0";

} // verus!
