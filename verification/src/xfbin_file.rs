//! Index records of a chunk table, as the converters to structure
//! information take them.

use vstd::prelude::*;

verus! {

/// Indices of a chunk's type, file path and name.
#[derive(Debug, Clone, Copy, PartialEq, Eq)]
pub struct XfbinChunkMap {
    pub chunk_type_index: u32,
    pub filepath_index: u32,
    pub chunk_name_index: u32,
}

/// Indices of a chunk name and of a chunk map.
#[derive(Debug, Clone, Copy, PartialEq, Eq)]
pub struct XfbinChunkReference {
    pub chunk_name_index: u32,
    pub chunk_map_index: u32,
}

} // verus!
