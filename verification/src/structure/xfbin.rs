//! XFBIN structures with tagged chunk payloads, and lookups of type names in
//! the chunk table.

use vstd::prelude::*;

use crate::nucc::xfbin::names_view;
use crate::text::{null_string_text, null_string_to_string};

verus! {

/// A whole file.
#[derive(Debug, Default, Clone)]
pub struct Xfbin {
    pub header: NuccHeader,
    pub chunk_table: NuccChunkTable,
    pub pages: Vec<Page>,
}

/// The file header.
#[derive(Debug, Default, Clone, Copy, PartialEq, Eq)]
pub struct NuccHeader {
    pub version: u32,
    pub chunk_table_size: u32,
    pub min_page_size: u32,
    pub version1: u16,
    pub field1_a: u16,
}

/// The chunk table; names are kept as their raw bytes.
#[derive(Debug, Default, Clone)]
pub struct NuccChunkTable {
    pub chunk_type_count: u32,
    pub chunk_type_size: u32,
    pub filepath_count: u32,
    pub filepath_size: u32,
    pub chunk_name_count: u32,
    pub chunk_name_size: u32,
    pub chunk_map_count: u32,
    pub chunk_map_size: u32,
    pub chunk_map_indices_count: u32,
    pub chunk_map_references_count: u32,
    pub chunk_types: Vec<Vec<u8>>,
    pub filepaths: Vec<Vec<u8>>,
    pub chunk_names: Vec<Vec<u8>>,
    pub chunk_maps: Vec<ChunkMap>,
    pub chunk_map_references: Vec<ChunkReference>,
    pub chunk_map_indices: Vec<u32>,
}

/// Indices of a chunk's type, file path and name.
#[derive(Debug, Clone, Copy, PartialEq, Eq)]
pub struct ChunkMap {
    pub chunk_type_index: u32,
    pub filepath_index: u32,
    pub chunk_name_index: u32,
}

/// A reference from a chunk name to a chunk map.
#[derive(Debug, Clone, Copy, PartialEq, Eq)]
pub struct ChunkReference {
    pub chunk_name_index: u32,
    pub chunk_map_index: u32,
}

/// A chunk and its payload.
#[derive(Debug, Clone)]
pub struct Chunk {
    pub size: u32,
    pub chunk_map_index: u32,
    pub version: u16,
    pub field0_a: u16,
    pub data: ChunkData,
}

/// The payload of a chunk.
#[derive(Debug, Clone)]
pub enum ChunkData {
    NuccChunkNull { data: Vec<u8> },
    NuccChunkPage { page_size: u32, extra_indices_size: u32 },
    NuccChunkBinary { data: Vec<u8> },
    UnknownChunk { data: Vec<u8> },
}

/// A page of chunks.
#[derive(Debug, Default, Clone)]
pub struct Page {
    pub chunks: Vec<Chunk>,
}

/// The trailer of a page.
#[derive(Debug, Default, Clone, Copy, PartialEq, Eq)]
pub struct NuccChunkPage {
    pub page_size: u32,
    pub extra_indices_size: u32,
}

impl NuccChunkTable {
    /// The type name, file path and chunk name of the chunk map at
    /// `chunk_map_index`, as text.
    pub fn get_chunk_info(&self, chunk_map_index: u32) -> (r: (String, String, String))
        requires
            chunk_map_index < self.chunk_maps@.len(),
            self.chunk_maps@[chunk_map_index as int].chunk_type_index < self.chunk_types@.len(),
            self.chunk_maps@[chunk_map_index as int].filepath_index < self.filepaths@.len(),
            self.chunk_maps@[chunk_map_index as int].chunk_name_index < self.chunk_names@.len(),
        ensures
            ({
                let m = self.chunk_maps@[chunk_map_index as int];
                &&& r.0@ == null_string_text(self.chunk_types@[m.chunk_type_index as int]@)
                &&& r.1@ == null_string_text(self.filepaths@[m.filepath_index as int]@)
                &&& r.2@ == null_string_text(self.chunk_names@[m.chunk_name_index as int]@)
            }),
    {
        let chunk_map = &self.chunk_maps[chunk_map_index as usize];
        let chunk_type = null_string_to_string(&self.chunk_types[chunk_map.chunk_type_index as usize]);
        let filepath = null_string_to_string(&self.filepaths[chunk_map.filepath_index as usize]);
        let chunk_name = null_string_to_string(&self.chunk_names[chunk_map.chunk_name_index as usize]);
        (chunk_type, filepath, chunk_name)
    }
}

/// The type name of `chunk_map`, as text.
pub fn get_chunk_map_type(chunk_map: &ChunkMap, xfbin: &Xfbin) -> (r: String)
    requires
        chunk_map.chunk_type_index < xfbin.chunk_table.chunk_types@.len(),
    ensures
        r@ == null_string_text(names_view(xfbin.chunk_table.chunk_types@)[chunk_map.chunk_type_index as int]),
{
    get_chunk_type(chunk_map.chunk_type_index, xfbin)
}

/// The type name at `index`, as text.
pub fn get_chunk_type(index: u32, xfbin: &Xfbin) -> (r: String)
    requires
        index < xfbin.chunk_table.chunk_types@.len(),
    ensures
        r@ == null_string_text(names_view(xfbin.chunk_table.chunk_types@)[index as int]),
{
    null_string_to_string(&xfbin.chunk_table.chunk_types[index as usize])
}

} // verus!
