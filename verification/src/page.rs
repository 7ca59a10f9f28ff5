//! The page description that names a page's chunk maps, references and
//! chunk files.

use vstd::prelude::*;

verus! {

/// A chunk: its name, type and path.
#[derive(Debug, Clone)]
pub struct Chunk {
    pub name: String,
    pub types: String,
    pub path: String,
}

/// A list of chunks.
#[derive(Debug, Clone)]
pub struct ChunkMap {
    pub chunk_maps: Vec<Chunk>,
}

/// A named reference to a chunk.
#[derive(Debug, Clone)]
pub struct ChunkReference {
    pub name: String,
    pub chunk: Chunk,
}

/// The file a chunk is stored in.
#[derive(Debug, Clone)]
pub struct Files {
    pub file_name: String,
    pub chunk: Chunk,
}

/// A page: its chunk maps, chunk references and chunk files.
#[derive(Debug, Default, Clone)]
pub struct Page {
    pub chunk_maps: Vec<Chunk>,
    pub chunk_references: Vec<ChunkReference>,
    pub files: Vec<Files>,
}

} // verus!
