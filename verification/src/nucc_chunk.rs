//! Chunk kinds, and the interface that every decoded chunk offers.

pub mod nucc_chunk_morphmodel;
pub mod page;

use vstd::prelude::*;

verus! {

/// The kinds of chunk.
#[derive(Debug, Clone, Copy, PartialEq, Eq)]
pub enum NuccChunkType {
    NuccChunkBinary,
    NuccChunkAnm,
    NuccChunkAnmStrm,
    NuccChunkAnmStrmFrame,
    NuccChunkCamera,
    NuccChunkLightDirc,
    NuccChunkLightPoint,
    NuccChunkLayerSet,
    NuccChunkAmbient,
    NuccChunkMorphModel,
    NuccChunkUnknown,
}

/// A decoded chunk: its kind and its version.
pub trait NuccChunk {
    fn chunk_type(&self) -> NuccChunkType;

    fn version(&self) -> u16;
}

} // verus!
