//! The payload of a chunk in an XFBIN page.

use vstd::prelude::*;

verus! {

/// What a chunk holds: the page trailer, or raw bytes.
#[derive(Debug, Clone)]
pub enum NuccChunk {
    NuccPage(NuccPage),
    NuccBinary(Vec<u8>),
    Unknown(Vec<u8>),
}

/// The trailer chunk that closes every page.
#[derive(Debug, Clone, Copy, PartialEq, Eq)]
pub struct NuccPage {
    pub page_size: u32,
    pub reference_size: u32,
}

/// The mathematical value of a [`NuccChunk`].
pub enum SpecNuccChunk {
    NuccPage(NuccPage),
    NuccBinary(Seq<u8>),
    Unknown(Seq<u8>),
}

impl View for NuccChunk {
    type V = SpecNuccChunk;

    open spec fn view(&self) -> SpecNuccChunk {
        match self {
            NuccChunk::NuccPage(p) => SpecNuccChunk::NuccPage(*p),
            NuccChunk::NuccBinary(b) => SpecNuccChunk::NuccBinary(b@),
            NuccChunk::Unknown(b) => SpecNuccChunk::Unknown(b@),
        }
    }
}

impl NuccChunk {
    /// The raw bytes of a binary or unknown chunk; a page trailer has none.
    pub fn as_bytes(&self) -> (r: Vec<u8>)
        requires
            !(self is NuccPage),
        ensures
            self matches NuccChunk::NuccBinary(b) ==> r@ == b@,
            self matches NuccChunk::Unknown(b) ==> r@ == b@,
    {
        match self {
            NuccChunk::NuccBinary(bytes) => vstd::slice::slice_to_vec(bytes.as_slice()),
            NuccChunk::Unknown(bytes) => vstd::slice::slice_to_vec(bytes.as_slice()),
            NuccChunk::NuccPage(_) => Vec::new(),
        }
    }
}

} // verus!
