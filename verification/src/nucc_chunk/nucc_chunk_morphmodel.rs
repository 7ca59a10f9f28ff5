//! The morph model chunk: 28 bytes of data.

use vstd::prelude::*;

use crate::nucc_chunk::{NuccChunk, NuccChunkType};
use crate::nucc::xfbin::XfbinError;
use crate::bytes::{copy_range, push_bytes};

verus! {

/// A morph model chunk. The version is not part of the data: reading sets
/// it to zero, and writing leaves it out.
#[derive(Debug, Clone, PartialEq, Default)]
pub struct NuccChunkMorphModel {
    pub version: u16,
    pub data: Vec<u8>,
}

/// The morph model read at `p`: 28 bytes of data.
pub open spec fn spec_read_morph_model(s: Seq<u8>, p: int) -> Option<(Seq<u8>, int)> {
    if 0 <= p && p + 28 <= s.len() {
        Some((s.subrange(p, p + 28), p + 28))
    } else {
        None
    }
}

impl NuccChunkMorphModel {
    /// Reads a morph model at `pos`. The version argument is not used: the
    /// version field is left at zero.
    pub fn read(bytes: &[u8], pos: usize, version: u16) -> (r: Result<(NuccChunkMorphModel, usize), XfbinError>)
        ensures
            match r {
                Ok((m, q)) => spec_read_morph_model(bytes@, pos as int) == Some((m.data@, q as int))
                    && m.version == 0,
                Err(e) => spec_read_morph_model(bytes@, pos as int) is None && e == XfbinError::UnexpectedEof,
            },
    {
        if pos > bytes.len() || bytes.len() - pos < 28 {
            return Err(XfbinError::UnexpectedEof);
        }
        let data = copy_range(bytes, pos, pos + 28);
        Ok((NuccChunkMorphModel { version: 0, data }, pos + 28))
    }

    /// Appends the data of the morph model.
    pub fn write(&self, out: &mut Vec<u8>)
        ensures
            final(out)@ == old(out)@ + self.data@,
    {
        push_bytes(out, self.data.as_slice());
    }
}

/// A morph model with version zero and 28 bytes of data reads back as
/// written, wherever it is placed.
pub proof fn lemma_morph_model_roundtrip(pre: Seq<u8>, data: Seq<u8>, post: Seq<u8>)
    requires
        data.len() == 28,
    ensures
        spec_read_morph_model(pre + data + post, pre.len() as int) == Some(
            (data, pre.len() + 28int),
        ),
{
    let s = pre + data + post;
    assert(s.subrange(pre.len() as int, pre.len() + 28int) =~= data);
}

impl NuccChunk for NuccChunkMorphModel {
    fn chunk_type(&self) -> (r: NuccChunkType)
        ensures
            r == NuccChunkType::NuccChunkMorphModel,
    {
        NuccChunkType::NuccChunkMorphModel
    }

    fn version(&self) -> (r: u16)
        ensures
            r == self.version,
    {
        self.version
    }
}

} // verus!
