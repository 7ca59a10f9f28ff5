//! Chunk payloads, the reader of the XFBIN container, and the structure
//! information that names each chunk.

pub mod nucc;
pub mod xfbin;
pub mod xfbin_laws;
pub mod xfbin_roundtrip;

use vstd::prelude::*;
use vstd::string::StringExecFns;

use crate::nucc_chunk::{NuccChunk, NuccChunkType};
use crate::xfbin_file::{XfbinChunkMap, XfbinChunkReference};

verus! {

/// The name, type and file path of a chunk.
#[derive(Debug, Default, PartialEq, Eq, Hash)]
pub struct NuccStructInfo {
    pub chunk_name: String,
    pub chunk_type: String,
    pub filepath: String,
}

impl Clone for NuccStructInfo {
    fn clone(&self) -> (r: Self)
        ensures
            r == *self,
    {
        NuccStructInfo {
            chunk_name: self.chunk_name.clone(),
            chunk_type: self.chunk_type.clone(),
            filepath: self.filepath.clone(),
        }
    }
}

/// The text `{ Name: "<name>", Type: "<type>", Path: "<path>" }`.
pub open spec fn struct_info_text(name: Seq<char>, chunk_type: Seq<char>, path: Seq<char>) -> Seq<
    char,
> {
    "{ Name: \""@ + name + "\", Type: \""@ + chunk_type + "\", Path: \""@ + path + "\" }"@
}

impl NuccStructInfo {
    /// The text `{ Name: "<name>", Type: "<type>", Path: "<path>" }`.
    pub fn to_string(&self) -> (r: String)
        ensures
            r@ == struct_info_text(self.chunk_name@, self.chunk_type@, self.filepath@),
    {
        let mut r = String::new();
        r.append("{ Name: \"");
        r.append(self.chunk_name.as_str());
        r.append("\", Type: \"");
        r.append(self.chunk_type.as_str());
        r.append("\", Path: \"");
        r.append(self.filepath.as_str());
        r.append("\" }");
        assert(r@ =~= struct_info_text(self.chunk_name@, self.chunk_type@, self.filepath@));
        r
    }
}

/// Chunk maps together with the name lists they index.
pub struct XfbinChunkMapConverter {
    pub chunk_maps: Vec<XfbinChunkMap>,
    pub chunk_names: Vec<String>,
    pub chunk_types: Vec<String>,
    pub filepaths: Vec<String>,
}

impl XfbinChunkMapConverter {
    /// Every index of every chunk map points into its list.
    pub open spec fn indices_in_range(&self) -> bool {
        forall|i: int|
            0 <= i < self.chunk_maps@.len() ==> {
                &&& (#[trigger] self.chunk_maps@[i]).chunk_name_index < self.chunk_names@.len()
                &&& self.chunk_maps@[i].chunk_type_index < self.chunk_types@.len()
                &&& self.chunk_maps@[i].filepath_index < self.filepaths@.len()
            }
    }

    /// One structure information per chunk map, in order, with the name,
    /// type and path that its indices select.
    pub fn into_struct_infos(self) -> (r: Vec<NuccStructInfo>)
        requires
            self.indices_in_range(),
        ensures
            r@.len() == self.chunk_maps@.len(),
            forall|i: int|
                0 <= i < r@.len() ==> {
                    &&& (#[trigger] r@[i]).chunk_name@ == self.chunk_names@[self.chunk_maps@[i].chunk_name_index as int]@
                    &&& r@[i].chunk_type@ == self.chunk_types@[self.chunk_maps@[i].chunk_type_index as int]@
                    &&& r@[i].filepath@ == self.filepaths@[self.chunk_maps@[i].filepath_index as int]@
                },
    {
        let mut r: Vec<NuccStructInfo> = Vec::new();
        let mut i: usize = 0;
        while i < self.chunk_maps.len()
            invariant
                i <= self.chunk_maps@.len(),
                self.indices_in_range(),
                r@.len() == i,
                forall|k: int|
                    0 <= k < i ==> {
                        &&& (#[trigger] r@[k]).chunk_name@ == self.chunk_names@[self.chunk_maps@[k].chunk_name_index as int]@
                        &&& r@[k].chunk_type@ == self.chunk_types@[self.chunk_maps@[k].chunk_type_index as int]@
                        &&& r@[k].filepath@ == self.filepaths@[self.chunk_maps@[k].filepath_index as int]@
                    },
            decreases self.chunk_maps@.len() - i,
        {
            let c = self.chunk_maps[i];
            assert(c == self.chunk_maps@[i as int]);
            r.push(
                NuccStructInfo {
                    chunk_name: self.chunk_names[c.chunk_name_index as usize].clone(),
                    chunk_type: self.chunk_types[c.chunk_type_index as usize].clone(),
                    filepath: self.filepaths[c.filepath_index as usize].clone(),
                },
            );
            i = i + 1;
        }
        r
    }
}

/// A chunk name paired with the structure it refers to.
#[derive(Debug, Default, PartialEq, Eq, Hash)]
pub struct NuccStructReference {
    pub chunk_name: String,
    pub struct_info: NuccStructInfo,
}

impl Clone for NuccStructReference {
    fn clone(&self) -> (r: Self)
        ensures
            r == *self,
    {
        NuccStructReference {
            chunk_name: self.chunk_name.clone(),
            struct_info: self.struct_info.clone(),
        }
    }
}

/// Chunk references together with the lists they index.
pub struct XfbinChunkReferenceConverter {
    pub references: Vec<XfbinChunkReference>,
    pub chunk_names: Vec<String>,
    pub struct_infos: Vec<NuccStructInfo>,
}

impl XfbinChunkReferenceConverter {
    /// Every index of every reference points into its list.
    pub open spec fn indices_in_range(&self) -> bool {
        forall|i: int|
            0 <= i < self.references@.len() ==> {
                &&& (#[trigger] self.references@[i]).chunk_name_index < self.chunk_names@.len()
                &&& self.references@[i].chunk_map_index < self.struct_infos@.len()
            }
    }

    /// One structure reference per chunk reference, in order, with the name
    /// and structure information that its indices select.
    pub fn into_struct_references(self) -> (r: Vec<NuccStructReference>)
        requires
            self.indices_in_range(),
        ensures
            r@.len() == self.references@.len(),
            forall|i: int|
                0 <= i < r@.len() ==> {
                    &&& (#[trigger] r@[i]).chunk_name@ == self.chunk_names@[self.references@[i].chunk_name_index as int]@
                    &&& r@[i].struct_info == self.struct_infos@[self.references@[i].chunk_map_index as int]
                },
    {
        let mut r: Vec<NuccStructReference> = Vec::new();
        let mut i: usize = 0;
        while i < self.references.len()
            invariant
                i <= self.references@.len(),
                self.indices_in_range(),
                r@.len() == i,
                forall|k: int|
                    0 <= k < i ==> {
                        &&& (#[trigger] r@[k]).chunk_name@ == self.chunk_names@[self.references@[k].chunk_name_index as int]@
                        &&& r@[k].struct_info == self.struct_infos@[self.references@[k].chunk_map_index as int]
                    },
            decreases self.references@.len() - i,
        {
            let c = self.references[i];
            assert(c == self.references@[i as int]);
            r.push(
                NuccStructReference {
                    chunk_name: self.chunk_names[c.chunk_name_index as usize].clone(),
                    struct_info: self.struct_infos[c.chunk_map_index as usize].clone(),
                },
            );
            i = i + 1;
        }
        r
    }
}

/// A decoded chunk with the structure information and references of its
/// page.
pub struct NuccStructConverter {
    pub nucc_chunk: Box<dyn NuccChunk>,
    pub struct_infos: Vec<NuccStructInfo>,
    pub struct_references: Vec<NuccStructReference>,
}

/// Access to the structure information of a decoded structure.
pub trait NuccInfo {
    fn struct_info(&self) -> &NuccStructInfo;

    fn struct_info_mut(&mut self) -> &mut NuccStructInfo;
}

/// A decoded structure: its kind and its version.
pub trait NuccStruct: NuccInfo {
    fn chunk_type(&self) -> NuccChunkType;

    fn version(&self) -> u16;
}

} // verus!
