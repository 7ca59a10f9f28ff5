//! Reading a whole file into the structures with tagged chunk payloads.
//!
//! The header and the chunk table are laid out as in every XFBIN file. The
//! pages that follow are read with an empty chunk table, in which the chunk
//! map of a chunk cannot be looked up: a file can be read only where fewer
//! than the twelve bytes that start a chunk follow its chunk table, and it
//! then has no pages.

use vstd::prelude::*;

use crate::nucc::xfbin as container;
use crate::nucc::xfbin::{
    error_for, error_of, names_view, parse_chunk_table, parse_header, spec_read_chunk_table,
    spec_read_header, ReadFault, SpecChunkTable, Step, XfbinError,
};
use crate::structure::xfbin::{ChunkMap, ChunkReference, NuccChunkTable, NuccHeader, Xfbin};

verus! {

/// Reading `s` gets past the chunk table to the first chunk of a page.
pub open spec fn tagged_read_reaches_chunk(s: Seq<u8>) -> bool {
    &&& spec_read_header(s) matches Step::Done(_, p)
    &&& spec_read_chunk_table(s, p) matches Step::Done(_, q)
    &&& q + 12 <= s.len()
}

/// The header and the chunk table of a file.
pub open spec fn spec_read_tagged_xfbin(s: Seq<u8>) -> Result<
    (container::NuccHeader, SpecChunkTable),
    ReadFault,
> {
    match spec_read_header(s) {
        Step::Fault(f) => Err(f),
        Step::Done(header, p) => match spec_read_chunk_table(s, p) {
            Step::Fault(f) => Err(f),
            Step::Done(table, _) => Ok((header, table)),
        },
    }
}

/// The header `h` as these structures hold it.
pub open spec fn tagged_header_from(h: container::NuccHeader) -> NuccHeader {
    NuccHeader {
        version: h.version,
        chunk_table_size: h.chunk_table_size,
        min_page_size: h.min_page_size,
        version1: h.file_id,
        field1_a: h.field1_a,
    }
}

/// The chunk map `m` as these structures hold it.
pub open spec fn tagged_chunk_map_from(m: container::ChunkMap) -> ChunkMap {
    ChunkMap {
        chunk_type_index: m.chunk_type_index,
        filepath_index: m.filepath_index,
        chunk_name_index: m.chunk_name_index,
    }
}

/// The chunk reference `r` as these structures hold it.
pub open spec fn tagged_chunk_reference_from(r: container::ChunkReference) -> ChunkReference {
    ChunkReference { chunk_name_index: r.chunk_name_index, chunk_map_index: r.chunk_map_index }
}

/// `x` holds the chunk table `t`.
pub open spec fn tagged_table_matches(x: NuccChunkTable, t: SpecChunkTable) -> bool {
    &&& x.chunk_type_count == t.chunk_type_count
    &&& x.chunk_type_size == t.chunk_type_size
    &&& x.filepath_count == t.filepath_count
    &&& x.filepath_size == t.filepath_size
    &&& x.chunk_name_count == t.chunk_name_count
    &&& x.chunk_name_size == t.chunk_name_size
    &&& x.chunk_map_count == t.chunk_map_count
    &&& x.chunk_map_size == t.chunk_map_size
    &&& x.chunk_map_indices_count == t.chunk_map_indices_count
    &&& x.chunk_map_references_count == t.chunk_map_references_count
    &&& names_view(x.chunk_types@) == t.chunk_types
    &&& names_view(x.filepaths@) == t.filepaths
    &&& names_view(x.chunk_names@) == t.chunk_names
    &&& x.chunk_maps@ == t.chunk_maps.map_values(|m: container::ChunkMap| tagged_chunk_map_from(m))
    &&& x.chunk_map_references@ == t.chunk_map_references.map_values(
        |r: container::ChunkReference| tagged_chunk_reference_from(r),
    )
    &&& x.chunk_map_indices@ == t.chunk_map_indices
}

/// The chunk table as these structures hold it.
fn tagged_table(t: container::NuccChunkTable) -> (r: NuccChunkTable)
    ensures
        tagged_table_matches(r, t@),
{
    let ghost tv = t@;
    let mut chunk_maps: Vec<ChunkMap> = Vec::new();
    let mut i: usize = 0;
    while i < t.chunk_maps.len()
        invariant
            i <= t.chunk_maps@.len(),
            tv == t@,
            chunk_maps@ == tv.chunk_maps.take(i as int).map_values(
                |m: container::ChunkMap| tagged_chunk_map_from(m),
            ),
        decreases t.chunk_maps@.len() - i,
    {
        let m = t.chunk_maps[i];
        chunk_maps.push(
            ChunkMap {
                chunk_type_index: m.chunk_type_index,
                filepath_index: m.filepath_index,
                chunk_name_index: m.chunk_name_index,
            },
        );
        assert(tv.chunk_maps.take(i + 1) =~= tv.chunk_maps.take(i as int).push(m));
        assert(chunk_maps@ =~= tv.chunk_maps.take(i + 1).map_values(
            |m: container::ChunkMap| tagged_chunk_map_from(m),
        ));
        i = i + 1;
    }
    assert(tv.chunk_maps.take(i as int) =~= tv.chunk_maps);
    let mut references: Vec<ChunkReference> = Vec::new();
    let mut j: usize = 0;
    while j < t.chunk_map_references.len()
        invariant
            j <= t.chunk_map_references@.len(),
            tv == t@,
            references@ == tv.chunk_map_references.take(j as int).map_values(
                |r: container::ChunkReference| tagged_chunk_reference_from(r),
            ),
        decreases t.chunk_map_references@.len() - j,
    {
        let r = t.chunk_map_references[j];
        references.push(
            ChunkReference {
                chunk_name_index: r.chunk_name_index,
                chunk_map_index: r.chunk_map_index,
            },
        );
        assert(tv.chunk_map_references.take(j + 1) =~= tv.chunk_map_references.take(
            j as int,
        ).push(r));
        assert(references@ =~= tv.chunk_map_references.take(j + 1).map_values(
            |r: container::ChunkReference| tagged_chunk_reference_from(r),
        ));
        j = j + 1;
    }
    assert(tv.chunk_map_references.take(j as int) =~= tv.chunk_map_references);
    NuccChunkTable {
        chunk_type_count: t.chunk_type_count,
        chunk_type_size: t.chunk_type_size,
        filepath_count: t.filepath_count,
        filepath_size: t.filepath_size,
        chunk_name_count: t.chunk_name_count,
        chunk_name_size: t.chunk_name_size,
        chunk_map_count: t.chunk_map_count,
        chunk_map_size: t.chunk_map_size,
        chunk_map_indices_count: t.chunk_map_indices_count,
        chunk_map_references_count: t.chunk_map_references_count,
        chunk_types: t.chunk_types,
        filepaths: t.filepaths,
        chunk_names: t.chunk_names,
        chunk_maps,
        chunk_map_references: references,
        chunk_map_indices: t.chunk_map_indices,
    }
}

impl Xfbin {
    /// Reads a whole file: the header and the chunk table. No page follows
    /// in a file that can be read (see the module's documentation).
    pub fn read_be(bytes: &[u8]) -> (r: Result<Xfbin, XfbinError>)
        requires
            !tagged_read_reaches_chunk(bytes@),
        ensures
            match r {
                Ok(x) => spec_read_tagged_xfbin(bytes@) matches Ok((h, t)) && x.header
                    == tagged_header_from(h) && tagged_table_matches(x.chunk_table, t)
                    && x.pages@.len() == 0,
                Err(e) => spec_read_tagged_xfbin(bytes@) matches Err(f) && e == error_of(f),
            },
    {
        let (h, p) = match parse_header(bytes) {
            Ok(hp) => hp,
            Err(f) => {
                return Err(error_for(f));
            },
        };
        let (t, _) = match parse_chunk_table(bytes, p) {
            Ok(tq) => tq,
            Err(f) => {
                return Err(error_for(f));
            },
        };
        let header = NuccHeader {
            version: h.version,
            chunk_table_size: h.chunk_table_size,
            min_page_size: h.min_page_size,
            version1: h.file_id,
            field1_a: h.field1_a,
        };
        Ok(Xfbin { header, chunk_table: tagged_table(t), pages: Vec::new() })
    }
}

} // verus!

verus! {

/// A chunk table held in these structures has the chunk maps and chunk
/// references of the table read, each field under its own name: the type,
/// file path and chunk name indices of every chunk map, and the chunk name
/// and chunk map indices of every chunk reference.
pub proof fn lemma_tagged_table_matches_fields(x: NuccChunkTable, t: SpecChunkTable)
    requires
        tagged_table_matches(x, t),
    ensures
        x.chunk_maps@.len() == t.chunk_maps.len(),
        forall|i: int|
            0 <= i < t.chunk_maps.len() ==> {
                &&& (#[trigger] x.chunk_maps@[i]).chunk_type_index == t.chunk_maps[i].chunk_type_index
                &&& x.chunk_maps@[i].filepath_index == t.chunk_maps[i].filepath_index
                &&& x.chunk_maps@[i].chunk_name_index == t.chunk_maps[i].chunk_name_index
            },
        x.chunk_map_references@.len() == t.chunk_map_references.len(),
        forall|i: int|
            0 <= i < t.chunk_map_references.len() ==> {
                &&& (#[trigger] x.chunk_map_references@[i]).chunk_name_index
                    == t.chunk_map_references[i].chunk_name_index
                &&& x.chunk_map_references@[i].chunk_map_index
                    == t.chunk_map_references[i].chunk_map_index
            },
{
}

} // verus!
