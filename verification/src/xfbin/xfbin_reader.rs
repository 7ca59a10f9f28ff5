//! Reading a whole file into the structures whose chunks carry their type
//! name as text.
//!
//! The header and the chunk table are laid out as in every XFBIN file. Pages
//! follow until the data ends: a page is a run of chunks closed by the chunk
//! whose chunk map index is 2, and each chunk is its size, its chunk map
//! index, two 16-bit fields and `size` bytes of payload. Once everything is
//! read, each chunk gets the type name that the chunk table gives its chunk
//! map index.

use vstd::prelude::*;

use crate::bytes::{copy_range, read_u16_be, read_u32_be, u16_at, u32_at};
use crate::nucc::xfbin as container;
use crate::nucc::xfbin::{
    error_for, error_of, names_view, parse_chunk_table, parse_header, prefix_step,
    spec_read_chunk_table, spec_read_header, ReadFault, SpecChunkTable, Step, XfbinError,
};
use crate::xfbin::structure::xfbin::{
    chunks_view, pages_view, typed_pages, Chunk, ChunkData, ChunkMap, ChunkReference,
    NuccChunkTable, NuccHeader, Page, SpecChunk, SpecChunkData, Xfbin,
};

verus! {

/// The chunk map index that marks the last chunk of a page.
pub open spec fn page_trailer_index() -> u32 {
    2
}

/// The chunk at `p`: its size, chunk map index, version and a 16-bit field
/// (twelve bytes), then `size` bytes of payload. The payload of the chunk
/// with index 2 is the page trailer; every other payload is kept as it is.
/// Until the types are filled in, a chunk's type name is `Unknown`.
pub open spec fn spec_read_structure_chunk(s: Seq<u8>, p: int) -> Step<SpecChunk> {
    if p < 0 || p + 12 > s.len() {
        Step::Fault(ReadFault::UnexpectedEof)
    } else if p + 12 + u32_at(s, p) > s.len() {
        Step::Fault(ReadFault::TruncatedChunk)
    } else {
        let size = u32_at(s, p);
        let chunk_map_index = u32_at(s, p + 4);
        let body = s.subrange(p + 12, p + 12 + size);
        Step::Done(
            SpecChunk {
                size,
                chunk_map_index,
                version: u16_at(s, p + 8),
                field0_a: u16_at(s, p + 10),
                chunk_type: "Unknown"@,
                data: if chunk_map_index == page_trailer_index() {
                    SpecChunkData::NuccChunkPage(body)
                } else {
                    SpecChunkData::UnknownChunk(body)
                },
            },
            p + 12 + size,
        )
    }
}

/// A chunk read at `p` ends at least twelve bytes further on.
pub proof fn lemma_structure_chunk_advances(s: Seq<u8>, p: int)
    ensures
        spec_read_structure_chunk(s, p) matches Step::Done(_, q) ==> p + 12 <= q <= s.len(),
{
}

/// The chunks of a page at `p`, up to and including the first page trailer.
pub open spec fn spec_read_structure_page(s: Seq<u8>, p: int) -> Step<Seq<SpecChunk>>
    decreases s.len() - p,
{
    match spec_read_structure_chunk(s, p) {
        Step::Fault(f) => Step::Fault(f),
        Step::Done(c, q) => if c.data is NuccChunkPage {
            Step::Done(seq![c], q)
        } else {
            proof {
                lemma_structure_chunk_advances(s, p);
            }
            prefix_step(seq![c], spec_read_structure_page(s, q))
        },
    }
}

/// A page read at `p` ends at least twelve bytes further on.
pub proof fn lemma_structure_page_advances(s: Seq<u8>, p: int)
    ensures
        spec_read_structure_page(s, p) matches Step::Done(_, q) ==> p + 12 <= q <= s.len(),
    decreases s.len() - p,
{
    lemma_structure_chunk_advances(s, p);
    if let Step::Done(c, q) = spec_read_structure_chunk(s, p) {
        if !(c.data is NuccChunkPage) {
            lemma_structure_page_advances(s, q);
        }
    }
}

/// Pages from `p` on until the data ends. A page that the data ends inside
/// of (within the twelve bytes that start a chunk) is dropped; a payload
/// that runs past the end is an error.
pub open spec fn spec_read_structure_pages(s: Seq<u8>, p: int) -> Step<Seq<Seq<SpecChunk>>>
    decreases s.len() - p,
{
    match spec_read_structure_page(s, p) {
        Step::Fault(f) => if f is UnexpectedEof {
            Step::Done(Seq::empty(), p)
        } else {
            Step::Fault(f)
        },
        Step::Done(cs, q) => {
            proof {
                lemma_structure_page_advances(s, p);
            }
            prefix_step(seq![cs], spec_read_structure_pages(s, q))
        },
    }
}

/// At or past the end of the data no page is read.
pub proof fn lemma_structure_pages_past_end(s: Seq<u8>, p: int)
    requires
        p >= s.len(),
    ensures
        spec_read_structure_pages(s, p) == Step::Done(Seq::<Seq<SpecChunk>>::empty(), p),
{
    assert(spec_read_structure_chunk(s, p) == Step::<SpecChunk>::Fault(ReadFault::UnexpectedEof));
}

/// A whole file: the header, the chunk table, and the pages as read, before
/// their chunks get their type names.
pub open spec fn spec_read_structure_xfbin(s: Seq<u8>) -> Result<
    (container::NuccHeader, SpecChunkTable, Seq<Seq<SpecChunk>>),
    ReadFault,
> {
    match spec_read_header(s) {
        Step::Fault(f) => Err(f),
        Step::Done(header, p) => match spec_read_chunk_table(s, p) {
            Step::Fault(f) => Err(f),
            Step::Done(table, q) => match spec_read_structure_pages(s, q) {
                Step::Fault(f) => Err(f),
                Step::Done(pages, _) => Ok((header, table, pages)),
            },
        },
    }
}

/// The header `h` as these structures hold it.
pub open spec fn header_from(h: container::NuccHeader) -> NuccHeader {
    NuccHeader {
        version: h.version,
        chunk_table_size: h.chunk_table_size,
        min_page_size: h.min_page_size,
        version1: h.file_id,
        field1_a: h.field1_a,
    }
}

/// The chunk map `m` as these structures hold it.
pub open spec fn chunk_map_from(m: container::ChunkMap) -> ChunkMap {
    ChunkMap {
        chunk_type_index: m.chunk_type_index,
        filepath_index: m.filepath_index,
        chunk_name_index: m.chunk_name_index,
    }
}

/// The chunk reference `r` as these structures hold it.
pub open spec fn chunk_reference_from(r: container::ChunkReference) -> ChunkReference {
    ChunkReference { chunk_name_index: r.chunk_name_index, chunk_map_index: r.chunk_map_index }
}

/// `x` holds the chunk table `t`.
pub open spec fn table_matches(x: NuccChunkTable, t: SpecChunkTable) -> bool {
    &&& x.chunk_type_count == t.chunk_type_count
    &&& x.chunk_type_size == t.chunk_type_size
    &&& x.filepath_count == t.filepath_count
    &&& x.filepath_size == t.filepath_size
    &&& x.chunk_name_count == t.chunk_name_count
    &&& x.chunk_name_size == t.chunk_name_size
    &&& x.chunk_map_count == t.chunk_map_count
    &&& x.chunk_map_size == t.chunk_map_size
    &&& x.chunk_map_indices_count == t.chunk_map_indices_count
    &&& x.chunk_map_references_count == t.chunk_map_references_count
    &&& names_view(x.chunk_types@) == t.chunk_types
    &&& names_view(x.filepaths@) == t.filepaths
    &&& names_view(x.chunk_names@) == t.chunk_names
    &&& x.chunk_maps@ == t.chunk_maps.map_values(|m: container::ChunkMap| chunk_map_from(m))
    &&& x.chunk_map_references@ == t.chunk_map_references.map_values(
        |r: container::ChunkReference| chunk_reference_from(r),
    )
    &&& x.chunk_map_indices@ == t.chunk_map_indices
}

/// A chunk table that was read holds as many chunk maps as its count says.
pub proof fn lemma_read_table_map_count(s: Seq<u8>, p: int)
    ensures
        spec_read_chunk_table(s, p) matches Step::Done(t, _) ==> t.chunk_maps.len()
            == t.chunk_map_count,
{
    reveal(spec_read_chunk_table);
}

/// Reads one chunk at `pos`.
fn parse_structure_chunk(bytes: &[u8], pos: usize) -> (r: Result<(Chunk, usize), ReadFault>)
    ensures
        match r {
            Ok((c, q)) => spec_read_structure_chunk(bytes@, pos as int) == Step::Done(
                c@,
                q as int,
            ),
            Err(f) => spec_read_structure_chunk(bytes@, pos as int) == Step::<SpecChunk>::Fault(f),
        },
{
    if pos > bytes.len() || bytes.len() - pos < 12 {
        return Err(ReadFault::UnexpectedEof);
    }
    let size = read_u32_be(bytes, pos);
    let chunk_map_index = read_u32_be(bytes, pos + 4);
    let version = read_u16_be(bytes, pos + 8);
    let field0_a = read_u16_be(bytes, pos + 10);
    let start = pos + 12;
    if bytes.len() - start < size as usize {
        return Err(ReadFault::TruncatedChunk);
    }
    let end = start + size as usize;
    let body = copy_range(bytes, start, end);
    let data = if chunk_map_index == 2 {
        ChunkData::NuccChunkPage { data: body }
    } else {
        ChunkData::UnknownChunk { data: body }
    };
    let chunk_type = "Unknown".to_owned();
    Ok((Chunk { size, chunk_map_index, version, field0_a, chunk_type, data }, end))
}

/// Reads the chunks of one page at `pos`.
fn parse_structure_page(bytes: &[u8], pos: usize) -> (r: Result<(Page, usize), ReadFault>)
    ensures
        match r {
            Ok((pg, q)) => spec_read_structure_page(bytes@, pos as int) == Step::Done(
                pg@,
                q as int,
            ),
            Err(f) => spec_read_structure_page(bytes@, pos as int) == Step::<Seq<SpecChunk>>::Fault(
                f,
            ),
        },
{
    let ghost s = bytes@;
    if pos > bytes.len() {
        return Err(ReadFault::UnexpectedEof);
    }
    let mut chunks: Vec<Chunk> = Vec::new();
    let mut p = pos;
    assert(prefix_step(chunks_view(chunks@), spec_read_structure_page(s, p as int))
        == spec_read_structure_page(s, pos as int)) by {
        if let Step::Done(v, r) = spec_read_structure_page(s, p as int) {
            assert(chunks_view(chunks@) + v =~= v);
        }
    }
    loop
        invariant
            bytes@ == s,
            p <= s.len(),
            prefix_step(chunks_view(chunks@), spec_read_structure_page(s, p as int))
                == spec_read_structure_page(s, pos as int),
        decreases s.len() - p,
    {
        let (c, q) = match parse_structure_chunk(bytes, p) {
            Ok(cq) => cq,
            Err(f) => {
                return Err(f);
            },
        };
        proof {
            lemma_structure_chunk_advances(s, p as int);
        }
        let is_last = c.chunk_map_index == 2;
        let ghost old_chunks = chunks@;
        let ghost cv = c@;
        chunks.push(c);
        assert(chunks_view(chunks@) =~= chunks_view(old_chunks).push(cv));
        proof {
            container::lemma_prefix_step_push(
                chunks_view(old_chunks),
                cv,
                spec_read_structure_page(s, q as int),
            );
        }
        if is_last {
            assert(cv.data is NuccChunkPage);
            assert(chunks_view(old_chunks) + seq![cv] =~= chunks_view(chunks@));
            let page = Page { chunks };
            assert(page@ == chunks_view(chunks@));
            return Ok((page, q));
        }
        p = q;
    }
}

/// Reads pages from `pos` on until the data runs out.
fn parse_structure_pages(bytes: &[u8], pos: usize) -> (r: Result<Vec<Page>, ReadFault>)
    ensures
        match r {
            Ok(ps) => spec_read_structure_pages(bytes@, pos as int) matches Step::Done(v, _) && v
                == pages_view(ps@),
            Err(f) => spec_read_structure_pages(bytes@, pos as int) == Step::<
                Seq<Seq<SpecChunk>>,
            >::Fault(f),
        },
{
    let ghost s = bytes@;
    let mut pages: Vec<Page> = Vec::new();
    if pos > bytes.len() {
        assert(spec_read_structure_chunk(s, pos as int) == Step::<SpecChunk>::Fault(
            ReadFault::UnexpectedEof,
        ));
        assert(pages_view(pages@) =~= Seq::<Seq<SpecChunk>>::empty());
        return Ok(pages);
    }
    let mut p = pos;
    assert(prefix_step(pages_view(pages@), spec_read_structure_pages(s, p as int))
        == spec_read_structure_pages(s, pos as int)) by {
        if let Step::Done(v, r) = spec_read_structure_pages(s, p as int) {
            assert(pages_view(pages@) + v =~= v);
        }
    }
    loop
        invariant
            bytes@ == s,
            p <= s.len(),
            prefix_step(pages_view(pages@), spec_read_structure_pages(s, p as int))
                == spec_read_structure_pages(s, pos as int),
        decreases s.len() - p,
    {
        let (page, q) = match parse_structure_page(bytes, p) {
            Ok(pq) => pq,
            Err(ReadFault::UnexpectedEof) => {
                assert(pages_view(pages@) + Seq::<Seq<SpecChunk>>::empty() =~= pages_view(
                    pages@,
                ));
                return Ok(pages);
            },
            Err(f) => {
                return Err(f);
            },
        };
        proof {
            lemma_structure_page_advances(s, p as int);
        }
        let ghost old_pages = pages@;
        let ghost pv = page@;
        pages.push(page);
        assert(pages_view(pages@) =~= pages_view(old_pages).push(pv));
        proof {
            container::lemma_prefix_step_push(
                pages_view(old_pages),
                pv,
                spec_read_structure_pages(s, q as int),
            );
        }
        p = q;
    }
}

/// A page holds at least one chunk, its last chunk is the page trailer, and
/// no other chunk is.
pub open spec fn page_closed_by_trailer(cs: Seq<SpecChunk>) -> bool {
    &&& cs.len() > 0
    &&& cs.last().chunk_map_index == page_trailer_index()
    &&& cs.last().data is NuccChunkPage
    &&& forall|i: int|
        0 <= i < cs.len() - 1 ==> (#[trigger] cs[i]).chunk_map_index != page_trailer_index()
            && !(cs[i].data is NuccChunkPage)
}

/// Every page is closed by its trailer.
pub open spec fn pages_closed_by_trailers(ps: Seq<Seq<SpecChunk>>) -> bool {
    forall|k: int| 0 <= k < ps.len() ==> page_closed_by_trailer(#[trigger] ps[k])
}

/// A page that was read is closed by its trailer.
pub proof fn lemma_structure_page_closed(s: Seq<u8>, p: int)
    ensures
        spec_read_structure_page(s, p) matches Step::Done(cs, _) ==> page_closed_by_trailer(cs),
    decreases s.len() - p,
{
    lemma_structure_chunk_advances(s, p);
    if let Step::Done(c, q) = spec_read_structure_chunk(s, p) {
        if !(c.data is NuccChunkPage) {
            lemma_structure_page_closed(s, q);
            if let Step::Done(rest, _) = spec_read_structure_page(s, q) {
                let cs = seq![c] + rest;
                assert(cs.last() == rest.last());
                assert forall|i: int| 0 <= i < cs.len() - 1 implies (#[trigger] cs[i]).chunk_map_index
                    != page_trailer_index() && !(cs[i].data is NuccChunkPage) by {
                    if i > 0 {
                        assert(cs[i] == rest[i - 1]);
                    }
                }
            }
        }
    }
}

/// Every page that was read is closed by its trailer.
pub proof fn lemma_structure_pages_closed(s: Seq<u8>, p: int)
    ensures
        spec_read_structure_pages(s, p) matches Step::Done(ps, _) ==> pages_closed_by_trailers(ps),
    decreases s.len() - p,
{
    lemma_structure_page_advances(s, p);
    lemma_structure_page_closed(s, p);
    if let Step::Done(cs, q) = spec_read_structure_page(s, p) {
        lemma_structure_pages_closed(s, q);
        if let Step::Done(rest, _) = spec_read_structure_pages(s, q) {
            let ps = seq![cs] + rest;
            assert forall|k: int| 0 <= k < ps.len() implies page_closed_by_trailer(
                #[trigger] ps[k],
            ) by {
                if k > 0 {
                    assert(ps[k] == rest[k - 1]);
                }
            }
        }
    }
}

/// Giving the chunks their type names keeps every page closed by its
/// trailer.
pub proof fn lemma_typed_pages_closed(t: NuccChunkTable, ps: Seq<Seq<SpecChunk>>)
    requires
        pages_closed_by_trailers(ps),
    ensures
        pages_closed_by_trailers(typed_pages(t, ps)),
{
    let tp = typed_pages(t, ps);
    assert forall|k: int| 0 <= k < tp.len() implies page_closed_by_trailer(#[trigger] tp[k]) by {
        assert(page_closed_by_trailer(ps[k]));
        let cs = tp[k];
        assert(cs.len() == ps[k].len());
        assert(cs.last() == crate::xfbin::structure::xfbin::typed(t, ps[k].last()));
        assert forall|i: int| 0 <= i < cs.len() - 1 implies (#[trigger] cs[i]).chunk_map_index
            != page_trailer_index() && !(cs[i].data is NuccChunkPage) by {
            assert(cs[i] == crate::xfbin::structure::xfbin::typed(t, ps[k][i]));
        }
    }
}

/// The header as these structures hold it.
fn structure_header(h: container::NuccHeader) -> (r: NuccHeader)
    ensures
        r == header_from(h),
{
    NuccHeader {
        version: h.version,
        chunk_table_size: h.chunk_table_size,
        min_page_size: h.min_page_size,
        version1: h.file_id,
        field1_a: h.field1_a,
    }
}

/// The chunk table as these structures hold it.
fn structure_table(t: container::NuccChunkTable) -> (r: NuccChunkTable)
    ensures
        table_matches(r, t@),
{
    let ghost tv = t@;
    let mut chunk_maps: Vec<ChunkMap> = Vec::new();
    let mut i: usize = 0;
    while i < t.chunk_maps.len()
        invariant
            i <= t.chunk_maps@.len(),
            tv == t@,
            chunk_maps@ == tv.chunk_maps.take(i as int).map_values(
                |m: container::ChunkMap| chunk_map_from(m),
            ),
        decreases t.chunk_maps@.len() - i,
    {
        let m = t.chunk_maps[i];
        chunk_maps.push(
            ChunkMap {
                chunk_type_index: m.chunk_type_index,
                filepath_index: m.filepath_index,
                chunk_name_index: m.chunk_name_index,
            },
        );
        assert(tv.chunk_maps.take(i + 1) =~= tv.chunk_maps.take(i as int).push(m));
        assert(chunk_maps@ =~= tv.chunk_maps.take(i + 1).map_values(
            |m: container::ChunkMap| chunk_map_from(m),
        ));
        i = i + 1;
    }
    assert(tv.chunk_maps.take(i as int) =~= tv.chunk_maps);
    let mut references: Vec<ChunkReference> = Vec::new();
    let mut j: usize = 0;
    while j < t.chunk_map_references.len()
        invariant
            j <= t.chunk_map_references@.len(),
            tv == t@,
            references@ == tv.chunk_map_references.take(j as int).map_values(
                |r: container::ChunkReference| chunk_reference_from(r),
            ),
        decreases t.chunk_map_references@.len() - j,
    {
        let r = t.chunk_map_references[j];
        references.push(
            ChunkReference {
                chunk_name_index: r.chunk_name_index,
                chunk_map_index: r.chunk_map_index,
            },
        );
        assert(tv.chunk_map_references.take(j + 1) =~= tv.chunk_map_references.take(
            j as int,
        ).push(r));
        assert(references@ =~= tv.chunk_map_references.take(j + 1).map_values(
            |r: container::ChunkReference| chunk_reference_from(r),
        ));
        j = j + 1;
    }
    assert(tv.chunk_map_references.take(j as int) =~= tv.chunk_map_references);
    NuccChunkTable {
        chunk_type_count: t.chunk_type_count,
        chunk_type_size: t.chunk_type_size,
        filepath_count: t.filepath_count,
        filepath_size: t.filepath_size,
        chunk_name_count: t.chunk_name_count,
        chunk_name_size: t.chunk_name_size,
        chunk_map_count: t.chunk_map_count,
        chunk_map_size: t.chunk_map_size,
        chunk_map_indices_count: t.chunk_map_indices_count,
        chunk_map_references_count: t.chunk_map_references_count,
        chunk_types: t.chunk_types,
        filepaths: t.filepaths,
        chunk_names: t.chunk_names,
        chunk_maps,
        chunk_map_references: references,
        chunk_map_indices: t.chunk_map_indices,
    }
}

/// Reads a whole file: the header, the chunk table, then pages until the
/// data runs out, and gives every chunk the type name that the chunk table
/// gives its chunk map index (`Unknown` when there is none).
pub fn read_xfbin(bytes: &[u8]) -> (r: Result<Xfbin, XfbinError>)
    ensures
        match r {
            Ok(x) => spec_read_structure_xfbin(bytes@) matches Ok((h, t, pages)) && x.header
                == header_from(h) && table_matches(x.chunk_table, t) && pages_view(x.pages@)
                == typed_pages(x.chunk_table, pages) && pages_closed_by_trailers(pages_view(x.pages@)),
            Err(e) => spec_read_structure_xfbin(bytes@) matches Err(f) && e == error_of(f),
        },
{
    let (header, p) = match parse_header(bytes) {
        Ok(hp) => hp,
        Err(f) => {
            return Err(error_for(f));
        },
    };
    let (table, q) = match parse_chunk_table(bytes, p) {
        Ok(tq) => tq,
        Err(f) => {
            return Err(error_for(f));
        },
    };
    proof {
        lemma_read_table_map_count(bytes@, p as int);
        lemma_structure_pages_closed(bytes@, q as int);
        if let Step::Done(_, e) = spec_read_chunk_table(bytes@, p as int) {
            if e > bytes@.len() {
                lemma_structure_pages_past_end(bytes@, e);
                lemma_structure_pages_past_end(bytes@, q as int);
            }
        }
    }
    let pages = match parse_structure_pages(bytes, q) {
        Ok(ps) => ps,
        Err(f) => {
            return Err(error_for(f));
        },
    };
    let mut xfbin = Xfbin {
        header: structure_header(header),
        chunk_table: structure_table(table),
        pages,
    };
    let ghost raw = pages_view(xfbin.pages@);
    xfbin.set_chunk_types();
    proof {
        lemma_typed_pages_closed(xfbin.chunk_table, raw);
    }
    Ok(xfbin)
}

} // verus!

verus! {

/// A chunk table held in these structures has the chunk maps and chunk
/// references of the table read, each field under its own name: the type,
/// file path and chunk name indices of every chunk map, and the chunk name
/// and chunk map indices of every chunk reference.
pub proof fn lemma_table_matches_fields(x: NuccChunkTable, t: SpecChunkTable)
    requires
        table_matches(x, t),
    ensures
        x.chunk_maps@.len() == t.chunk_maps.len(),
        forall|i: int|
            0 <= i < t.chunk_maps.len() ==> {
                &&& (#[trigger] x.chunk_maps@[i]).chunk_type_index == t.chunk_maps[i].chunk_type_index
                &&& x.chunk_maps@[i].filepath_index == t.chunk_maps[i].filepath_index
                &&& x.chunk_maps@[i].chunk_name_index == t.chunk_maps[i].chunk_name_index
            },
        x.chunk_map_references@.len() == t.chunk_map_references.len(),
        forall|i: int|
            0 <= i < t.chunk_map_references.len() ==> {
                &&& (#[trigger] x.chunk_map_references@[i]).chunk_name_index
                    == t.chunk_map_references[i].chunk_name_index
                &&& x.chunk_map_references@[i].chunk_map_index
                    == t.chunk_map_references[i].chunk_map_index
            },
{
}

} // verus!
