//! Reading back what was written: for a file whose counts match its lists,
//! whose names hold no zero byte, and whose chunks look up the chunk maps they
//! carry, writing it and reading the bytes gives the same file. Every file
//! that reading produces is of that kind.

use vstd::prelude::*;

use crate::bytes::{
    cut_at, holds_at, lemma_cut_at_prefix, lemma_cut_at_split, lemma_holds_at_index,
    lemma_holds_at_cut, lemma_holds_at_split, lemma_holds_at_take, lemma_u16_roundtrip, lemma_u32_roundtrip,
    u16_bytes, u32_bytes, zeros,
};
use crate::nucc::nucc::SpecNuccChunk;
use crate::nucc::xfbin::{
    align4, align_padding, binary_type_name, chunk_bytes, chunk_data_bytes, chunk_map_at,
    chunk_map_bytes, chunk_maps_bytes, chunk_reference_at, chunk_reference_bytes,
    chunk_references_bytes, chunk_type_name, header_bytes, magic, map_lookup, null_strings_bytes,
    page_bytes, page_size_of, page_type_name, pages_bytes, spec_read_chunk,
    spec_read_chunk_maps, spec_read_chunk_references, spec_read_chunk_table, spec_read_header,
    spec_read_null_string, spec_read_null_strings, spec_read_page, spec_read_pages,
    spec_read_u32s, spec_read_xfbin, spec_write_xfbin, table_bytes, table_counts_bytes,
    table_head_bytes, terminator, u32s_bytes, ChunkMap, ChunkReference, NuccHeader, ReadFault,
    SpecChunk, SpecChunkTable, SpecXfbin, Step, lemma_read_page_advances,
};

verus! {

/// No name holds a zero byte.
pub open spec fn names_terminable(v: Seq<Seq<u8>>) -> bool {
    forall|i: int, j: int| 0 <= i < v.len() && 0 <= j < v[i].len() ==> #[trigger] v[i][j] != 0
}

/// The counts of the table match its lists, and no name holds a zero byte.
pub open spec fn table_well_formed(t: SpecChunkTable) -> bool {
    &&& t.chunk_type_count == t.chunk_types.len()
    &&& t.filepath_count == t.filepaths.len()
    &&& t.chunk_name_count == t.chunk_names.len()
    &&& t.chunk_map_count == t.chunk_maps.len()
    &&& t.chunk_map_references_count == t.chunk_map_references.len()
    &&& t.chunk_map_indices_count == t.chunk_map_indices.len()
    &&& names_terminable(t.chunk_types)
    &&& names_terminable(t.filepaths)
    &&& names_terminable(t.chunk_names)
}

/// The payload has the form its type name calls for: a trailer for
/// `nuccChunkPage`, `size` raw bytes otherwise (binary for
/// `nuccChunkBinary`, unknown for any other name).
pub open spec fn data_fits(t: SpecChunkTable, c: SpecChunk) -> bool {
    let name = chunk_type_name(t, c.chunk_map);
    if name == page_type_name() {
        c.data is NuccPage
    } else if name == binary_type_name() {
        c.data matches SpecNuccChunk::NuccBinary(b) && b.len() == c.size
    } else {
        c.data matches SpecNuccChunk::Unknown(b) && b.len() == c.size
    }
}

/// The chunk looks up the chunk map it carries, its payload fits its type,
/// and it is a trailer exactly when it is the last chunk of its page.
pub open spec fn chunk_well_formed(t: SpecChunkTable, page_start: u32, c: SpecChunk, last: bool) -> bool {
    &&& map_lookup(t, c.chunk_map_index, page_start) == Ok::<ChunkMap, ReadFault>(c.chunk_map)
    &&& data_fits(t, c)
    &&& (chunk_type_name(t, c.chunk_map) == page_type_name()) == last
}

/// A page holds at least one chunk, and every chunk is well formed, the
/// last one being the trailer.
pub open spec fn page_well_formed(t: SpecChunkTable, page_start: u32, cs: Seq<SpecChunk>) -> bool {
    &&& cs.len() > 0
    &&& forall|i: int|
        0 <= i < cs.len() ==> chunk_well_formed(t, page_start, #[trigger] cs[i], i == cs.len() - 1)
}

/// Every page is well formed for the start that the page sizes before it
/// give, and no start overflows a `u32`.
pub open spec fn pages_well_formed(t: SpecChunkTable, page_start: u32, ps: Seq<Seq<SpecChunk>>) -> bool
    decreases ps.len(),
{
    ps.len() == 0 || {
        &&& page_well_formed(t, page_start, ps[0])
        &&& page_start + page_size_of(ps[0]) <= u32::MAX
        &&& pages_well_formed(
            t,
            (page_start + page_size_of(ps[0])) as u32,
            ps.drop_first(),
        )
    }
}

/// A file that reads back as it was written.
pub open spec fn xfbin_well_formed(x: SpecXfbin) -> bool {
    &&& table_well_formed(x.chunk_table)
    &&& pages_well_formed(x.chunk_table, 0, x.pages)
}

proof fn lemma_read_header_back(s: Seq<u8>, h: NuccHeader)
    requires
        holds_at(s, 0, header_bytes(h)),
    ensures
        spec_read_header(s) == Step::Done(h, 28),
{
    let a1 = magic();
    let a2 = a1 + u32_bytes(h.version);
    let a3 = a2 + zeros(8);
    let a4 = a3 + u32_bytes(h.chunk_table_size);
    let a5 = a4 + u32_bytes(h.min_page_size);
    let a6 = a5 + u16_bytes(h.file_id);
    lemma_holds_at_split(s, 0, a6, u16_bytes(h.field1_a));
    lemma_holds_at_split(s, 0, a5, u16_bytes(h.file_id));
    lemma_holds_at_split(s, 0, a4, u32_bytes(h.min_page_size));
    lemma_holds_at_split(s, 0, a3, u32_bytes(h.chunk_table_size));
    lemma_holds_at_split(s, 0, a2, zeros(8));
    lemma_holds_at_split(s, 0, a1, u32_bytes(h.version));
    lemma_u32_roundtrip(s, 4, h.version);
    lemma_u32_roundtrip(s, 16, h.chunk_table_size);
    lemma_u32_roundtrip(s, 20, h.min_page_size);
    lemma_u16_roundtrip(s, 24, h.file_id);
    lemma_u16_roundtrip(s, 26, h.field1_a);
}

proof fn lemma_terminator_back(s: Seq<u8>, p: int, x: Seq<u8>, k: int)
    requires
        holds_at(s, p, x),
        p + x.len() < s.len(),
        s[p + x.len()] == 0,
        forall|j: int| 0 <= j < x.len() ==> #[trigger] x[j] != 0,
        0 <= k <= x.len(),
    ensures
        terminator(s, p + k) == Some(p + x.len()),
    decreases x.len() - k,
{
    if k < x.len() {
        lemma_holds_at_index(s, p, x, k);
        lemma_terminator_back(s, p, x, k + 1);
    }
}

proof fn lemma_read_null_strings_back(s: Seq<u8>, p: int, v: Seq<Seq<u8>>)
    requires
        holds_at(s, p, null_strings_bytes(v)),
        names_terminable(v),
    ensures
        spec_read_null_strings(s, p, v.len()) == Step::Done(v, p + null_strings_bytes(v).len()),
    decreases v.len(),
{
    if v.len() == 0 {
        assert(v =~= Seq::<Seq<u8>>::empty());
    } else {
        let init = v.drop_last();
        let x = v.last();
        let b = null_strings_bytes(init);
        assert(names_terminable(init)) by {
            assert forall|i: int, j: int| 0 <= i < init.len() && 0 <= j < init[i].len() implies #[trigger] init[i][j] != 0 by {
                assert(init[i] == v[i]);
            }
        }
        lemma_holds_at_split(s, p, b + x, seq![0u8]);
        lemma_holds_at_split(s, p, b, x);
        lemma_read_null_strings_back(s, p, init);
        let q = p + b.len();
        lemma_holds_at_index(s, q + x.len(), seq![0u8], 0);
        assert forall|j: int| 0 <= j < x.len() implies #[trigger] x[j] != 0 by {
            assert(x == v[v.len() - 1]);
        }
        lemma_terminator_back(s, q, x, 0);
        assert(spec_read_null_string(s, q) == Step::Done(x, q + x.len() + 1));
        assert(init.push(x) =~= v);
    }
}

proof fn lemma_chunk_maps_back(s: Seq<u8>, p: int, v: Seq<ChunkMap>)
    requires
        holds_at(s, p, chunk_maps_bytes(v)),
    ensures
        chunk_maps_bytes(v).len() == 12 * v.len(),
        forall|i: int| 0 <= i < v.len() ==> chunk_map_at(s, p + 12 * i) == #[trigger] v[i],
    decreases v.len(),
{
    if v.len() > 0 {
        let init = v.drop_last();
        let m = v.last();
        lemma_holds_at_split(s, p, chunk_maps_bytes(init), chunk_map_bytes(m));
        lemma_chunk_maps_back(s, p, init);
        let q = p + 12 * init.len();
        lemma_holds_at_split(
            s,
            q,
            u32_bytes(m.chunk_type_index) + u32_bytes(m.filepath_index),
            u32_bytes(m.chunk_name_index),
        );
        lemma_holds_at_split(s, q, u32_bytes(m.chunk_type_index), u32_bytes(m.filepath_index));
        lemma_u32_roundtrip(s, q, m.chunk_type_index);
        lemma_u32_roundtrip(s, q + 4, m.filepath_index);
        lemma_u32_roundtrip(s, q + 8, m.chunk_name_index);
        assert forall|i: int| 0 <= i < v.len() implies chunk_map_at(s, p + 12 * i) == #[trigger] v[i] by {
            if i < init.len() {
                assert(v[i] == init[i]);
            }
        }
    }
}

proof fn lemma_read_chunk_maps_back(s: Seq<u8>, p: int, v: Seq<ChunkMap>)
    requires
        holds_at(s, p, chunk_maps_bytes(v)),
    ensures
        spec_read_chunk_maps(s, p, v.len()) == Step::Done(v, p + chunk_maps_bytes(v).len()),
{
    lemma_chunk_maps_back(s, p, v);
    if v.len() == 0 {
        assert(v =~= Seq::<ChunkMap>::empty());
    } else {
        assert(Seq::new(v.len(), |i: int| chunk_map_at(s, p + 12 * i)) =~= v);
    }
}

proof fn lemma_chunk_references_back(s: Seq<u8>, p: int, v: Seq<ChunkReference>)
    requires
        holds_at(s, p, chunk_references_bytes(v)),
    ensures
        chunk_references_bytes(v).len() == 8 * v.len(),
        forall|i: int| 0 <= i < v.len() ==> chunk_reference_at(s, p + 8 * i) == #[trigger] v[i],
    decreases v.len(),
{
    if v.len() > 0 {
        let init = v.drop_last();
        let r = v.last();
        lemma_holds_at_split(s, p, chunk_references_bytes(init), chunk_reference_bytes(r));
        lemma_chunk_references_back(s, p, init);
        let q = p + 8 * init.len();
        lemma_holds_at_split(s, q, u32_bytes(r.chunk_name_index), u32_bytes(r.chunk_map_index));
        lemma_u32_roundtrip(s, q, r.chunk_name_index);
        lemma_u32_roundtrip(s, q + 4, r.chunk_map_index);
        assert forall|i: int| 0 <= i < v.len() implies chunk_reference_at(s, p + 8 * i) == #[trigger] v[i] by {
            if i < init.len() {
                assert(v[i] == init[i]);
            }
        }
    }
}

proof fn lemma_read_chunk_references_back(s: Seq<u8>, p: int, v: Seq<ChunkReference>)
    requires
        holds_at(s, p, chunk_references_bytes(v)),
    ensures
        spec_read_chunk_references(s, p, v.len()) == Step::Done(
            v,
            p + chunk_references_bytes(v).len(),
        ),
{
    lemma_chunk_references_back(s, p, v);
    if v.len() == 0 {
        assert(v =~= Seq::<ChunkReference>::empty());
    } else {
        assert(Seq::new(v.len(), |i: int| chunk_reference_at(s, p + 8 * i)) =~= v);
    }
}

proof fn lemma_u32s_back(s: Seq<u8>, p: int, v: Seq<u32>)
    requires
        holds_at(s, p, u32s_bytes(v)),
    ensures
        u32s_bytes(v).len() == 4 * v.len(),
        forall|i: int| 0 <= i < v.len() ==> crate::bytes::u32_at(s, p + 4 * i) == #[trigger] v[i],
    decreases v.len(),
{
    if v.len() > 0 {
        let init = v.drop_last();
        lemma_holds_at_split(s, p, u32s_bytes(init), u32_bytes(v.last()));
        lemma_u32s_back(s, p, init);
        lemma_u32_roundtrip(s, p + 4 * init.len(), v.last());
        assert forall|i: int| 0 <= i < v.len() implies crate::bytes::u32_at(s, p + 4 * i)
            == #[trigger] v[i] by {
            if i < init.len() {
                assert(v[i] == init[i]);
            }
        }
    }
}

proof fn lemma_read_u32s_back(s: Seq<u8>, p: int, v: Seq<u32>)
    requires
        holds_at(s, p, u32s_bytes(v)),
    ensures
        spec_read_u32s(s, p, v.len()) == Step::Done(v, p + u32s_bytes(v).len()),
{
    lemma_u32s_back(s, p, v);
    if v.len() == 0 {
        assert(v =~= Seq::<u32>::empty());
    } else {
        assert(Seq::new(v.len(), |i: int| crate::bytes::u32_at(s, p + 4 * i)) =~= v);
    }
}


proof fn lemma_read_chunk_table_back(s: Seq<u8>, start: int, t: SpecChunkTable)
    requires
        holds_at(s, start, table_bytes(t, start)),
        table_well_formed(t),
    ensures
        spec_read_chunk_table(s, start) == Step::Done(t, start + table_bytes(t, start).len()),
{
    reveal(spec_read_chunk_table);
    reveal(table_bytes);
    let counts = table_counts_bytes(t);
    let types_b = null_strings_bytes(t.chunk_types);
    let paths_b = null_strings_bytes(t.filepaths);
    let names_b = null_strings_bytes(t.chunk_names);
    let head = table_head_bytes(t);
    let pad = align_padding(start + head.len());
    let maps_b = chunk_maps_bytes(t.chunk_maps);
    let refs_b = chunk_references_bytes(t.chunk_map_references);
    let idx_b = u32s_bytes(t.chunk_map_indices);
    lemma_holds_at_split(s, start, head + pad + maps_b + refs_b, idx_b);
    lemma_holds_at_split(s, start, head + pad + maps_b, refs_b);
    lemma_holds_at_split(s, start, head + pad, maps_b);
    lemma_holds_at_split(s, start, head, pad);
    lemma_holds_at_split(s, start, counts + types_b + paths_b, names_b);
    lemma_holds_at_split(s, start, counts + types_b, paths_b);
    lemma_holds_at_split(s, start, counts, types_b);
    let c0 = u32_bytes(t.chunk_type_count);
    let c1 = c0 + u32_bytes(t.chunk_type_size);
    let c2 = c1 + u32_bytes(t.filepath_count);
    let c3 = c2 + u32_bytes(t.filepath_size);
    let c4 = c3 + u32_bytes(t.chunk_name_count);
    let c5 = c4 + u32_bytes(t.chunk_name_size);
    let c6 = c5 + u32_bytes(t.chunk_map_count);
    let c7 = c6 + u32_bytes(t.chunk_map_size);
    let c8 = c7 + u32_bytes(t.chunk_map_indices_count);
    let c9 = c8 + u32_bytes(t.chunk_map_references_count);
    lemma_holds_at_split(s, start, c8, u32_bytes(t.chunk_map_references_count));
    lemma_holds_at_split(s, start, c7, u32_bytes(t.chunk_map_indices_count));
    lemma_holds_at_split(s, start, c6, u32_bytes(t.chunk_map_size));
    lemma_holds_at_split(s, start, c5, u32_bytes(t.chunk_map_count));
    lemma_holds_at_split(s, start, c4, u32_bytes(t.chunk_name_size));
    lemma_holds_at_split(s, start, c3, u32_bytes(t.chunk_name_count));
    lemma_holds_at_split(s, start, c2, u32_bytes(t.filepath_size));
    lemma_holds_at_split(s, start, c1, u32_bytes(t.filepath_count));
    lemma_holds_at_split(s, start, c0, u32_bytes(t.chunk_type_size));
    lemma_u32_roundtrip(s, start + 0, t.chunk_type_count);
    lemma_u32_roundtrip(s, start + 4, t.chunk_type_size);
    lemma_u32_roundtrip(s, start + 8, t.filepath_count);
    lemma_u32_roundtrip(s, start + 12, t.filepath_size);
    lemma_u32_roundtrip(s, start + 16, t.chunk_name_count);
    lemma_u32_roundtrip(s, start + 20, t.chunk_name_size);
    lemma_u32_roundtrip(s, start + 24, t.chunk_map_count);
    lemma_u32_roundtrip(s, start + 28, t.chunk_map_size);
    lemma_u32_roundtrip(s, start + 32, t.chunk_map_indices_count);
    lemma_u32_roundtrip(s, start + 36, t.chunk_map_references_count);
    assert(counts.len() == 40);
    let q1 = start + 40 + types_b.len();
    let q2 = q1 + paths_b.len();
    let q3 = q2 + names_b.len();
    lemma_read_null_strings_back(s, start + 40, t.chunk_types);
    lemma_read_null_strings_back(s, q1, t.filepaths);
    lemma_read_null_strings_back(s, q2, t.chunk_names);
    assert(align4(q3) == q3 + pad.len());
    lemma_read_chunk_maps_back(s, q3 + pad.len(), t.chunk_maps);
    lemma_read_chunk_references_back(s, q3 + pad.len() + maps_b.len(), t.chunk_map_references);
    lemma_read_u32s_back(s, q3 + pad.len() + maps_b.len() + refs_b.len(), t.chunk_map_indices);
}


proof fn lemma_read_chunk_back(s: Seq<u8>, p: int, t: SpecChunkTable, page_start: u32, c: SpecChunk, last: bool)
    requires
        holds_at(s, p, chunk_bytes(c)),
        chunk_well_formed(t, page_start, c, last),
    ensures
        spec_read_chunk(s, p, t, page_start) == Step::Done(c, p + chunk_bytes(c).len()),
{
    let a1 = u32_bytes(c.size);
    let a2 = a1 + u32_bytes(c.chunk_map_index);
    let a3 = a2 + u16_bytes(c.version);
    let a4 = a3 + u16_bytes(c.unk);
    let d = chunk_data_bytes(c.data);
    lemma_holds_at_split(s, p, a4, d);
    lemma_holds_at_split(s, p, a3, u16_bytes(c.unk));
    lemma_holds_at_split(s, p, a2, u16_bytes(c.version));
    lemma_holds_at_split(s, p, a1, u32_bytes(c.chunk_map_index));
    lemma_u32_roundtrip(s, p, c.size);
    lemma_u32_roundtrip(s, p + 4, c.chunk_map_index);
    lemma_u16_roundtrip(s, p + 8, c.version);
    lemma_u16_roundtrip(s, p + 10, c.unk);
    let name = chunk_type_name(t, c.chunk_map);
    match c.data {
        SpecNuccChunk::NuccPage(pg) => {
            lemma_holds_at_split(s, p + 12, u32_bytes(pg.page_size), u32_bytes(pg.reference_size));
            lemma_u32_roundtrip(s, p + 12, pg.page_size);
            lemma_u32_roundtrip(s, p + 16, pg.reference_size);
        },
        SpecNuccChunk::NuccBinary(b) => {},
        SpecNuccChunk::Unknown(b) => {},
    }
}

proof fn lemma_read_page_back(s: Seq<u8>, p: int, t: SpecChunkTable, page_start: u32, cs: Seq<SpecChunk>)
    requires
        holds_at(s, p, page_bytes(cs)),
        page_well_formed(t, page_start, cs),
    ensures
        spec_read_page(s, p, t, page_start) == Step::Done(cs, p + page_bytes(cs).len()),
    decreases cs.len(),
{
    let c = cs[0];
    let rest = cs.drop_first();
    lemma_holds_at_split(s, p, chunk_bytes(c), page_bytes(rest));
    assert(chunk_well_formed(t, page_start, cs[0], 0 == cs.len() - 1));
    lemma_read_chunk_back(s, p, t, page_start, c, cs.len() == 1);
    let q = p + chunk_bytes(c).len();
    if cs.len() == 1 {
        assert(seq![c] =~= cs);
        assert(rest =~= Seq::<SpecChunk>::empty());
        assert(page_bytes(rest) == Seq::<u8>::empty());
    } else {
        assert(page_well_formed(t, page_start, rest)) by {
            assert forall|i: int| 0 <= i < rest.len() implies chunk_well_formed(
                t,
                page_start,
                #[trigger] rest[i],
                i == rest.len() - 1,
            ) by {
                assert(rest[i] == cs[i + 1]);
                assert(chunk_well_formed(t, page_start, cs[i + 1], i + 1 == cs.len() - 1));
            }
        }
        lemma_read_page_back(s, q, t, page_start, rest);
        assert(seq![c] + rest =~= cs);
    }
}

proof fn lemma_read_pages_back(s: Seq<u8>, p: int, t: SpecChunkTable, page_start: u32, ps: Seq<Seq<SpecChunk>>)
    requires
        holds_at(s, p, pages_bytes(ps)),
        p + pages_bytes(ps).len() == s.len(),
        pages_well_formed(t, page_start, ps),
    ensures
        spec_read_pages(s, p, t, page_start) == Step::Done(ps, s.len() as int),
    decreases ps.len(),
{
    if ps.len() == 0 {
        assert(ps =~= Seq::<Seq<SpecChunk>>::empty());
        assert(spec_read_chunk(s, p, t, page_start) == Step::<SpecChunk>::Fault(ReadFault::UnexpectedEof));
        assert(spec_read_page(s, p, t, page_start) == Step::<Seq<SpecChunk>>::Fault(ReadFault::UnexpectedEof));
    } else {
        let first = ps[0];
        let rest = ps.drop_first();
        lemma_holds_at_split(s, p, page_bytes(first), pages_bytes(rest));
        lemma_read_page_back(s, p, t, page_start, first);
        let q = p + page_bytes(first).len();
        let next = (page_start + page_size_of(first)) as u32;
        lemma_read_pages_back(s, q, t, next, rest);
        assert(seq![first] + rest =~= ps);
    }
}

/// Writing a well-formed file and reading the bytes back gives the same file.
pub proof fn lemma_write_read_roundtrip(x: SpecXfbin)
    requires
        xfbin_well_formed(x),
    ensures
        spec_read_xfbin(spec_write_xfbin(x)) == Ok::<SpecXfbin, ReadFault>(x),
{
    let s = spec_write_xfbin(x);
    let h = header_bytes(x.header);
    let tb = table_bytes(x.chunk_table, 28);
    let pb = pages_bytes(x.pages);
    assert(s == h + tb + pb);
    lemma_read_file_back(s, x, h, tb, pb);
}

proof fn lemma_read_file_back(
    s: Seq<u8>,
    x: SpecXfbin,
    h: Seq<u8>,
    tb: Seq<u8>,
    pb: Seq<u8>,
)
    requires
        xfbin_well_formed(x),
        h == header_bytes(x.header),
        tb == table_bytes(x.chunk_table, 28),
        pb == pages_bytes(x.pages),
        s == h + tb + pb,
    ensures
        spec_read_header(s) == Step::Done(x.header, 28),
        spec_read_chunk_table(s, 28) == Step::Done(x.chunk_table, 28 + tb.len() as int),
        spec_read_pages(s, 28 + tb.len() as int, x.chunk_table, 0) == Step::Done(
            x.pages,
            s.len() as int,
        ),
{
    assert(s.subrange(0, s.len() as int) =~= s);
    lemma_holds_at_split(s, 0, h + tb, pb);
    lemma_holds_at_split(s, 0, h, tb);
    assert(h.len() == 28);
    lemma_read_header_back(s, x.header);
    lemma_read_chunk_table_back(s, 28, x.chunk_table);
    lemma_read_pages_back(s, 28 + tb.len() as int, x.chunk_table, 0, x.pages);
}


// ---------------------------------------------------------------------------
// What reading produces.
// ---------------------------------------------------------------------------

proof fn lemma_terminator_nonzero(s: Seq<u8>, p: int)
    ensures
        terminator(s, p) matches Some(z) ==> forall|k: int| p <= k < z ==> #[trigger] s[k] != 0,
    decreases s.len() - p,
{
    if 0 <= p < s.len() && s[p] != 0 {
        lemma_terminator_nonzero(s, p + 1);
    }
}

proof fn lemma_null_strings_shape(s: Seq<u8>, p: int, n: nat)
    ensures
        spec_read_null_strings(s, p, n) matches Step::Done(v, _) ==> v.len() == n
            && names_terminable(v),
    decreases n,
{
    if n > 0 {
        lemma_null_strings_shape(s, p, (n - 1) as nat);
        if let Step::Done(v, q) = spec_read_null_strings(s, p, (n - 1) as nat) {
            lemma_terminator_nonzero(s, q);
            crate::nucc::xfbin::lemma_terminator_within(s, q);
            if let Step::Done(x, r) = spec_read_null_string(s, q) {
                let w = v.push(x);
                assert forall|i: int, j: int| 0 <= i < w.len() && 0 <= j < w[i].len() implies #[trigger] w[i][j] != 0 by {
                    if i < v.len() {
                        assert(w[i] == v[i]);
                    } else {
                        assert(w[i] == x);
                        assert(x[j] == s[q + j]);
                    }
                }
            }
        }
    }
}

proof fn lemma_read_table_well_formed(s: Seq<u8>, p: int)
    ensures
        spec_read_chunk_table(s, p) matches Step::Done(t, _) ==> table_well_formed(t),
{
    reveal(spec_read_chunk_table);
    if p >= 0 && p + 40 <= s.len() {
        let types_n = crate::bytes::u32_at(s, p) as nat;
        lemma_null_strings_shape(s, p + 40, types_n);
        if let Step::Done(_, q1) = spec_read_null_strings(s, p + 40, types_n) {
            let paths_n = crate::bytes::u32_at(s, p + 8) as nat;
            lemma_null_strings_shape(s, q1, paths_n);
            if let Step::Done(_, q2) = spec_read_null_strings(s, q1, paths_n) {
                lemma_null_strings_shape(s, q2, crate::bytes::u32_at(s, p + 16) as nat);
            }
        }
    }
}

proof fn lemma_read_chunk_well_formed(s: Seq<u8>, p: int, t: SpecChunkTable, page_start: u32)
    ensures
        spec_read_chunk(s, p, t, page_start) matches Step::Done(c, _) ==> chunk_well_formed(
            t,
            page_start,
            c,
            chunk_type_name(t, c.chunk_map) == page_type_name(),
        ),
{
}

proof fn lemma_read_page_well_formed(s: Seq<u8>, p: int, t: SpecChunkTable, page_start: u32)
    ensures
        spec_read_page(s, p, t, page_start) matches Step::Done(cs, _) ==> page_well_formed(
            t,
            page_start,
            cs,
        ),
    decreases s.len() - p,
{
    lemma_read_chunk_well_formed(s, p, t, page_start);
    crate::nucc::xfbin::lemma_read_chunk_advances(s, p, t, page_start);
    if let Step::Done(c, q) = spec_read_chunk(s, p, t, page_start) {
        if chunk_type_name(t, c.chunk_map) != page_type_name() {
            lemma_read_page_well_formed(s, q, t, page_start);
            if let Step::Done(rest, r) = spec_read_page(s, q, t, page_start) {
                let cs = seq![c] + rest;
                assert forall|i: int| 0 <= i < cs.len() implies chunk_well_formed(
                    t,
                    page_start,
                    #[trigger] cs[i],
                    i == cs.len() - 1,
                ) by {
                    if i > 0 {
                        assert(cs[i] == rest[i - 1]);
                    }
                }
            }
        } else {
            assert(seq![c][0] == c);
        }
    }
}

proof fn lemma_read_pages_well_formed(s: Seq<u8>, p: int, t: SpecChunkTable, page_start: u32)
    ensures
        spec_read_pages(s, p, t, page_start) matches Step::Done(ps, _) ==> pages_well_formed(
            t,
            page_start,
            ps,
        ),
    decreases s.len() - p,
{
    lemma_read_page_advances(s, p, t, page_start);
    lemma_read_page_well_formed(s, p, t, page_start);
    if let Step::Done(cs, q) = spec_read_page(s, p, t, page_start) {
        if page_start + page_size_of(cs) <= u32::MAX {
            let next = (page_start + page_size_of(cs)) as u32;
            lemma_read_pages_well_formed(s, q, t, next);
            if let Step::Done(rest, r) = spec_read_pages(s, q, t, next) {
                let ps = seq![cs] + rest;
                assert(ps[0] == cs);
                assert(ps.drop_first() =~= rest);
            }
        }
    } else {
        assert(pages_well_formed(t, page_start, Seq::<Seq<SpecChunk>>::empty()));
    }
}

/// Every file that reading produces is well formed: its counts match its
/// lists, no name holds a zero byte, every page ends with its trailer (and no
/// earlier chunk is one), and every chunk carries the chunk map its index
/// selects.
pub proof fn lemma_read_is_well_formed(s: Seq<u8>)
    ensures
        spec_read_xfbin(s) matches Ok(x) ==> xfbin_well_formed(x),
{
    if let Step::Done(h, p) = spec_read_header(s) {
        lemma_read_table_well_formed(s, p);
        if let Step::Done(t, q) = spec_read_chunk_table(s, p) {
            lemma_read_pages_well_formed(s, q, t, 0);
        }
    }
}

/// Writing a file that was read, and reading the bytes again, gives the
/// same file.
pub proof fn lemma_read_write_read(s: Seq<u8>)
    ensures
        spec_read_xfbin(s) matches Ok(x) ==> spec_read_xfbin(spec_write_xfbin(x)) == Ok::<
            SpecXfbin,
            ReadFault,
        >(x),
{
    lemma_read_is_well_formed(s);
    if let Ok(x) = spec_read_xfbin(s) {
        lemma_write_read_roundtrip(x);
    }
}


// ---------------------------------------------------------------------------
// Reading data that ends early.
// ---------------------------------------------------------------------------

proof fn lemma_read_chunk_cut(s: Seq<u8>, p: int, t: SpecChunkTable, page_start: u32, c: SpecChunk, last: bool)
    requires
        cut_at(s, p, chunk_bytes(c)),
        chunk_well_formed(t, page_start, c, last),
    ensures
        spec_read_chunk(s, p, t, page_start) == Step::<SpecChunk>::Fault(ReadFault::UnexpectedEof),
{
    let w = chunk_bytes(c);
    if s.len() - p >= 8 {
        lemma_cut_at_prefix(s, p, w, 8);
        let head = u32_bytes(c.size) + u32_bytes(c.chunk_map_index);
        assert(w.take(8) =~= head);
        lemma_holds_at_split(s, p, u32_bytes(c.size), u32_bytes(c.chunk_map_index));
        lemma_u32_roundtrip(s, p, c.size);
        lemma_u32_roundtrip(s, p + 4, c.chunk_map_index);
    }
}

proof fn lemma_read_page_cut(s: Seq<u8>, p: int, t: SpecChunkTable, page_start: u32, cs: Seq<SpecChunk>)
    requires
        cut_at(s, p, page_bytes(cs)),
        page_well_formed(t, page_start, cs),
    ensures
        spec_read_page(s, p, t, page_start) == Step::<Seq<SpecChunk>>::Fault(
            ReadFault::UnexpectedEof,
        ),
    decreases cs.len(),
{
    let c = cs[0];
    let rest = cs.drop_first();
    assert(chunk_well_formed(t, page_start, cs[0], 0 == cs.len() - 1));
    if p + chunk_bytes(c).len() <= s.len() {
        lemma_cut_at_split(s, p, chunk_bytes(c), page_bytes(rest));
        lemma_read_chunk_back(s, p, t, page_start, c, cs.len() == 1);
        if cs.len() == 1 {
            assert(rest =~= Seq::<SpecChunk>::empty());
            assert(page_bytes(rest) == Seq::<u8>::empty());
        } else {
            assert(page_well_formed(t, page_start, rest)) by {
                assert forall|i: int| 0 <= i < rest.len() implies chunk_well_formed(
                    t,
                    page_start,
                    #[trigger] rest[i],
                    i == rest.len() - 1,
                ) by {
                    assert(rest[i] == cs[i + 1]);
                    assert(chunk_well_formed(t, page_start, cs[i + 1], i + 1 == cs.len() - 1));
                }
            }
            lemma_read_page_cut(s, p + chunk_bytes(c).len(), t, page_start, rest);
        }
    } else {
        assert(cut_at(s, p, chunk_bytes(c))) by {
            lemma_cut_at_prefix(s, p, chunk_bytes(c) + page_bytes(rest), s.len() - p);
            assert((chunk_bytes(c) + page_bytes(rest)).take(s.len() - p) =~= chunk_bytes(c).take(
                s.len() - p,
            ));
        }
        lemma_read_chunk_cut(s, p, t, page_start, c, cs.len() == 1);
    }
}

/// How many of the pages `ps`, written one after the other, fit in `room`
/// bytes.
pub open spec fn complete_pages(ps: Seq<Seq<SpecChunk>>, room: int) -> nat
    decreases ps.len(),
{
    if ps.len() == 0 || page_bytes(ps[0]).len() > room {
        0
    } else {
        1 + complete_pages(ps.drop_first(), room - page_bytes(ps[0]).len())
    }
}

proof fn lemma_complete_pages_bound(ps: Seq<Seq<SpecChunk>>, room: int)
    ensures
        complete_pages(ps, room) <= ps.len(),
    decreases ps.len(),
{
    if ps.len() > 0 && page_bytes(ps[0]).len() <= room {
        lemma_complete_pages_bound(ps.drop_first(), room - page_bytes(ps[0]).len());
    }
}

proof fn lemma_read_pages_cut(s: Seq<u8>, p: int, t: SpecChunkTable, page_start: u32, ps: Seq<Seq<SpecChunk>>)
    requires
        0 <= p <= s.len(),
        s.len() - p <= pages_bytes(ps).len(),
        s.subrange(p, s.len() as int) == pages_bytes(ps).take(s.len() - p),
        pages_well_formed(t, page_start, ps),
    ensures
        spec_read_pages(s, p, t, page_start) matches Step::Done(v, _) && v == ps.take(
            complete_pages(ps, s.len() - p) as int,
        ),
    decreases ps.len(),
{
    if ps.len() == 0 {
        assert(spec_read_chunk(s, p, t, page_start) == Step::<SpecChunk>::Fault(ReadFault::UnexpectedEof));
        assert(spec_read_page(s, p, t, page_start) == Step::<Seq<SpecChunk>>::Fault(ReadFault::UnexpectedEof));
        assert(ps.take(0) =~= Seq::<Seq<SpecChunk>>::empty());
    } else {
        let first = ps[0];
        let rest = ps.drop_first();
        let w = page_bytes(first) + pages_bytes(rest);
        assert(pages_bytes(ps) == w);
        if page_bytes(first).len() <= s.len() - p {
            if s.len() - p == w.len() {
                assert(s.subrange(p, s.len() as int) =~= w);
                lemma_holds_at_split(s, p, page_bytes(first), pages_bytes(rest));
                let q = p + page_bytes(first).len();
                assert(s.subrange(q, s.len() as int) =~= pages_bytes(rest));
                assert(s.subrange(q, s.len() as int) == pages_bytes(rest).take(s.len() - q));
            } else {
                lemma_cut_at_split(s, p, page_bytes(first), pages_bytes(rest));
            }
            lemma_read_page_back(s, p, t, page_start, first);
            let q = p + page_bytes(first).len();
            let next = (page_start + page_size_of(first)) as u32;
            lemma_read_pages_cut(s, q, t, next, rest);
            let k = complete_pages(rest, s.len() - q);
            lemma_complete_pages_bound(rest, s.len() - q);
            assert(complete_pages(ps, s.len() - p) == k + 1);
            assert(seq![first] + rest.take(k as int) =~= ps.take(k + 1int));
        } else {
            assert(cut_at(s, p, page_bytes(first))) by {
                lemma_cut_at_prefix(s, p, w, s.len() - p);
                assert(w.take(s.len() - p) =~= page_bytes(first).take(s.len() - p));
            }
            lemma_read_page_cut(s, p, t, page_start, first);
            assert(ps.take(0) =~= Seq::<Seq<SpecChunk>>::empty());
        }
    }
}

/// Reading a well-formed file whose bytes end early, anywhere after the
/// chunk table, gives the file with the pages that were written in full.
pub proof fn lemma_read_cut_file(x: SpecXfbin, c: int)
    requires
        xfbin_well_formed(x),
        28 + table_bytes(x.chunk_table, 28).len() <= c <= spec_write_xfbin(x).len(),
    ensures
        spec_read_xfbin(spec_write_xfbin(x).take(c)) == Ok::<SpecXfbin, ReadFault>(
            SpecXfbin {
                pages: x.pages.take(
                    complete_pages(x.pages, c - 28 - table_bytes(x.chunk_table, 28).len()) as int,
                ),
                ..x
            },
        ),
{
    let b = spec_write_xfbin(x);
    let h = header_bytes(x.header);
    let tb = table_bytes(x.chunk_table, 28);
    let pb = pages_bytes(x.pages);
    lemma_cut_file_parts(b, x, h, tb, pb, c);
}

proof fn lemma_cut_file_parts(b: Seq<u8>, x: SpecXfbin, h: Seq<u8>, tb: Seq<u8>, pb: Seq<u8>, c: int)
    requires
        xfbin_well_formed(x),
        h == header_bytes(x.header),
        tb == table_bytes(x.chunk_table, 28),
        pb == pages_bytes(x.pages),
        b == h + tb + pb,
        28 + tb.len() <= c <= b.len(),
    ensures
        spec_read_header(b.take(c)) == Step::Done(x.header, 28),
        spec_read_chunk_table(b.take(c), 28) == Step::Done(x.chunk_table, 28 + tb.len() as int),
        spec_read_pages(b.take(c), 28 + tb.len() as int, x.chunk_table, 0) matches Step::Done(v, _)
            && v == x.pages.take(complete_pages(x.pages, c - 28 - tb.len()) as int),
{
    assert(b.subrange(0, b.len() as int) =~= b);
    lemma_holds_at_split(b, 0, h + tb, pb);
    lemma_holds_at_split(b, 0, h, tb);
    assert(h.len() == 28);
    lemma_cut_file_pieces(b, x, tb, pb, c);
}

proof fn lemma_cut_file_pieces(b: Seq<u8>, x: SpecXfbin, tb: Seq<u8>, pb: Seq<u8>, c: int)
    requires
        xfbin_well_formed(x),
        holds_at(b, 0, header_bytes(x.header)),
        tb == table_bytes(x.chunk_table, 28),
        holds_at(b, 28, tb),
        pb == pages_bytes(x.pages),
        holds_at(b, 28 + tb.len() as int, pb),
        b.len() == 28 + tb.len() + pb.len(),
        28 + tb.len() <= c <= b.len(),
    ensures
        spec_read_header(b.take(c)) == Step::Done(x.header, 28),
        spec_read_chunk_table(b.take(c), 28) == Step::Done(x.chunk_table, 28 + tb.len() as int),
        spec_read_pages(b.take(c), 28 + tb.len() as int, x.chunk_table, 0) matches Step::Done(v, _)
            && v == x.pages.take(complete_pages(x.pages, c - 28 - tb.len()) as int),
{
    let s = b.take(c);
    lemma_holds_at_take(b, 0, header_bytes(x.header), c);
    lemma_holds_at_take(b, 28, tb, c);
    lemma_read_header_back(s, x.header);
    lemma_read_chunk_table_back(s, 28, x.chunk_table);
    let q = 28 + tb.len() as int;
    lemma_holds_at_cut(b, q, pb, c);
    lemma_read_pages_cut(s, q, x.chunk_table, 0, x.pages);
}


/// The first chunk map index entry of page `k`: the page sizes of the pages
/// before it, added up.
pub open spec fn page_start_of(ps: Seq<Seq<SpecChunk>>, k: int) -> int
    decreases k,
{
    if k <= 0 || k > ps.len() {
        0
    } else {
        page_start_of(ps, k - 1) + page_size_of(ps[k - 1])
    }
}

/// Where the chunk table read from `s` ends (zero where it cannot be read).
pub open spec fn table_end(s: Seq<u8>) -> int {
    match spec_read_header(s) {
        Step::Done(_, p) => match spec_read_chunk_table(s, p) {
            Step::Done(_, q) => q,
            Step::Fault(_) => 0,
        },
        Step::Fault(_) => 0,
    }
}

/// The positions at which the pages from `p` on begin, one page after the
/// other, and the position after the last one read.
pub open spec fn page_positions(s: Seq<u8>, p: int, t: SpecChunkTable, start: u32) -> Seq<int>
    decreases s.len() - p,
{
    match spec_read_page(s, p, t, start) {
        Step::Done(cs, q) => if start + page_size_of(cs) > u32::MAX {
            seq![p]
        } else {
            proof {
                lemma_read_page_advances(s, p, t, start);
            }
            seq![p] + page_positions(s, q, t, (start + page_size_of(cs)) as u32)
        },
        Step::Fault(_) => seq![p],
    }
}

/// Putting a page in front moves every later page start on by its size.
proof fn lemma_page_start_of_prefix(cs: Seq<SpecChunk>, rest: Seq<Seq<SpecChunk>>, k: int)
    requires
        0 <= k <= rest.len(),
    ensures
        page_start_of(seq![cs] + rest, k + 1) == page_size_of(cs) + page_start_of(rest, k),
    decreases k,
{
    let ps = seq![cs] + rest;
    assert(page_start_of(ps, k + 1) == page_start_of(ps, k) + page_size_of(ps[k]));
    if k > 0 {
        lemma_page_start_of_prefix(cs, rest, k - 1);
        assert(ps[k] == rest[k - 1]);
        assert(page_start_of(rest, k) == page_start_of(rest, k - 1) + page_size_of(rest[k - 1]));
    } else {
        assert(ps[0] == cs);
        assert(page_start_of(ps, 0) == 0);
        assert(page_start_of(rest, 0) == 0);
    }
}

/// The pages read from `p` on are, each in turn, what reading one page gives
/// at the position where the one before it ended.
proof fn lemma_pages_page_by_page(s: Seq<u8>, p: int, t: SpecChunkTable, start: u32)
    ensures
        spec_read_pages(s, p, t, start) matches Step::Done(ps, _) ==> ({
            let pos = page_positions(s, p, t, start);
            &&& pos.len() == ps.len() + 1
            &&& pos[0] == p
            &&& forall|k: int|
                0 <= k < ps.len() ==> start + page_start_of(ps, k) <= u32::MAX && spec_read_page(
                    s,
                    #[trigger] pos[k],
                    t,
                    (start + page_start_of(ps, k)) as u32,
                ) == Step::Done(ps[k], pos[k + 1])
        }),
    decreases s.len() - p,
{
    lemma_read_page_advances(s, p, t, start);
    match spec_read_page(s, p, t, start) {
        Step::Fault(_) => {},
        Step::Done(cs, q) => {
            if start + page_size_of(cs) <= u32::MAX {
                let next = (start + page_size_of(cs)) as u32;
                lemma_pages_page_by_page(s, q, t, next);
                if let Step::Done(rest, _) = spec_read_pages(s, q, t, next) {
                    let ps = seq![cs] + rest;
                    let tail = page_positions(s, q, t, next);
                    let pos = page_positions(s, p, t, start);
                    assert(pos == seq![p] + tail);
                    assert forall|k: int| 0 <= k < ps.len() implies start + page_start_of(ps, k)
                        <= u32::MAX && spec_read_page(
                        s,
                        #[trigger] pos[k],
                        t,
                        (start + page_start_of(ps, k)) as u32,
                    ) == Step::Done(ps[k], pos[k + 1]) by {
                        if k == 0 {
                            assert(ps[0] == cs);
                            assert(pos[1] == tail[0]);
                        } else {
                            lemma_page_start_of_prefix(cs, rest, k - 1);
                            assert(ps[k] == rest[k - 1]);
                            assert(pos[k] == tail[k - 1]);
                            assert(pos[k + 1] == tail[k]);
                        }
                    }
                }
            }
        },
    }
}

/// Page by page: in a file that was read, page `k` is what reading one page
/// gives (as [`Page::read_page`](crate::nucc::xfbin::Page::read_page) does)
/// where page `k - 1` ended, or right after the chunk table for the first
/// page, with the page start that the page sizes before it add up to.
pub proof fn lemma_read_page_by_page(s: Seq<u8>)
    ensures
        spec_read_xfbin(s) matches Ok(x) ==> ({
            let pos = page_positions(s, table_end(s), x.chunk_table, 0);
            &&& pos.len() == x.pages.len() + 1
            &&& pos[0] == table_end(s)
            &&& forall|k: int|
                0 <= k < x.pages.len() ==> page_start_of(x.pages, k) <= u32::MAX
                    && spec_read_page(
                    s,
                    #[trigger] pos[k],
                    x.chunk_table,
                    page_start_of(x.pages, k) as u32,
                ) == Step::Done(x.pages[k], pos[k + 1])
        }),
{
    if let Step::Done(_, p) = spec_read_header(s) {
        if let Step::Done(t, q) = spec_read_chunk_table(s, p) {
            lemma_pages_page_by_page(s, q, t, 0);
        }
    }
}

} // verus!
