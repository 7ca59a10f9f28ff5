//! What the pieces of the container format are, stated over bytes and over
//! the values read: where each field of a chunk map and a chunk reference
//! lies, what a page trailer says about the next page, and which chunks a
//! search by type name finds.

use vstd::prelude::*;

use crate::bytes::u32_at;
use crate::bytes::u32_bytes;
use crate::nucc::nucc::{NuccPage, SpecNuccChunk};
use crate::nucc::xfbin::{
    align4, chunk_has_type, chunk_maps_bytes, spec_read_chunk_table, spec_read_null_strings, chunk_references_bytes, chunks_of_type, page_size_of,
    pages_chunks_of_type, prefix_step, reference_size_of, spec_read_chunk_maps,
    spec_read_chunk_references, spec_read_page, spec_read_pages, ChunkMap, ChunkReference,
    SpecChunk, SpecChunkTable, Step,
};

verus! {

/// The chunk references read at `p` are, in turn, pairs of big-endian
/// `u32`s eight bytes apart: the chunk name index first, then the chunk map
/// index.
pub proof fn lemma_read_chunk_references_fields(s: Seq<u8>, p: int, n: nat)
    ensures
        spec_read_chunk_references(s, p, n) matches Step::Done(v, q) ==> {
            &&& v.len() == n
            &&& q == p + 8 * n
            &&& forall|i: int|
                0 <= i < n ==> (#[trigger] v[i]).chunk_name_index == u32_at(s, p + 8 * i)
                    && v[i].chunk_map_index == u32_at(s, p + 8 * i + 4)
        },
{
}

/// The bytes written for chunk references: for each reference in turn, its
/// chunk name index and then its chunk map index, as big-endian `u32`s.
pub proof fn lemma_chunk_references_bytes_fields(v: Seq<ChunkReference>)
    ensures
        chunk_references_bytes(v).len() == 8 * v.len(),
        forall|i: int|
            0 <= i < v.len() ==> chunk_references_bytes(v).subrange(8 * i, 8 * i + 4)
                == u32_bytes((#[trigger] v[i]).chunk_name_index) && chunk_references_bytes(
                v,
            ).subrange(8 * i + 4, 8 * i + 8) == u32_bytes(v[i].chunk_map_index),
    decreases v.len(),
{
    if v.len() > 0 {
        let init = v.drop_last();
        lemma_chunk_references_bytes_fields(init);
        let b = chunk_references_bytes(v);
        let a = chunk_references_bytes(init);
        let r = v.last();
        assert(b == a + (u32_bytes(r.chunk_name_index) + u32_bytes(r.chunk_map_index)));
        assert forall|i: int| 0 <= i < v.len() implies b.subrange(8 * i, 8 * i + 4) == u32_bytes(
            (#[trigger] v[i]).chunk_name_index,
        ) && b.subrange(8 * i + 4, 8 * i + 8) == u32_bytes(v[i].chunk_map_index) by {
            if i < init.len() {
                assert(v[i] == init[i]);
                assert(b.subrange(8 * i, 8 * i + 4) =~= a.subrange(8 * i, 8 * i + 4));
                assert(b.subrange(8 * i + 4, 8 * i + 8) =~= a.subrange(8 * i + 4, 8 * i + 8));
            } else {
                assert(b.subrange(8 * i, 8 * i + 4) =~= u32_bytes(r.chunk_name_index));
                assert(b.subrange(8 * i + 4, 8 * i + 8) =~= u32_bytes(r.chunk_map_index));
            }
        }
    }
}

/// The chunk maps read at `p` are, in turn, triples of big-endian `u32`s
/// twelve bytes apart: the type index, the file path index, then the chunk
/// name index.
pub proof fn lemma_read_chunk_maps_fields(s: Seq<u8>, p: int, n: nat)
    ensures
        spec_read_chunk_maps(s, p, n) matches Step::Done(v, q) ==> {
            &&& v.len() == n
            &&& q == p + 12 * n
            &&& forall|i: int|
                0 <= i < n ==> (#[trigger] v[i]).chunk_type_index == u32_at(s, p + 12 * i)
                    && v[i].filepath_index == u32_at(s, p + 12 * i + 4) && v[i].chunk_name_index
                    == u32_at(s, p + 12 * i + 8)
        },
{
}

/// The bytes written for chunk maps: for each map in turn, its type index,
/// file path index and chunk name index, as big-endian `u32`s.
pub proof fn lemma_chunk_maps_bytes_fields(v: Seq<ChunkMap>)
    ensures
        chunk_maps_bytes(v).len() == 12 * v.len(),
        forall|i: int|
            0 <= i < v.len() ==> {
                &&& chunk_maps_bytes(v).subrange(12 * i, 12 * i + 4) == u32_bytes(
                    (#[trigger] v[i]).chunk_type_index,
                )
                &&& chunk_maps_bytes(v).subrange(12 * i + 4, 12 * i + 8) == u32_bytes(
                    v[i].filepath_index,
                )
                &&& chunk_maps_bytes(v).subrange(12 * i + 8, 12 * i + 12) == u32_bytes(
                    v[i].chunk_name_index,
                )
            },
    decreases v.len(),
{
    if v.len() > 0 {
        let init = v.drop_last();
        lemma_chunk_maps_bytes_fields(init);
        let b = chunk_maps_bytes(v);
        let a = chunk_maps_bytes(init);
        let m = v.last();
        assert(b == a + (u32_bytes(m.chunk_type_index) + u32_bytes(m.filepath_index) + u32_bytes(
            m.chunk_name_index,
        )));
        assert forall|i: int| 0 <= i < v.len() implies {
            &&& b.subrange(12 * i, 12 * i + 4) == u32_bytes((#[trigger] v[i]).chunk_type_index)
            &&& b.subrange(12 * i + 4, 12 * i + 8) == u32_bytes(v[i].filepath_index)
            &&& b.subrange(12 * i + 8, 12 * i + 12) == u32_bytes(v[i].chunk_name_index)
        } by {
            if i < init.len() {
                assert(v[i] == init[i]);
                assert(b.subrange(12 * i, 12 * i + 4) =~= a.subrange(12 * i, 12 * i + 4));
                assert(b.subrange(12 * i + 4, 12 * i + 8) =~= a.subrange(12 * i + 4, 12 * i + 8));
                assert(b.subrange(12 * i + 8, 12 * i + 12) =~= a.subrange(12 * i + 8, 12 * i + 12));
            } else {
                assert(b.subrange(12 * i, 12 * i + 4) =~= u32_bytes(m.chunk_type_index));
                assert(b.subrange(12 * i + 4, 12 * i + 8) =~= u32_bytes(m.filepath_index));
                assert(b.subrange(12 * i + 8, 12 * i + 12) =~= u32_bytes(m.chunk_name_index));
            }
        }
    }
}

/// The page size of a page closed by the trailer `pg` is the trailer's
/// `page_size` field, whatever its `reference_size` field holds; its
/// reference size is the `reference_size` field.
pub proof fn lemma_page_size_is_trailer_field(cs: Seq<SpecChunk>, pg: NuccPage)
    requires
        cs.len() > 0,
        cs.last().data == SpecNuccChunk::NuccPage(pg),
    ensures
        page_size_of(cs) == pg.page_size,
        reference_size_of(cs) == pg.reference_size,
{
}

/// After a page closed by the trailer `pg`, the next page's window of the
/// index table starts `pg.page_size` entries further on.
pub proof fn lemma_next_page_start(
    s: Seq<u8>,
    p: int,
    t: SpecChunkTable,
    start: u32,
    cs: Seq<SpecChunk>,
    q: int,
    pg: NuccPage,
)
    requires
        spec_read_page(s, p, t, start) == Step::Done(cs, q),
        cs.last().data == SpecNuccChunk::NuccPage(pg),
        start + pg.page_size <= u32::MAX,
    ensures
        spec_read_pages(s, p, t, start) == prefix_step(
            seq![cs],
            spec_read_pages(s, q, t, (start + pg.page_size) as u32),
        ),
{
    crate::nucc::xfbin::lemma_read_page_advances(s, p, t, start);
    assert(cs.len() > 0) by {
        if cs.len() == 0 {
            reveal_with_fuel(spec_read_page, 2);
        }
    }
}

/// No chunk of no page has any type.
pub proof fn lemma_chunks_of_type_empty(t: SpecChunkTable, name: Seq<char>)
    ensures
        chunks_of_type(t, Seq::empty(), name) == Seq::<SpecChunk>::empty(),
        pages_chunks_of_type(t, Seq::empty(), name) == Seq::<SpecChunk>::empty(),
{
}

/// The chunks of a page that have a type, with one more chunk at the end:
/// those of the page before, then the new chunk where it has the type.
pub proof fn lemma_chunks_of_type_push(
    t: SpecChunkTable,
    cs: Seq<SpecChunk>,
    c: SpecChunk,
    name: Seq<char>,
)
    ensures
        chunks_of_type(t, cs.push(c), name) == chunks_of_type(t, cs, name) + if chunk_has_type(
            t,
            c,
            name,
        ) {
            seq![c]
        } else {
            Seq::empty()
        },
{
    assert(cs.push(c).drop_last() =~= cs);
}

/// The chunks of all pages that have a type, with one more page at the end:
/// those of the pages before, then those of the new page, in order.
pub proof fn lemma_pages_chunks_of_type_push(
    t: SpecChunkTable,
    ps: Seq<Seq<SpecChunk>>,
    p: Seq<SpecChunk>,
    name: Seq<char>,
)
    ensures
        pages_chunks_of_type(t, ps.push(p), name) == pages_chunks_of_type(t, ps, name)
            + chunks_of_type(t, p, name),
{
    assert(ps.push(p).drop_last() =~= ps);
}

/// Every chunk found by type has that type, and every chunk of every page
/// that has the type is found.
pub proof fn lemma_pages_chunks_of_type_members(
    t: SpecChunkTable,
    ps: Seq<Seq<SpecChunk>>,
    name: Seq<char>,
)
    ensures
        forall|c: SpecChunk|
            pages_chunks_of_type(t, ps, name).contains(c) ==> chunk_has_type(t, c, name),
        forall|k: int, i: int|
            0 <= k < ps.len() && 0 <= i < ps[k].len() && chunk_has_type(t, ps[k][i], name)
                ==> pages_chunks_of_type(t, ps, name).contains(#[trigger] ps[k][i]),
    decreases ps.len(),
{
    if ps.len() > 0 {
        let init = ps.drop_last();
        lemma_pages_chunks_of_type_members(t, init, name);
        lemma_chunks_of_type_members(t, ps.last(), name);
        let r = pages_chunks_of_type(t, ps, name);
        let a = pages_chunks_of_type(t, init, name);
        let b = chunks_of_type(t, ps.last(), name);
        assert(r == a + b);
        assert forall|c: SpecChunk| r.contains(c) implies chunk_has_type(t, c, name) by {
            let j = choose|j: int| 0 <= j < r.len() && r[j] == c;
            if j < a.len() {
                assert(a[j] == c);
            } else {
                assert(b[j - a.len()] == c);
            }
        }
        assert forall|k: int, i: int|
            0 <= k < ps.len() && 0 <= i < ps[k].len() && chunk_has_type(t, ps[k][i], name)
                implies r.contains(#[trigger] ps[k][i]) by {
            if k < init.len() {
                assert(init[k] == ps[k]);
                assert(a.contains(init[k][i]));
                let j = choose|j: int| 0 <= j < a.len() && a[j] == init[k][i];
                assert(r[j] == a[j]);
            } else {
                assert(b.contains(ps.last()[i]));
                let j = choose|j: int| 0 <= j < b.len() && b[j] == ps.last()[i];
                assert(r[a.len() + j] == b[j]);
            }
        }
    }
}

/// Every chunk of a page found by type has that type, and every chunk of
/// the page that has the type is found.
pub proof fn lemma_chunks_of_type_members(t: SpecChunkTable, cs: Seq<SpecChunk>, name: Seq<char>)
    ensures
        forall|c: SpecChunk| chunks_of_type(t, cs, name).contains(c) ==> chunk_has_type(t, c, name),
        forall|i: int|
            0 <= i < cs.len() && chunk_has_type(t, cs[i], name) ==> chunks_of_type(
                t,
                cs,
                name,
            ).contains(#[trigger] cs[i]),
    decreases cs.len(),
{
    if cs.len() > 0 {
        let init = cs.drop_last();
        lemma_chunks_of_type_members(t, init, name);
        let r = chunks_of_type(t, cs, name);
        let a = chunks_of_type(t, init, name);
        let last: Seq<SpecChunk> = if chunk_has_type(t, cs.last(), name) {
            seq![cs.last()]
        } else {
            Seq::empty()
        };
        assert(r == a + last);
        assert forall|c: SpecChunk| r.contains(c) implies chunk_has_type(t, c, name) by {
            let j = choose|j: int| 0 <= j < r.len() && r[j] == c;
            if j < a.len() {
                assert(a[j] == c);
            } else {
                assert(last[j - a.len()] == c);
            }
        }
        assert forall|i: int| 0 <= i < cs.len() && chunk_has_type(t, cs[i], name) implies r.contains(
            #[trigger] cs[i],
        ) by {
            if i < init.len() {
                assert(init[i] == cs[i]);
                assert(a.contains(init[i]));
                let j = choose|j: int| 0 <= j < a.len() && a[j] == init[i];
                assert(r[j] == a[j]);
            } else {
                assert(r[a.len() as int] == cs.last());
            }
        }
    }
}

} // verus!

verus! {

/// From position `m` on, `s` holds the chunk maps `maps` as runs of
/// big-endian `u32`s twelve bytes apart: type index, file path index, chunk
/// name index.
pub open spec fn chunk_maps_stored_at(s: Seq<u8>, maps: Seq<ChunkMap>, m: int) -> bool {
    forall|i: int|
        0 <= i < maps.len() ==> {
            &&& (#[trigger] maps[i]).chunk_type_index == u32_at(s, m + 12 * i)
            &&& maps[i].filepath_index == u32_at(s, m + 12 * i + 4)
            &&& maps[i].chunk_name_index == u32_at(s, m + 12 * i + 8)
        }
}

/// From position `r` on, `s` holds the chunk references `refs` as pairs of
/// big-endian `u32`s eight bytes apart: chunk name index, chunk map index.
pub open spec fn chunk_references_stored_at(s: Seq<u8>, refs: Seq<ChunkReference>, r: int) -> bool {
    forall|i: int|
        0 <= i < refs.len() ==> {
            &&& (#[trigger] refs[i]).chunk_name_index == u32_at(s, r + 8 * i)
            &&& refs[i].chunk_map_index == u32_at(s, r + 8 * i + 4)
        }
}

/// The chunk maps and chunk references of a table read from `s` lie in the
/// bytes field by field, each map and each reference in its own run of
/// big-endian `u32`s.
pub proof fn lemma_read_table_fields_in_bytes(s: Seq<u8>, p: int)
    ensures
        spec_read_chunk_table(s, p) matches Step::Done(t, _) ==> {
            &&& exists|m: int| chunk_maps_stored_at(s, t.chunk_maps, m)
            &&& exists|r: int| chunk_references_stored_at(s, t.chunk_map_references, r)
        },
{
    reveal(spec_read_chunk_table);
    if let Step::Done(t, _) = spec_read_chunk_table(s, p) {
        let chunk_type_count = u32_at(s, p);
        let filepath_count = u32_at(s, p + 8);
        let chunk_name_count = u32_at(s, p + 16);
        let chunk_map_count = u32_at(s, p + 24);
        let refs_count = u32_at(s, p + 36);
        if let Step::Done(_, q1) = spec_read_null_strings(s, p + 40, chunk_type_count as nat) {
            if let Step::Done(_, q2) = spec_read_null_strings(s, q1, filepath_count as nat) {
                if let Step::Done(_, q3) = spec_read_null_strings(s, q2, chunk_name_count as nat) {
                    let m = align4(q3);
                    lemma_read_chunk_maps_fields(s, m, chunk_map_count as nat);
                    if let Step::Done(maps, q4) = spec_read_chunk_maps(s, m, chunk_map_count as nat) {
                        assert(maps == t.chunk_maps);
                        assert(chunk_maps_stored_at(s, t.chunk_maps, m));
                        lemma_read_chunk_references_fields(s, q4, refs_count as nat);
                        if let Step::Done(refs, _) = spec_read_chunk_references(
                            s,
                            q4,
                            refs_count as nat,
                        ) {
                            assert(refs == t.chunk_map_references);
                            assert(chunk_references_stored_at(s, t.chunk_map_references, q4));
                        }
                    }
                }
            }
        }
    }
}

} // verus!
