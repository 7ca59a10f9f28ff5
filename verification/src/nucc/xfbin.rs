//! The XFBIN container: a `NUCC` header, a chunk table of names and index
//! triples, and pages of chunks, all big-endian.
//!
//! Reading follows the bytes from the start of the buffer. The header and the
//! chunk table must be complete; pages are read until the data runs out, and a
//! page cut short by the end of the data is dropped.

use vstd::prelude::*;

use crate::bytes::{u16_at, u16_bytes, u32_at, u32_bytes, zeros, read_u16_be, read_u32_be, push_u16_be, push_u32_be, push_zeros, push_bytes, copy_range, bytes_eq};
use crate::nucc::nucc::{NuccChunk, NuccPage, SpecNuccChunk};
use crate::text::{null_string_text, null_string_to_string};
use vstd::utf8::{
    decode_utf8, decode_utf8_encode_utf8, encode_utf8, encode_utf8_decode_utf8,
    encode_utf8_valid_utf8, is_ascii_chars, is_ascii_chars_encode_utf8, valid_utf8,
};

verus! {

/// Why reading stopped.
///
/// `UnexpectedEof`, `BadMagic` and `TruncatedChunk` (a chunk whose payload
/// runs past the end of the data) are errors of the format. `IndexOutOfRange`
/// and `ArithmeticOverflow` mark data on which a chunk's index triple cannot
/// be looked up (an index past the end of a table, or a page start that does
/// not fit in a `u32`); [`Xfbin::read`] does not accept such data.
#[derive(Debug, Clone, Copy, PartialEq, Eq)]
pub enum ReadFault {
    UnexpectedEof,
    BadMagic,
    TruncatedChunk,
    IndexOutOfRange,
    ArithmeticOverflow,
}

/// An error of the format.
#[derive(Debug, Clone, Copy, PartialEq, Eq)]
pub enum XfbinError {
    UnexpectedEof,
    BadMagic,
    TruncatedChunk,
}

/// The fault is one on which the index lookup of a chunk fails.
pub open spec fn is_lookup_fault(f: ReadFault) -> bool {
    f is IndexOutOfRange || f is ArithmeticOverflow
}

/// The error reported for a format fault.
pub open spec fn error_of(f: ReadFault) -> XfbinError {
    if f is BadMagic {
        XfbinError::BadMagic
    } else if f is TruncatedChunk {
        XfbinError::TruncatedChunk
    } else {
        XfbinError::UnexpectedEof
    }
}

/// Computes [`error_of`] for a fault.
pub fn error_for(f: ReadFault) -> (e: XfbinError)
    ensures
        e == error_of(f),
{
    match f {
        ReadFault::BadMagic => XfbinError::BadMagic,
        ReadFault::TruncatedChunk => XfbinError::TruncatedChunk,
        _ => XfbinError::UnexpectedEof,
    }
}

/// The outcome of reading one item at a position: the item and the position
/// after it, or a fault.
pub enum Step<T> {
    Done(T, int),
    Fault(ReadFault),
}

/// Puts `pre` in front of the sequence a step produced.
pub open spec fn prefix_step<T>(pre: Seq<T>, st: Step<Seq<T>>) -> Step<Seq<T>> {
    match st {
        Step::Done(v, r) => Step::Done(pre + v, r),
        Step::Fault(f) => Step::Fault(f),
    }
}

/// The file header.
#[derive(Debug, Clone, Copy, PartialEq, Eq)]
pub struct NuccHeader {
    pub version: u32,
    pub chunk_table_size: u32,
    pub min_page_size: u32,
    pub file_id: u16,
    pub field1_a: u16,
}

/// Indices of a chunk's type, file path and name in the chunk table.
#[derive(Debug, Clone, Copy, PartialEq, Eq, Default)]
pub struct ChunkMap {
    pub chunk_type_index: u32,
    pub filepath_index: u32,
    pub chunk_name_index: u32,
}

/// A reference from a chunk name to a chunk map.
#[derive(Debug, Clone, Copy, PartialEq, Eq)]
pub struct ChunkReference {
    pub chunk_name_index: u32,
    pub chunk_map_index: u32,
}

/// The chunk table. Names are kept as their raw bytes, without the
/// terminating zero.
#[derive(Debug, Clone)]
pub struct NuccChunkTable {
    pub chunk_type_count: u32,
    pub chunk_type_size: u32,
    pub filepath_count: u32,
    pub filepath_size: u32,
    pub chunk_name_count: u32,
    pub chunk_name_size: u32,
    pub chunk_map_count: u32,
    pub chunk_map_size: u32,
    pub chunk_map_indices_count: u32,
    pub chunk_map_references_count: u32,
    pub chunk_types: Vec<Vec<u8>>,
    pub filepaths: Vec<Vec<u8>>,
    pub chunk_names: Vec<Vec<u8>>,
    pub chunk_maps: Vec<ChunkMap>,
    pub chunk_map_references: Vec<ChunkReference>,
    pub chunk_map_indices: Vec<u32>,
}

/// One chunk of a page. `chunk_map` is not stored in the file: it is the
/// chunk map that the page's index table selects for `chunk_map_index`.
#[derive(Debug, Clone)]
pub struct Chunk {
    pub size: u32,
    pub chunk_map_index: u32,
    pub version: u16,
    pub unk: u16,
    pub chunk_map: ChunkMap,
    pub data: NuccChunk,
}

/// A page: chunks up to and including the page trailer.
#[derive(Debug, Clone, Default)]
pub struct Page {
    pub chunks: Vec<Chunk>,
}

/// A whole XFBIN file.
#[derive(Debug, Clone)]
pub struct Xfbin {
    pub header: NuccHeader,
    pub chunk_table: NuccChunkTable,
    pub pages: Vec<Page>,
}

/// The mathematical value of a [`NuccChunkTable`].
pub struct SpecChunkTable {
    pub chunk_type_count: u32,
    pub chunk_type_size: u32,
    pub filepath_count: u32,
    pub filepath_size: u32,
    pub chunk_name_count: u32,
    pub chunk_name_size: u32,
    pub chunk_map_count: u32,
    pub chunk_map_size: u32,
    pub chunk_map_indices_count: u32,
    pub chunk_map_references_count: u32,
    pub chunk_types: Seq<Seq<u8>>,
    pub filepaths: Seq<Seq<u8>>,
    pub chunk_names: Seq<Seq<u8>>,
    pub chunk_maps: Seq<ChunkMap>,
    pub chunk_map_references: Seq<ChunkReference>,
    pub chunk_map_indices: Seq<u32>,
}

/// The mathematical value of a [`Chunk`].
pub struct SpecChunk {
    pub size: u32,
    pub chunk_map_index: u32,
    pub version: u16,
    pub unk: u16,
    pub chunk_map: ChunkMap,
    pub data: SpecNuccChunk,
}

/// The mathematical value of an [`Xfbin`].
pub struct SpecXfbin {
    pub header: NuccHeader,
    pub chunk_table: SpecChunkTable,
    pub pages: Seq<Seq<SpecChunk>>,
}

/// The byte sequences of a list of names.
pub open spec fn names_view(v: Seq<Vec<u8>>) -> Seq<Seq<u8>> {
    v.map_values(|x: Vec<u8>| x@)
}

impl View for NuccChunkTable {
    type V = SpecChunkTable;

    open spec fn view(&self) -> SpecChunkTable {
        SpecChunkTable {
            chunk_type_count: self.chunk_type_count,
            chunk_type_size: self.chunk_type_size,
            filepath_count: self.filepath_count,
            filepath_size: self.filepath_size,
            chunk_name_count: self.chunk_name_count,
            chunk_name_size: self.chunk_name_size,
            chunk_map_count: self.chunk_map_count,
            chunk_map_size: self.chunk_map_size,
            chunk_map_indices_count: self.chunk_map_indices_count,
            chunk_map_references_count: self.chunk_map_references_count,
            chunk_types: names_view(self.chunk_types@),
            filepaths: names_view(self.filepaths@),
            chunk_names: names_view(self.chunk_names@),
            chunk_maps: self.chunk_maps@,
            chunk_map_references: self.chunk_map_references@,
            chunk_map_indices: self.chunk_map_indices@,
        }
    }
}

impl View for Chunk {
    type V = SpecChunk;

    open spec fn view(&self) -> SpecChunk {
        SpecChunk {
            size: self.size,
            chunk_map_index: self.chunk_map_index,
            version: self.version,
            unk: self.unk,
            chunk_map: self.chunk_map,
            data: self.data@,
        }
    }
}

impl View for Page {
    type V = Seq<SpecChunk>;

    open spec fn view(&self) -> Seq<SpecChunk> {
        self.chunks@.map_values(|c: Chunk| c@)
    }
}

impl View for Xfbin {
    type V = SpecXfbin;

    open spec fn view(&self) -> SpecXfbin {
        SpecXfbin {
            header: self.header,
            chunk_table: self.chunk_table@,
            pages: self.pages@.map_values(|p: Page| p@),
        }
    }
}

// ---------------------------------------------------------------------------
// The format, read.
// ---------------------------------------------------------------------------

/// The magic number `NUCC`.
pub open spec fn magic() -> Seq<u8> {
    seq![0x4eu8, 0x55u8, 0x43u8, 0x43u8]
}

/// The type name `nuccChunkPage`.
pub open spec fn page_type_name() -> Seq<u8> {
    seq![
        0x6eu8, 0x75u8, 0x63u8, 0x63u8, 0x43u8, 0x68u8, 0x75u8, 0x6eu8, 0x6bu8,
        0x50u8, 0x61u8, 0x67u8, 0x65u8,
    ]
}

/// The type name `nuccChunkBinary`.
pub open spec fn binary_type_name() -> Seq<u8> {
    seq![
        0x6eu8, 0x75u8, 0x63u8, 0x63u8, 0x43u8, 0x68u8, 0x75u8, 0x6eu8, 0x6bu8,
        0x42u8, 0x69u8, 0x6eu8, 0x61u8, 0x72u8, 0x79u8,
    ]
}

/// The header, which starts the file and is 28 bytes long: the magic, the
/// version, eight skipped bytes, two sizes and two 16-bit fields.
pub open spec fn spec_read_header(s: Seq<u8>) -> Step<NuccHeader> {
    if s.len() < 4 {
        Step::Fault(ReadFault::UnexpectedEof)
    } else if s.subrange(0, 4) != magic() {
        Step::Fault(ReadFault::BadMagic)
    } else if s.len() < 28 {
        Step::Fault(ReadFault::UnexpectedEof)
    } else {
        Step::Done(
            NuccHeader {
                version: u32_at(s, 4),
                chunk_table_size: u32_at(s, 16),
                min_page_size: u32_at(s, 20),
                file_id: u16_at(s, 24),
                field1_a: u16_at(s, 26),
            },
            28,
        )
    }
}

/// The position of the first zero byte at or after `p`.
pub open spec fn terminator(s: Seq<u8>, p: int) -> Option<int>
    decreases s.len() - p,
{
    if p < 0 || p >= s.len() {
        None
    } else if s[p] == 0 {
        Some(p)
    } else {
        terminator(s, p + 1)
    }
}

/// A zero-terminated name at `p`; the terminator is consumed.
pub open spec fn spec_read_null_string(s: Seq<u8>, p: int) -> Step<Seq<u8>> {
    match terminator(s, p) {
        Some(z) => Step::Done(s.subrange(p, z), z + 1),
        None => Step::Fault(ReadFault::UnexpectedEof),
    }
}

/// `n` zero-terminated names in a row at `p`.
pub open spec fn spec_read_null_strings(s: Seq<u8>, p: int, n: nat) -> Step<Seq<Seq<u8>>>
    decreases n,
{
    if n == 0 {
        Step::Done(Seq::empty(), p)
    } else {
        match spec_read_null_strings(s, p, (n - 1) as nat) {
            Step::Done(v, q) => match spec_read_null_string(s, q) {
                Step::Done(x, r) => Step::Done(v.push(x), r),
                Step::Fault(f) => Step::Fault(f),
            },
            Step::Fault(f) => Step::Fault(f),
        }
    }
}

/// Once reading names has failed, reading more of them fails the same way.
pub proof fn lemma_null_strings_fault_persists(s: Seq<u8>, p: int, i: nat, n: nat)
    requires
        i <= n,
        spec_read_null_strings(s, p, i) is Fault,
    ensures
        spec_read_null_strings(s, p, n) == spec_read_null_strings(s, p, i),
    decreases n,
{
    if n > i {
        lemma_null_strings_fault_persists(s, p, i, (n - 1) as nat);
    }
}

/// Names read at `p` end within the data.
pub proof fn lemma_null_strings_within(s: Seq<u8>, p: int, n: nat)
    ensures
        spec_read_null_strings(s, p, n) matches Step::Done(_, q) ==> (n == 0 && q == p) || (p
            < q <= s.len()),
    decreases n,
{
    if n > 0 {
        lemma_null_strings_within(s, p, (n - 1) as nat);
        if let Step::Done(_, q) = spec_read_null_strings(s, p, (n - 1) as nat) {
            lemma_terminator_within(s, q);
        }
    }
}

/// A terminator found at or after `p` lies within the data.
pub proof fn lemma_terminator_within(s: Seq<u8>, p: int)
    ensures
        terminator(s, p) matches Some(z) ==> 0 <= p <= z < s.len() && s[z] == 0,
    decreases s.len() - p,
{
    if 0 <= p < s.len() && s[p] != 0 {
        lemma_terminator_within(s, p + 1);
    }
}

/// The chunk map stored at `p` (twelve bytes).
pub open spec fn chunk_map_at(s: Seq<u8>, p: int) -> ChunkMap {
    ChunkMap {
        chunk_type_index: u32_at(s, p),
        filepath_index: u32_at(s, p + 4),
        chunk_name_index: u32_at(s, p + 8),
    }
}

/// The chunk reference stored at `p` (eight bytes).
pub open spec fn chunk_reference_at(s: Seq<u8>, p: int) -> ChunkReference {
    ChunkReference { chunk_name_index: u32_at(s, p), chunk_map_index: u32_at(s, p + 4) }
}

/// `n` chunk maps in a row at `p`. Reading none succeeds even past the end
/// of the data (the aligned position may lie there).
pub open spec fn spec_read_chunk_maps(s: Seq<u8>, p: int, n: nat) -> Step<Seq<ChunkMap>> {
    if n == 0 {
        Step::Done(Seq::empty(), p)
    } else if 0 <= p && p + 12 * n <= s.len() {
        Step::Done(Seq::new(n, |i: int| chunk_map_at(s, p + 12 * i)), p + 12 * n)
    } else {
        Step::Fault(ReadFault::UnexpectedEof)
    }
}

/// `n` chunk references in a row at `p`.
pub open spec fn spec_read_chunk_references(s: Seq<u8>, p: int, n: nat) -> Step<
    Seq<ChunkReference>,
> {
    if n == 0 {
        Step::Done(Seq::empty(), p)
    } else if 0 <= p && p + 8 * n <= s.len() {
        Step::Done(Seq::new(n, |i: int| chunk_reference_at(s, p + 8 * i)), p + 8 * n)
    } else {
        Step::Fault(ReadFault::UnexpectedEof)
    }
}

/// `n` big-endian `u32`s in a row at `p`.
pub open spec fn spec_read_u32s(s: Seq<u8>, p: int, n: nat) -> Step<Seq<u32>> {
    if n == 0 {
        Step::Done(Seq::empty(), p)
    } else if 0 <= p && p + 4 * n <= s.len() {
        Step::Done(Seq::new(n, |i: int| u32_at(s, p + 4 * i)), p + 4 * n)
    } else {
        Step::Fault(ReadFault::UnexpectedEof)
    }
}

/// The next multiple of four at or after `q`.
pub open spec fn align4(q: int) -> int {
    q + (4 - q % 4) % 4
}

/// The chunk table at `p`: ten counts and sizes, the type names, file paths
/// and chunk names, then (at the next multiple of four in the file) the chunk
/// maps, the chunk references and the chunk map indices.
#[verifier::opaque]
pub open spec fn spec_read_chunk_table(s: Seq<u8>, p: int) -> Step<SpecChunkTable> {
    if p < 0 || p + 40 > s.len() {
        Step::Fault(ReadFault::UnexpectedEof)
    } else {
        let chunk_type_count = u32_at(s, p);
        let chunk_type_size = u32_at(s, p + 4);
        let filepath_count = u32_at(s, p + 8);
        let filepath_size = u32_at(s, p + 12);
        let chunk_name_count = u32_at(s, p + 16);
        let chunk_name_size = u32_at(s, p + 20);
        let chunk_map_count = u32_at(s, p + 24);
        let chunk_map_size = u32_at(s, p + 28);
        let chunk_map_indices_count = u32_at(s, p + 32);
        let chunk_map_references_count = u32_at(s, p + 36);
        match spec_read_null_strings(s, p + 40, chunk_type_count as nat) {
            Step::Fault(f) => Step::Fault(f),
            Step::Done(chunk_types, q1) => match spec_read_null_strings(
                s,
                q1,
                filepath_count as nat,
            ) {
                Step::Fault(f) => Step::Fault(f),
                Step::Done(filepaths, q2) => match spec_read_null_strings(
                    s,
                    q2,
                    chunk_name_count as nat,
                ) {
                    Step::Fault(f) => Step::Fault(f),
                    Step::Done(chunk_names, q3) => match spec_read_chunk_maps(
                        s,
                        align4(q3),
                        chunk_map_count as nat,
                    ) {
                        Step::Fault(f) => Step::Fault(f),
                        Step::Done(chunk_maps, q4) => match spec_read_chunk_references(
                            s,
                            q4,
                            chunk_map_references_count as nat,
                        ) {
                            Step::Fault(f) => Step::Fault(f),
                            Step::Done(chunk_map_references, q5) => match spec_read_u32s(
                                s,
                                q5,
                                chunk_map_indices_count as nat,
                            ) {
                                Step::Fault(f) => Step::Fault(f),
                                Step::Done(chunk_map_indices, q6) => Step::Done(
                                    SpecChunkTable {
                                        chunk_type_count,
                                        chunk_type_size,
                                        filepath_count,
                                        filepath_size,
                                        chunk_name_count,
                                        chunk_name_size,
                                        chunk_map_count,
                                        chunk_map_size,
                                        chunk_map_indices_count,
                                        chunk_map_references_count,
                                        chunk_types,
                                        filepaths,
                                        chunk_names,
                                        chunk_maps,
                                        chunk_map_references,
                                        chunk_map_indices,
                                    },
                                    q6,
                                ),
                            },
                        },
                    },
                },
            },
        }
    }
}

/// The type name, file path and chunk name of `m` can all be looked up.
///
/// The file path is taken from the chunk map at `m.filepath_index`, and the
/// chunk name from the chunk map at `m.chunk_name_index`.
pub open spec fn chunk_info_defined(t: SpecChunkTable, m: ChunkMap) -> bool {
    &&& m.chunk_type_index < t.chunk_types.len()
    &&& m.filepath_index < t.chunk_maps.len()
    &&& t.chunk_maps[m.filepath_index as int].filepath_index < t.filepaths.len()
    &&& m.chunk_name_index < t.chunk_maps.len()
    &&& t.chunk_maps[m.chunk_name_index as int].chunk_name_index < t.chunk_names.len()
}

/// The raw type name of `m`.
pub open spec fn chunk_type_name(t: SpecChunkTable, m: ChunkMap) -> Seq<u8> {
    t.chunk_types[m.chunk_type_index as int]
}

/// The chunk map that a chunk with index `index` in the page starting at
/// `page_start` uses: entry `page_start + index` of the index table selects
/// it, and its type, path and name must be defined.
pub open spec fn map_lookup(t: SpecChunkTable, index: u32, page_start: u32) -> Result<
    ChunkMap,
    ReadFault,
> {
    let k = page_start + index;
    if k > u32::MAX {
        Err(ReadFault::ArithmeticOverflow)
    } else if k >= t.chunk_map_indices.len() {
        Err(ReadFault::IndexOutOfRange)
    } else if t.chunk_map_indices[k] >= t.chunk_maps.len() {
        Err(ReadFault::IndexOutOfRange)
    } else if !chunk_info_defined(t, t.chunk_maps[t.chunk_map_indices[k] as int]) {
        Err(ReadFault::IndexOutOfRange)
    } else {
        Ok(t.chunk_maps[t.chunk_map_indices[k] as int])
    }
}

/// The payload of a chunk at `p`: a page trailer is eight bytes whatever the
/// size says; any other chunk is `size` raw bytes.
pub open spec fn spec_read_chunk_data(s: Seq<u8>, p: int, size: u32, name: Seq<u8>) -> Step<
    SpecNuccChunk,
> {
    if name == page_type_name() {
        if 0 <= p && p + 8 <= s.len() {
            Step::Done(
                SpecNuccChunk::NuccPage(
                    NuccPage { page_size: u32_at(s, p), reference_size: u32_at(s, p + 4) },
                ),
                p + 8,
            )
        } else {
            Step::Fault(ReadFault::UnexpectedEof)
        }
    } else if 0 <= p && p + size <= s.len() {
        if name == binary_type_name() {
            Step::Done(SpecNuccChunk::NuccBinary(s.subrange(p, p + size)), p + size)
        } else {
            Step::Done(SpecNuccChunk::Unknown(s.subrange(p, p + size)), p + size)
        }
    } else {
        Step::Fault(ReadFault::UnexpectedEof)
    }
}

/// A chunk at `p` in the page starting at `page_start`: size, index,
/// version, a second 16-bit field, then the payload.
pub open spec fn spec_read_chunk(s: Seq<u8>, p: int, t: SpecChunkTable, page_start: u32) -> Step<
    SpecChunk,
> {
    if p < 0 || p + 8 > s.len() {
        Step::Fault(ReadFault::UnexpectedEof)
    } else {
        let size = u32_at(s, p);
        let index = u32_at(s, p + 4);
        match map_lookup(t, index, page_start) {
            Err(f) => Step::Fault(f),
            Ok(m) => if p + 12 > s.len() {
                Step::Fault(ReadFault::UnexpectedEof)
            } else {
                match spec_read_chunk_data(s, p + 12, size, chunk_type_name(t, m)) {
                    Step::Fault(f) => Step::Fault(f),
                    Step::Done(d, q) => Step::Done(
                        SpecChunk {
                            size,
                            chunk_map_index: index,
                            version: u16_at(s, p + 8),
                            unk: u16_at(s, p + 10),
                            chunk_map: m,
                            data: d,
                        },
                        q,
                    ),
                }
            },
        }
    }
}

/// A chunk read at `p` ends at least twelve bytes further on.
pub proof fn lemma_read_chunk_advances(s: Seq<u8>, p: int, t: SpecChunkTable, page_start: u32)
    ensures
        spec_read_chunk(s, p, t, page_start) matches Step::Done(_, q) ==> p + 12 <= q <= s.len(),
{
}

/// The chunks of a page at `p`, up to and including the first chunk whose
/// type is `nuccChunkPage`.
pub open spec fn spec_read_page(s: Seq<u8>, p: int, t: SpecChunkTable, page_start: u32) -> Step<
    Seq<SpecChunk>,
>
    decreases s.len() - p,
{
    match spec_read_chunk(s, p, t, page_start) {
        Step::Fault(f) => Step::Fault(f),
        Step::Done(c, q) => if chunk_type_name(t, c.chunk_map) == page_type_name() {
            Step::Done(seq![c], q)
        } else {
            proof {
                lemma_read_chunk_advances(s, p, t, page_start);
            }
            prefix_step(seq![c], spec_read_page(s, q, t, page_start))
        },
    }
}

/// The page size recorded in a page's trailer (zero when the last chunk is
/// not a trailer).
pub open spec fn page_size_of(chunks: Seq<SpecChunk>) -> u32 {
    if chunks.len() > 0 && chunks.last().data is NuccPage {
        chunks.last().data->NuccPage_0.page_size
    } else {
        0
    }
}

/// The reference size recorded in a page's trailer (zero when the last chunk
/// is not a trailer).
pub open spec fn reference_size_of(chunks: Seq<SpecChunk>) -> u32 {
    if chunks.len() > 0 && chunks.last().data is NuccPage {
        chunks.last().data->NuccPage_0.reference_size
    } else {
        0
    }
}

/// A page read at `p` ends at least twelve bytes further on.
pub proof fn lemma_read_page_advances(s: Seq<u8>, p: int, t: SpecChunkTable, page_start: u32)
    ensures
        spec_read_page(s, p, t, page_start) matches Step::Done(_, q) ==> p + 12 <= q <= s.len(),
    decreases s.len() - p,
{
    lemma_read_chunk_advances(s, p, t, page_start);
    if let Step::Done(c, q) = spec_read_chunk(s, p, t, page_start) {
        if chunk_type_name(t, c.chunk_map) != page_type_name() {
            lemma_read_page_advances(s, q, t, page_start);
        }
    }
}

/// Pages from `p` on, the first starting at index `page_start`: each page
/// moves the start on by its page size. Reading stops, keeping the pages
/// read so far, at the first page that the data ends inside of.
pub open spec fn spec_read_pages(s: Seq<u8>, p: int, t: SpecChunkTable, page_start: u32) -> Step<
    Seq<Seq<SpecChunk>>,
>
    decreases s.len() - p,
{
    match spec_read_page(s, p, t, page_start) {
        Step::Fault(f) => if f is UnexpectedEof {
            Step::Done(Seq::empty(), p)
        } else {
            Step::Fault(f)
        },
        Step::Done(cs, q) => if page_start + page_size_of(cs) > u32::MAX {
            Step::Fault(ReadFault::ArithmeticOverflow)
        } else {
            proof {
                lemma_read_page_advances(s, p, t, page_start);
            }
            prefix_step(
                seq![cs],
                spec_read_pages(s, q, t, (page_start + page_size_of(cs)) as u32),
            )
        },
    }
}

/// At or past the end of the data no page is read.
pub proof fn lemma_pages_past_end(s: Seq<u8>, p: int, t: SpecChunkTable, page_start: u32)
    requires
        p >= s.len(),
    ensures
        spec_read_pages(s, p, t, page_start) == Step::Done(Seq::<Seq<SpecChunk>>::empty(), p),
{
    assert(spec_read_chunk(s, p, t, page_start) == Step::<SpecChunk>::Fault(
        ReadFault::UnexpectedEof,
    ));
}

/// A whole file: the header, the chunk table, then the pages.
pub open spec fn spec_read_xfbin(s: Seq<u8>) -> Result<SpecXfbin, ReadFault> {
    match spec_read_header(s) {
        Step::Fault(f) => Err(f),
        Step::Done(header, p) => match spec_read_chunk_table(s, p) {
            Step::Fault(f) => Err(f),
            Step::Done(chunk_table, q) => match spec_read_pages(s, q, chunk_table, 0) {
                Step::Fault(f) => Err(f),
                Step::Done(pages, _) => Ok(SpecXfbin { header, chunk_table, pages }),
            },
        },
    }
}


// ---------------------------------------------------------------------------
// Reading, executable.
// ---------------------------------------------------------------------------

/// The bytes `NUCC`.
fn magic_bytes() -> (r: [u8; 4])
    ensures
        r@ == magic(),
{
    let r: [u8; 4] = [0x4e, 0x55, 0x43, 0x43];
    assert(r@ =~= magic());
    r
}

/// The bytes `nuccChunkPage`.
fn page_type_name_bytes() -> (r: [u8; 13])
    ensures
        r@ == page_type_name(),
{
    let r: [u8; 13] = [0x6e, 0x75, 0x63, 0x63, 0x43, 0x68, 0x75, 0x6e, 0x6b, 0x50, 0x61, 0x67, 0x65];
    assert(r@ =~= page_type_name());
    r
}

/// The bytes `nuccChunkBinary`.
fn binary_type_name_bytes() -> (r: [u8; 15])
    ensures
        r@ == binary_type_name(),
{
    let r: [u8; 15] = [
        0x6e, 0x75, 0x63, 0x63, 0x43, 0x68, 0x75, 0x6e, 0x6b, 0x42, 0x69, 0x6e, 0x61, 0x72, 0x79,
    ];
    assert(r@ =~= binary_type_name());
    r
}

/// Reads the header at the start of `bytes`.
pub(crate) fn parse_header(bytes: &[u8]) -> (r: Result<(NuccHeader, usize), ReadFault>)
    ensures
        match r {
            Ok((h, q)) => spec_read_header(bytes@) == Step::Done(h, q as int),
            Err(f) => spec_read_header(bytes@) == Step::<NuccHeader>::Fault(f),
        },
{
    if bytes.len() < 4 {
        return Err(ReadFault::UnexpectedEof);
    }
    let m = magic_bytes();
    if !bytes_eq(vstd::slice::slice_subrange(bytes, 0, 4), m.as_slice()) {
        return Err(ReadFault::BadMagic);
    }
    if bytes.len() < 28 {
        return Err(ReadFault::UnexpectedEof);
    }
    let header = NuccHeader {
        version: read_u32_be(bytes, 4),
        chunk_table_size: read_u32_be(bytes, 16),
        min_page_size: read_u32_be(bytes, 20),
        file_id: read_u16_be(bytes, 24),
        field1_a: read_u16_be(bytes, 26),
    };
    Ok((header, 28))
}

/// Reads one zero-terminated name at `pos`.
fn parse_null_string(bytes: &[u8], pos: usize) -> (r: Result<(Vec<u8>, usize), ReadFault>)
    ensures
        match r {
            Ok((v, q)) => spec_read_null_string(bytes@, pos as int) == Step::Done(v@, q as int),
            Err(f) => spec_read_null_string(bytes@, pos as int) == Step::<Seq<u8>>::Fault(f),
        },
{
    if pos >= bytes.len() {
        return Err(ReadFault::UnexpectedEof);
    }
    let mut i: usize = pos;
    while i < bytes.len() && bytes[i] != 0
        invariant
            pos <= i <= bytes@.len(),
            terminator(bytes@, pos as int) == terminator(bytes@, i as int),
        decreases bytes@.len() - i,
    {
        i = i + 1;
    }
    if i == bytes.len() {
        return Err(ReadFault::UnexpectedEof);
    }
    Ok((copy_range(bytes, pos, i), i + 1))
}

/// Reads `n` zero-terminated names in a row at `pos`.
fn parse_null_strings(bytes: &[u8], pos: usize, n: u32) -> (r: Result<
    (Vec<Vec<u8>>, usize),
    ReadFault,
>)
    ensures
        match r {
            Ok((v, q)) => spec_read_null_strings(bytes@, pos as int, n as nat) == Step::Done(
                names_view(v@),
                q as int,
            ),
            Err(f) => spec_read_null_strings(bytes@, pos as int, n as nat) == Step::<
                Seq<Seq<u8>>,
            >::Fault(f),
        },
{
    let mut v: Vec<Vec<u8>> = Vec::new();
    let mut p = pos;
    let mut i: u32 = 0;
    assert(names_view(v@) =~= Seq::<Seq<u8>>::empty());
    while i < n
        invariant
            i <= n,
            spec_read_null_strings(bytes@, pos as int, i as nat) == Step::Done(
                names_view(v@),
                p as int,
            ),
        decreases n - i,
    {
        match parse_null_string(bytes, p) {
            Ok((x, q)) => {
                let ghost old_v = v@;
                v.push(x);
                assert(names_view(v@) =~= names_view(old_v).push(x@));
                p = q;
                i = i + 1;
            },
            Err(f) => {
                proof {
                    lemma_null_strings_fault_persists(bytes@, pos as int, (i + 1) as nat, n as nat);
                }
                return Err(f);
            },
        }
    }
    Ok((v, p))
}

/// Reads `n` chunk maps in a row at `pos`.
fn parse_chunk_maps(bytes: &[u8], pos: usize, n: u32) -> (r: Result<
    (Vec<ChunkMap>, usize),
    ReadFault,
>)
    requires
        pos <= bytes@.len() + 3,
    ensures
        match r {
            Ok((v, q)) => spec_read_chunk_maps(bytes@, pos as int, n as nat) == Step::Done(
                v@,
                q as int,
            ),
            Err(f) => spec_read_chunk_maps(bytes@, pos as int, n as nat) == Step::<
                Seq<ChunkMap>,
            >::Fault(f),
        },
{
    let mut v: Vec<ChunkMap> = Vec::new();
    if n == 0 {
        assert(v@ =~= Seq::<ChunkMap>::empty());
        return Ok((v, pos));
    }
    if pos > bytes.len() || (n as u64) * 12 > (bytes.len() - pos) as u64 {
        return Err(ReadFault::UnexpectedEof);
    }
    let mut i: u32 = 0;
    while i < n
        invariant
            i <= n,
            pos + 12 * n <= bytes@.len(),
            bytes@.len() == bytes.len(),
            v@.len() == i,
            forall|k: int| 0 <= k < i ==> v@[k] == chunk_map_at(bytes@, pos + 12 * k),
        decreases n - i,
    {
        let p = pos + 12 * (i as usize);
        let m = ChunkMap {
            chunk_type_index: read_u32_be(bytes, p),
            filepath_index: read_u32_be(bytes, p + 4),
            chunk_name_index: read_u32_be(bytes, p + 8),
        };
        v.push(m);
        i = i + 1;
    }
    assert(v@ =~= Seq::new(n as nat, |k: int| chunk_map_at(bytes@, pos + 12 * k)));
    Ok((v, pos + 12 * (n as usize)))
}

/// Reads `n` chunk references in a row at `pos`.
fn parse_chunk_references(bytes: &[u8], pos: usize, n: u32) -> (r: Result<
    (Vec<ChunkReference>, usize),
    ReadFault,
>)
    requires
        pos <= bytes@.len() + 3,
    ensures
        match r {
            Ok((v, q)) => spec_read_chunk_references(bytes@, pos as int, n as nat) == Step::Done(
                v@,
                q as int,
            ),
            Err(f) => spec_read_chunk_references(bytes@, pos as int, n as nat) == Step::<
                Seq<ChunkReference>,
            >::Fault(f),
        },
{
    let mut v: Vec<ChunkReference> = Vec::new();
    if n == 0 {
        assert(v@ =~= Seq::<ChunkReference>::empty());
        return Ok((v, pos));
    }
    if pos > bytes.len() || (n as u64) * 8 > (bytes.len() - pos) as u64 {
        return Err(ReadFault::UnexpectedEof);
    }
    let mut i: u32 = 0;
    while i < n
        invariant
            i <= n,
            pos + 8 * n <= bytes@.len(),
            bytes@.len() == bytes.len(),
            v@.len() == i,
            forall|k: int| 0 <= k < i ==> v@[k] == chunk_reference_at(bytes@, pos + 8 * k),
        decreases n - i,
    {
        let p = pos + 8 * (i as usize);
        let m = ChunkReference {
            chunk_name_index: read_u32_be(bytes, p),
            chunk_map_index: read_u32_be(bytes, p + 4),
        };
        v.push(m);
        i = i + 1;
    }
    assert(v@ =~= Seq::new(n as nat, |k: int| chunk_reference_at(bytes@, pos + 8 * k)));
    Ok((v, pos + 8 * (n as usize)))
}

/// Reads `n` big-endian `u32`s in a row at `pos`.
fn parse_u32s(bytes: &[u8], pos: usize, n: u32) -> (r: Result<(Vec<u32>, usize), ReadFault>)
    requires
        pos <= bytes@.len() + 3,
    ensures
        match r {
            Ok((v, q)) => spec_read_u32s(bytes@, pos as int, n as nat) == Step::Done(
                v@,
                q as int,
            ),
            Err(f) => spec_read_u32s(bytes@, pos as int, n as nat) == Step::<Seq<u32>>::Fault(f),
        },
{
    let mut v: Vec<u32> = Vec::new();
    if n == 0 {
        assert(v@ =~= Seq::<u32>::empty());
        return Ok((v, pos));
    }
    if pos > bytes.len() || (n as u64) * 4 > (bytes.len() - pos) as u64 {
        return Err(ReadFault::UnexpectedEof);
    }
    let mut i: u32 = 0;
    while i < n
        invariant
            i <= n,
            pos + 4 * n <= bytes@.len(),
            bytes@.len() == bytes.len(),
            v@.len() == i,
            forall|k: int| 0 <= k < i ==> v@[k] == u32_at(bytes@, pos + 4 * k),
        decreases n - i,
    {
        v.push(read_u32_be(bytes, pos + 4 * (i as usize)));
        i = i + 1;
    }
    assert(v@ =~= Seq::new(n as nat, |k: int| u32_at(bytes@, pos + 4 * k)));
    Ok((v, pos + 4 * (n as usize)))
}


/// Reads the chunk table at `pos`.
pub(crate) fn parse_chunk_table(bytes: &[u8], pos: usize) -> (r: Result<(NuccChunkTable, usize), ReadFault>)
    ensures
        match r {
            Ok((t, q)) => spec_read_chunk_table(bytes@, pos as int) matches Step::Done(u, e) && u
                == t@ && q == (if e <= bytes@.len() {
                e
            } else {
                bytes@.len() as int
            }),
            Err(f) => spec_read_chunk_table(bytes@, pos as int) == Step::<SpecChunkTable>::Fault(
                f,
            ),
        },
{
    reveal(spec_read_chunk_table);
    if pos > bytes.len() || bytes.len() - pos < 40 {
        return Err(ReadFault::UnexpectedEof);
    }
    let chunk_type_count = read_u32_be(bytes, pos);
    let chunk_type_size = read_u32_be(bytes, pos + 4);
    let filepath_count = read_u32_be(bytes, pos + 8);
    let filepath_size = read_u32_be(bytes, pos + 12);
    let chunk_name_count = read_u32_be(bytes, pos + 16);
    let chunk_name_size = read_u32_be(bytes, pos + 20);
    let chunk_map_count = read_u32_be(bytes, pos + 24);
    let chunk_map_size = read_u32_be(bytes, pos + 28);
    let chunk_map_indices_count = read_u32_be(bytes, pos + 32);
    let chunk_map_references_count = read_u32_be(bytes, pos + 36);
    let (chunk_types, q1) = parse_null_strings(bytes, pos + 40, chunk_type_count)?;
    let (filepaths, q2) = parse_null_strings(bytes, q1, filepath_count)?;
    let (chunk_names, q3) = parse_null_strings(bytes, q2, chunk_name_count)?;
    proof {
        lemma_null_strings_within(bytes@, pos + 40, chunk_type_count as nat);
        lemma_null_strings_within(bytes@, q1 as int, filepath_count as nat);
        lemma_null_strings_within(bytes@, q2 as int, chunk_name_count as nat);
    }
    let pad = (4 - q3 % 4) % 4;
    if pad > bytes.len() - q3 {
        // The chunk maps would start past the end of the data: only empty
        // lists can be read there.
        if chunk_map_count > 0 || chunk_map_references_count > 0 || chunk_map_indices_count > 0 {
            return Err(ReadFault::UnexpectedEof);
        }
        let table = NuccChunkTable {
            chunk_type_count,
            chunk_type_size,
            filepath_count,
            filepath_size,
            chunk_name_count,
            chunk_name_size,
            chunk_map_count,
            chunk_map_size,
            chunk_map_indices_count,
            chunk_map_references_count,
            chunk_types,
            filepaths,
            chunk_names,
            chunk_maps: Vec::new(),
            chunk_map_references: Vec::new(),
            chunk_map_indices: Vec::new(),
        };
        assert(table@.chunk_maps =~= Seq::<ChunkMap>::empty());
        assert(table@.chunk_map_references =~= Seq::<ChunkReference>::empty());
        assert(table@.chunk_map_indices =~= Seq::<u32>::empty());
        return Ok((table, bytes.len()));
    }
    let aligned = q3 + pad;
    let (chunk_maps, q4) = parse_chunk_maps(bytes, aligned, chunk_map_count)?;
    let (chunk_map_references, q5) = parse_chunk_references(
        bytes,
        q4,
        chunk_map_references_count,
    )?;
    let (chunk_map_indices, q6) = parse_u32s(bytes, q5, chunk_map_indices_count)?;
    let table = NuccChunkTable {
        chunk_type_count,
        chunk_type_size,
        filepath_count,
        filepath_size,
        chunk_name_count,
        chunk_name_size,
        chunk_map_count,
        chunk_map_size,
        chunk_map_indices_count,
        chunk_map_references_count,
        chunk_types,
        filepaths,
        chunk_names,
        chunk_maps,
        chunk_map_references,
        chunk_map_indices,
    };
    Ok((table, q6))
}


/// Looks up the chunk map for index `index` in the page starting at
/// `page_start`, checking that its type, path and name can be looked up.
fn lookup_chunk_map(table: &NuccChunkTable, index: u32, page_start: u32) -> (r: Result<
    ChunkMap,
    ReadFault,
>)
    ensures
        r == map_lookup(table@, index, page_start),
{
    let k = match page_start.checked_add(index) {
        Some(k) => k,
        None => {
            return Err(ReadFault::ArithmeticOverflow);
        },
    };
    if (k as usize) >= table.chunk_map_indices.len() {
        return Err(ReadFault::IndexOutOfRange);
    }
    let m_index = table.chunk_map_indices[k as usize];
    if (m_index as usize) >= table.chunk_maps.len() {
        return Err(ReadFault::IndexOutOfRange);
    }
    let m = table.chunk_maps[m_index as usize];
    if (m.chunk_type_index as usize) >= table.chunk_types.len() || (m.filepath_index as usize)
        >= table.chunk_maps.len() || (table.chunk_maps[m.filepath_index as usize].filepath_index as usize)
        >= table.filepaths.len() || (m.chunk_name_index as usize) >= table.chunk_maps.len() || (
    table.chunk_maps[m.chunk_name_index as usize].chunk_name_index as usize)
        >= table.chunk_names.len() {
        return Err(ReadFault::IndexOutOfRange);
    }
    Ok(m)
}

/// Reads the payload of a chunk with the given size and type name at `pos`.
fn read_chunk_data(size: u32, name: &[u8], bytes: &[u8], pos: usize) -> (r: Result<
    (NuccChunk, usize),
    ReadFault,
>)
    ensures
        match r {
            Ok((d, q)) => spec_read_chunk_data(bytes@, pos as int, size, name@) == Step::Done(
                d@,
                q as int,
            ),
            Err(f) => spec_read_chunk_data(bytes@, pos as int, size, name@) == Step::<
                SpecNuccChunk,
            >::Fault(f),
        },
{
    let page_name = page_type_name_bytes();
    let binary_name = binary_type_name_bytes();
    if bytes_eq(name, page_name.as_slice()) {
        if pos > bytes.len() || bytes.len() - pos < 8 {
            return Err(ReadFault::UnexpectedEof);
        }
        let page = NuccPage {
            page_size: read_u32_be(bytes, pos),
            reference_size: read_u32_be(bytes, pos + 4),
        };
        Ok((NuccChunk::NuccPage(page), pos + 8))
    } else {
        if pos > bytes.len() || bytes.len() - pos < size as usize {
            return Err(ReadFault::UnexpectedEof);
        }
        let end = pos + size as usize;
        let data = copy_range(bytes, pos, end);
        if bytes_eq(name, binary_name.as_slice()) {
            Ok((NuccChunk::NuccBinary(data), end))
        } else {
            Ok((NuccChunk::Unknown(data), end))
        }
    }
}

/// Reads one chunk at `pos` in the page starting at `page_start`.
fn parse_chunk(bytes: &[u8], pos: usize, chunk_table: &NuccChunkTable, page_start: u32) -> (r:
    Result<(Chunk, usize), ReadFault>)
    ensures
        match r {
            Ok((c, q)) => spec_read_chunk(bytes@, pos as int, chunk_table@, page_start)
                == Step::Done(c@, q as int),
            Err(f) => spec_read_chunk(bytes@, pos as int, chunk_table@, page_start) == Step::<
                SpecChunk,
            >::Fault(f),
        },
{
    if pos > bytes.len() || bytes.len() - pos < 8 {
        return Err(ReadFault::UnexpectedEof);
    }
    let size = read_u32_be(bytes, pos);
    let chunk_map_index = read_u32_be(bytes, pos + 4);
    let chunk_map = lookup_chunk_map(chunk_table, chunk_map_index, page_start)?;
    if bytes.len() - pos < 12 {
        return Err(ReadFault::UnexpectedEof);
    }
    let version = read_u16_be(bytes, pos + 8);
    let unk = read_u16_be(bytes, pos + 10);
    let name = chunk_table.chunk_types[chunk_map.chunk_type_index as usize].as_slice();
    proof {
        assert(name@ == chunk_type_name(chunk_table@, chunk_map));
    }
    let (data, q) = read_chunk_data(size, name, bytes, pos + 12)?;
    Ok((Chunk { size, chunk_map_index, version, unk, chunk_map, data }, q))
}


/// The values of a list of chunks.
pub open spec fn chunks_view(v: Seq<Chunk>) -> Seq<SpecChunk> {
    v.map_values(|c: Chunk| c@)
}

/// The values of a list of pages.
pub open spec fn pages_view(v: Seq<Page>) -> Seq<Seq<SpecChunk>> {
    v.map_values(|p: Page| p@)
}

/// Putting `pre` and then `x` in front is putting `pre.push(x)` in front.
pub proof fn lemma_prefix_step_push<T>(pre: Seq<T>, x: T, st: Step<Seq<T>>)
    ensures
        prefix_step(pre, prefix_step(seq![x], st)) == prefix_step(pre.push(x), st),
{
    if let Step::Done(v, r) = st {
        assert(pre + (seq![x] + v) =~= pre.push(x) + v);
    }
}

/// A chunk that was read has a chunk map whose type, path and name are
/// defined.
pub proof fn lemma_read_chunk_map_defined(
    s: Seq<u8>,
    p: int,
    t: SpecChunkTable,
    page_start: u32,
)
    ensures
        spec_read_chunk(s, p, t, page_start) matches Step::Done(c, _) ==> map_lookup(
            t,
            c.chunk_map_index,
            page_start,
        ) == Ok::<ChunkMap, ReadFault>(c.chunk_map) && chunk_info_defined(t, c.chunk_map),
{
}

/// Reading a page fails only at the end of the data or on a lookup fault.
pub proof fn lemma_read_page_faults(s: Seq<u8>, p: int, t: SpecChunkTable, page_start: u32)
    ensures
        spec_read_page(s, p, t, page_start) matches Step::Fault(f) ==> f is UnexpectedEof
            || is_lookup_fault(f),
    decreases s.len() - p,
{
    lemma_read_chunk_advances(s, p, t, page_start);
    if let Step::Done(c, q) = spec_read_chunk(s, p, t, page_start) {
        if chunk_type_name(t, c.chunk_map) != page_type_name() {
            lemma_read_page_faults(s, q, t, page_start);
        }
    }
}

/// Reads the chunks of one page at `pos`.
fn parse_page(bytes: &[u8], pos: usize, chunk_table: &NuccChunkTable, page_start: u32) -> (r:
    Result<(Page, usize), ReadFault>)
    ensures
        match r {
            Ok((pg, q)) => spec_read_page(bytes@, pos as int, chunk_table@, page_start)
                == Step::Done(pg@, q as int),
            Err(f) => spec_read_page(bytes@, pos as int, chunk_table@, page_start) == Step::<
                Seq<SpecChunk>,
            >::Fault(f),
        },
{
    let ghost s = bytes@;
    let ghost t = chunk_table@;
    if pos > bytes.len() {
        return Err(ReadFault::UnexpectedEof);
    }
    let page_name = page_type_name_bytes();
    let mut chunks: Vec<Chunk> = Vec::new();
    let mut p = pos;
    assert(prefix_step(chunks_view(chunks@), spec_read_page(s, p as int, t, page_start))
        == spec_read_page(s, pos as int, t, page_start)) by {
        if let Step::Done(v, r) = spec_read_page(s, p as int, t, page_start) {
            assert(chunks_view(chunks@) + v =~= v);
        }
    }
    loop
        invariant
            bytes@ == s,
            chunk_table@ == t,
            p <= s.len(),
            page_name@ == page_type_name(),
            prefix_step(chunks_view(chunks@), spec_read_page(s, p as int, t, page_start))
                == spec_read_page(s, pos as int, t, page_start),
        decreases s.len() - p,
    {
        let (c, q) = match parse_chunk(bytes, p, chunk_table, page_start) {
            Ok(cq) => cq,
            Err(f) => {
                return Err(f);
            },
        };
        proof {
            lemma_read_chunk_map_defined(s, p as int, t, page_start);
            lemma_read_chunk_advances(s, p as int, t, page_start);
        }
        let is_last = bytes_eq(
            chunk_table.chunk_types[c.chunk_map.chunk_type_index as usize].as_slice(),
            page_name.as_slice(),
        );
        let ghost old_chunks = chunks@;
        chunks.push(c);
        assert(chunks_view(chunks@) =~= chunks_view(old_chunks).push(c@));
        proof {
            lemma_prefix_step_push(
                chunks_view(old_chunks),
                c@,
                spec_read_page(s, q as int, t, page_start),
            );
        }
        if is_last {
            assert(chunks_view(old_chunks) + seq![c@] =~= chunks_view(chunks@));
            return Ok((Page { chunks }, q));
        }
        p = q;
    }
}

/// Reads pages from `pos` on until the data runs out.
fn parse_pages(bytes: &[u8], pos: usize, chunk_table: &NuccChunkTable, page_start: u32) -> (r:
    Result<(Vec<Page>, usize), ReadFault>)
    ensures
        match r {
            Ok((ps, q)) => spec_read_pages(bytes@, pos as int, chunk_table@, page_start)
                == Step::Done(pages_view(ps@), q as int),
            Err(f) => spec_read_pages(bytes@, pos as int, chunk_table@, page_start) == Step::<
                Seq<Seq<SpecChunk>>,
            >::Fault(f),
        },
{
    let ghost s = bytes@;
    let ghost t = chunk_table@;
    let mut pages: Vec<Page> = Vec::new();
    let mut p = pos;
    let mut start = page_start;
    assert(prefix_step(pages_view(pages@), spec_read_pages(s, p as int, t, start))
        == spec_read_pages(s, pos as int, t, page_start)) by {
        if let Step::Done(v, r) = spec_read_pages(s, p as int, t, start) {
            assert(pages_view(pages@) + v =~= v);
        }
    }
    loop
        invariant
            bytes@ == s,
            chunk_table@ == t,
            p == pos || p <= s.len(),
            prefix_step(pages_view(pages@), spec_read_pages(s, p as int, t, start))
                == spec_read_pages(s, pos as int, t, page_start),
        decreases (if p <= s.len() { s.len() - p + 1 } else { s.len() + 2int }),
    {
        let (page, q) = match parse_page(bytes, p, chunk_table, start) {
            Ok(pq) => pq,
            Err(ReadFault::UnexpectedEof) => {
                assert(pages_view(pages@) + Seq::<Seq<SpecChunk>>::empty() =~= pages_view(
                    pages@,
                ));
                return Ok((pages, p));
            },
            Err(f) => {
                return Err(f);
            },
        };
        proof {
            lemma_read_page_advances(s, p as int, t, start);
        }
        let size = page.get_page_size();
        let next = match start.checked_add(size) {
            Some(n) => n,
            None => {
                return Err(ReadFault::ArithmeticOverflow);
            },
        };
        let ghost old_pages = pages@;
        let ghost pv = page@;
        pages.push(page);
        assert(pages_view(pages@) =~= pages_view(old_pages).push(pv));
        proof {
            lemma_prefix_step_push(pages_view(old_pages), pv, spec_read_pages(s, q as int, t, next));
        }
        p = q;
        start = next;
    }
}

impl Page {
    /// The page size recorded in the page's trailer, or zero when the last
    /// chunk is not a trailer.
    pub fn get_page_size(&self) -> (r: u32)
        ensures
            r == page_size_of(self@),
            self@.len() > 0 && self@.last().data is NuccPage ==> r
                == self@.last().data->NuccPage_0.page_size,
    {
        let n = self.chunks.len();
        if n > 0 {
            let last = &self.chunks[n - 1];
            assert(self@.last() == last@);
            if let NuccChunk::NuccPage(nucc_page) = &last.data {
                return nucc_page.page_size;
            }
        }
        0
    }

    /// The reference size recorded in the page's trailer, or zero when the
    /// last chunk is not a trailer.
    pub fn get_reference_size(&self) -> (r: u32)
        ensures
            r == reference_size_of(self@),
    {
        let n = self.chunks.len();
        if n > 0 {
            let last = &self.chunks[n - 1];
            assert(self@.last() == last@);
            if let NuccChunk::NuccPage(nucc_page) = &last.data {
                return nucc_page.reference_size;
            }
        }
        0
    }
}


impl Chunk {
    /// Reads one chunk at `pos` in the page whose chunk map indices start at
    /// `page_start`, returning it with the position after it.
    pub fn read_chunk(bytes: &[u8], pos: usize, chunk_table: &NuccChunkTable, page_start: u32) -> (r:
        Result<(Chunk, usize), XfbinError>)
        requires
            !(spec_read_chunk(bytes@, pos as int, chunk_table@, page_start) matches Step::Fault(f)
                && is_lookup_fault(f)),
        ensures
            match r {
                Ok((c, q)) => spec_read_chunk(bytes@, pos as int, chunk_table@, page_start)
                    == Step::Done(c@, q as int),
                Err(e) => e == XfbinError::UnexpectedEof && spec_read_chunk(
                    bytes@,
                    pos as int,
                    chunk_table@,
                    page_start,
                ) == Step::<SpecChunk>::Fault(ReadFault::UnexpectedEof),
            },
    {
        match parse_chunk(bytes, pos, chunk_table, page_start) {
            Ok(cq) => Ok(cq),
            Err(_) => Err(XfbinError::UnexpectedEof),
        }
    }
}

impl Page {
    /// Reads one page at `pos`: chunks up to and including the first chunk
    /// whose type is `nuccChunkPage`.
    pub fn read_page(
        bytes: &[u8],
        pos: usize,
        chunk_table: &NuccChunkTable,
        current_page_start: u32,
    ) -> (r: Result<(Page, usize), XfbinError>)
        requires
            !(spec_read_page(bytes@, pos as int, chunk_table@, current_page_start) matches Step::Fault(
                f,
            ) && is_lookup_fault(f)),
        ensures
            match r {
                Ok((pg, q)) => spec_read_page(bytes@, pos as int, chunk_table@, current_page_start)
                    == Step::Done(pg@, q as int),
                Err(e) => e == XfbinError::UnexpectedEof && spec_read_page(
                    bytes@,
                    pos as int,
                    chunk_table@,
                    current_page_start,
                ) == Step::<Seq<SpecChunk>>::Fault(ReadFault::UnexpectedEof),
            },
    {
        proof {
            lemma_read_page_faults(bytes@, pos as int, chunk_table@, current_page_start);
        }
        match parse_page(bytes, pos, chunk_table, current_page_start) {
            Ok(pq) => Ok(pq),
            Err(_) => Err(XfbinError::UnexpectedEof),
        }
    }
}

impl Xfbin {
    /// Reads a whole file, reporting as a fault also the data on which a
    /// chunk's index triple cannot be looked up.
    pub fn try_read(bytes: &[u8]) -> (r: Result<Xfbin, ReadFault>)
        ensures
            match r {
                Ok(x) => spec_read_xfbin(bytes@) == Ok::<SpecXfbin, ReadFault>(x@),
                Err(f) => spec_read_xfbin(bytes@) == Err::<SpecXfbin, ReadFault>(f),
            },
    {
        let (header, p) = parse_header(bytes)?;
        let (chunk_table, q) = parse_chunk_table(bytes, p)?;
        proof {
            if let Step::Done(_, e) = spec_read_chunk_table(bytes@, p as int) {
                if e > bytes@.len() {
                    lemma_pages_past_end(bytes@, e, chunk_table@, 0);
                    lemma_pages_past_end(bytes@, q as int, chunk_table@, 0);
                }
            }
        }
        let (pages, _) = parse_pages(bytes, q, &chunk_table, 0)?;
        Ok(Xfbin { header, chunk_table, pages })
    }

    /// Reads a whole file: the header, the chunk table, then pages until the
    /// data runs out. A page that the data ends inside of is dropped.
    pub fn read(bytes: &[u8]) -> (r: Result<Xfbin, XfbinError>)
        requires
            !(spec_read_xfbin(bytes@) matches Err(f) && is_lookup_fault(f)),
        ensures
            match r {
                Ok(x) => spec_read_xfbin(bytes@) == Ok::<SpecXfbin, ReadFault>(x@),
                Err(e) => spec_read_xfbin(bytes@) matches Err(f) && e == error_of(f),
            },
    {
        match Xfbin::try_read(bytes) {
            Ok(x) => Ok(x),
            Err(f) => Err(error_for(f)),
        }
    }
}


impl NuccChunkTable {
    /// The type name, file path and chunk name of `chunk_map`, as text. The
    /// file path is that of the chunk map at `chunk_map.filepath_index`, and
    /// the chunk name that of the chunk map at `chunk_map.chunk_name_index`.
    pub fn get_chunk_info(&self, chunk_map: &ChunkMap) -> (r: (String, String, String))
        requires
            chunk_info_defined(self@, *chunk_map),
        ensures
            r.0@ == null_string_text(self@.chunk_types[chunk_map.chunk_type_index as int]),
            r.1@ == null_string_text(
                self@.filepaths[self@.chunk_maps[chunk_map.filepath_index as int].filepath_index as int],
            ),
            r.2@ == null_string_text(
                self@.chunk_names[self@.chunk_maps[chunk_map.chunk_name_index as int].chunk_name_index as int],
            ),
            r.0@ == "nuccChunkPage"@ <==> chunk_type_name(self@, *chunk_map) == page_type_name(),
    {
        let chunk_type = get_chunk_type(chunk_map.chunk_type_index, self);
        let filepath = get_chunk_filepath(chunk_map.filepath_index, self);
        let chunk_name = get_chunk_name(chunk_map.chunk_name_index, self);
        (chunk_type, filepath, chunk_name)
    }
}

/// Entry `page_start + index` of the chunk map index table.
pub fn get_chunk_map_index(index: u32, page_start: u32, chunk_table: &NuccChunkTable) -> (r: u32)
    requires
        page_start + index <= u32::MAX,
        page_start + index < chunk_table@.chunk_map_indices.len(),
    ensures
        r == chunk_table@.chunk_map_indices[page_start + index],
{
    chunk_table.chunk_map_indices[(page_start + index) as usize]
}

/// A text that decodes `b` where `b` is valid UTF-8, and holds U+FFFD where
/// it is not, is `nuccChunkPage` exactly when `b` is the page type name.
pub proof fn lemma_page_type_text(b: Seq<u8>, text: Seq<char>)
    requires
        valid_utf8(b) ==> text == decode_utf8(b),
        !valid_utf8(b) ==> text.contains('\u{FFFD}'),
    ensures
        text == "nuccChunkPage"@ <==> b == page_type_name(),
{
    reveal_strlit("nuccChunkPage");
    let cs = "nuccChunkPage"@;
    assert(is_ascii_chars(cs));
    is_ascii_chars_encode_utf8(cs);
    assert(encode_utf8(cs) =~= page_type_name());
    encode_utf8_valid_utf8(cs);
    encode_utf8_decode_utf8(cs);
    if text == cs {
        if !valid_utf8(b) {
            let i = choose|i: int| 0 <= i < text.len() && text[i] == '\u{FFFD}';
            assert(cs[i] != '\u{FFFD}');
        }
        decode_utf8_encode_utf8(b);
    }
}

/// The type name at `chunk_type_index`, as text. It reads `nuccChunkPage`
/// exactly when the raw name is the page type name.
pub fn get_chunk_type(chunk_type_index: u32, chunk_table: &NuccChunkTable) -> (r: String)
    requires
        chunk_type_index < chunk_table@.chunk_types.len(),
    ensures
        r@ == null_string_text(chunk_table@.chunk_types[chunk_type_index as int]),
        r@ == "nuccChunkPage"@ <==> chunk_table@.chunk_types[chunk_type_index as int]
            == page_type_name(),
{
    let r = null_string_to_string(&chunk_table.chunk_types[chunk_type_index as usize]);
    proof {
        lemma_page_type_text(chunk_table@.chunk_types[chunk_type_index as int], r@);
    }
    r
}

/// The file path of the chunk map at `chunk_map_index`, as text.
pub fn get_chunk_filepath(chunk_map_index: u32, chunk_table: &NuccChunkTable) -> (r: String)
    requires
        chunk_map_index < chunk_table@.chunk_maps.len(),
        chunk_table@.chunk_maps[chunk_map_index as int].filepath_index
            < chunk_table@.filepaths.len(),
    ensures
        r@ == null_string_text(
            chunk_table@.filepaths[chunk_table@.chunk_maps[chunk_map_index as int].filepath_index as int],
        ),
{
    let chunk_map = chunk_table.chunk_maps[chunk_map_index as usize];
    null_string_to_string(&chunk_table.filepaths[chunk_map.filepath_index as usize])
}

/// The chunk name of the chunk map at `chunk_map_index`, as text.
pub fn get_chunk_name(chunk_map_index: u32, chunk_table: &NuccChunkTable) -> (r: String)
    requires
        chunk_map_index < chunk_table@.chunk_maps.len(),
        chunk_table@.chunk_maps[chunk_map_index as int].chunk_name_index
            < chunk_table@.chunk_names.len(),
    ensures
        r@ == null_string_text(
            chunk_table@.chunk_names[chunk_table@.chunk_maps[chunk_map_index as int].chunk_name_index as int],
        ),
{
    let chunk_map = chunk_table.chunk_maps[chunk_map_index as usize];
    null_string_to_string(&chunk_table.chunk_names[chunk_map.chunk_name_index as usize])
}

/// The chunk map at a chunk's own `chunk_map_index` has a type name.
pub open spec fn chunk_type_resolvable(t: SpecChunkTable, c: SpecChunk) -> bool {
    &&& c.chunk_map_index < t.chunk_maps.len()
    &&& t.chunk_maps[c.chunk_map_index as int].chunk_type_index < t.chunk_types.len()
}

/// The type name, as text, of the chunk map at a chunk's own
/// `chunk_map_index`, is `name`.
pub open spec fn chunk_has_type(t: SpecChunkTable, c: SpecChunk, name: Seq<char>) -> bool {
    null_string_text(t.chunk_types[t.chunk_maps[c.chunk_map_index as int].chunk_type_index as int])
        == name
}

/// The chunks of `cs` that have type `name`, in order.
pub open spec fn chunks_of_type(t: SpecChunkTable, cs: Seq<SpecChunk>, name: Seq<char>) -> Seq<
    SpecChunk,
>
    decreases cs.len(),
{
    if cs.len() == 0 {
        Seq::empty()
    } else {
        chunks_of_type(t, cs.drop_last(), name) + if chunk_has_type(t, cs.last(), name) {
            seq![cs.last()]
        } else {
            Seq::empty()
        }
    }
}

/// The chunks of all pages that have type `name`, in order.
pub open spec fn pages_chunks_of_type(
    t: SpecChunkTable,
    ps: Seq<Seq<SpecChunk>>,
    name: Seq<char>,
) -> Seq<SpecChunk>
    decreases ps.len(),
{
    if ps.len() == 0 {
        Seq::empty()
    } else {
        pages_chunks_of_type(t, ps.drop_last(), name) + chunks_of_type(t, ps.last(), name)
    }
}

/// The values of a list of chunk references.
pub open spec fn chunk_refs_view(v: Seq<&Chunk>) -> Seq<SpecChunk> {
    v.map_values(|c: &Chunk| c@)
}

impl Xfbin {
    /// The chunks of all pages whose type name, looked up through the chunk
    /// map at the chunk's own `chunk_map_index`, is `chunk_type`.
    pub fn get_chunk_by_type(&self, chunk_type: &str) -> (r: Vec<&Chunk>)
        requires
            forall|i: int, j: int|
                0 <= i < self@.pages.len() && 0 <= j < self@.pages[i].len()
                    ==> chunk_type_resolvable(self@.chunk_table, #[trigger] self@.pages[i][j]),
        ensures
            chunk_refs_view(r@) == pages_chunks_of_type(
                self@.chunk_table,
                self@.pages,
                chunk_type@,
            ),
    {
        let ghost t = self@.chunk_table;
        let ghost name = chunk_type@;
        let wanted = chunk_type.to_owned();
        let mut chunks: Vec<&Chunk> = Vec::new();
        let mut i: usize = 0;
        assert(chunk_refs_view(chunks@) =~= Seq::<SpecChunk>::empty());
        while i < self.pages.len()
            invariant
                i <= self.pages@.len(),
                t == self@.chunk_table,
                wanted@ == name,
                forall|a: int, b: int|
                    0 <= a < self@.pages.len() && 0 <= b < self@.pages[a].len()
                        ==> chunk_type_resolvable(t, #[trigger] self@.pages[a][b]),
                chunk_refs_view(chunks@) == pages_chunks_of_type(
                    t,
                    self@.pages.take(i as int),
                    name,
                ),
            decreases self.pages@.len() - i,
        {
            let page = &self.pages[i];
            assert(self@.pages[i as int] == page@);
            let ghost before = chunk_refs_view(chunks@);
            let mut j: usize = 0;
            assert(page@.take(0) =~= Seq::<SpecChunk>::empty());
            assert(before + chunks_of_type(t, page@.take(0), name) =~= before);
            while j < page.chunks.len()
                invariant
                    i < self.pages@.len(),
                    page@ == self@.pages[i as int],
                    j <= page.chunks@.len(),
                    t == self@.chunk_table,
                    wanted@ == name,
                    forall|b: int|
                        0 <= b < page@.len() ==> chunk_type_resolvable(t, #[trigger] page@[b]),
                    chunk_refs_view(chunks@) == before + chunks_of_type(
                        t,
                        page@.take(j as int),
                        name,
                    ),
                decreases page.chunks@.len() - j,
            {
                let chunk = &page.chunks[j];
                assert(page@[j as int] == chunk@);
                assert(chunk_type_resolvable(t, page@[j as int]));
                let chunk_type_index = self.chunk_table.chunk_maps[chunk.chunk_map_index as usize].chunk_type_index;
                let chunk_type_name = get_chunk_type(chunk_type_index, &self.chunk_table);
                assert(page@.take(j + 1).drop_last() =~= page@.take(j as int));
                assert(page@.take(j + 1).last() == chunk@);
                let ghost old_chunks = chunks@;
                if chunk_type_name == wanted {
                    chunks.push(chunk);
                    assert(chunk_refs_view(chunks@) =~= chunk_refs_view(old_chunks) + seq![chunk@]);
                } else {
                    assert(chunk_refs_view(chunks@) =~= chunk_refs_view(old_chunks) + Seq::<SpecChunk>::empty());
                }
                j = j + 1;
            }
            assert(page@.take(j as int) =~= page@);
            assert(self@.pages.take(i + 1).drop_last() =~= self@.pages.take(i as int));
            assert(self@.pages.take(i + 1).last() == page@);
            i = i + 1;
        }
        assert(self@.pages.take(i as int) =~= self@.pages);
        chunks
    }
}


// ---------------------------------------------------------------------------
// The format, written.
// ---------------------------------------------------------------------------

/// The header's 28 bytes; the eight skipped bytes are written as zeros.
pub open spec fn header_bytes(h: NuccHeader) -> Seq<u8> {
    magic() + u32_bytes(h.version) + zeros(8) + u32_bytes(h.chunk_table_size) + u32_bytes(
        h.min_page_size,
    ) + u16_bytes(h.file_id) + u16_bytes(h.field1_a)
}

/// Names, each followed by a zero byte.
pub open spec fn null_strings_bytes(v: Seq<Seq<u8>>) -> Seq<u8>
    decreases v.len(),
{
    if v.len() == 0 {
        Seq::empty()
    } else {
        null_strings_bytes(v.drop_last()) + v.last() + seq![0u8]
    }
}

/// The twelve bytes of a chunk map.
pub open spec fn chunk_map_bytes(m: ChunkMap) -> Seq<u8> {
    u32_bytes(m.chunk_type_index) + u32_bytes(m.filepath_index) + u32_bytes(m.chunk_name_index)
}

/// The eight bytes of a chunk reference.
pub open spec fn chunk_reference_bytes(r: ChunkReference) -> Seq<u8> {
    u32_bytes(r.chunk_name_index) + u32_bytes(r.chunk_map_index)
}

/// Chunk maps in a row.
pub open spec fn chunk_maps_bytes(v: Seq<ChunkMap>) -> Seq<u8>
    decreases v.len(),
{
    if v.len() == 0 {
        Seq::empty()
    } else {
        chunk_maps_bytes(v.drop_last()) + chunk_map_bytes(v.last())
    }
}

/// Chunk references in a row.
pub open spec fn chunk_references_bytes(v: Seq<ChunkReference>) -> Seq<u8>
    decreases v.len(),
{
    if v.len() == 0 {
        Seq::empty()
    } else {
        chunk_references_bytes(v.drop_last()) + chunk_reference_bytes(v.last())
    }
}

/// Big-endian `u32`s in a row.
pub open spec fn u32s_bytes(v: Seq<u32>) -> Seq<u8>
    decreases v.len(),
{
    if v.len() == 0 {
        Seq::empty()
    } else {
        u32s_bytes(v.drop_last()) + u32_bytes(v.last())
    }
}

/// The ten counts and sizes that open the chunk table.
pub open spec fn table_counts_bytes(t: SpecChunkTable) -> Seq<u8> {
    u32_bytes(t.chunk_type_count) + u32_bytes(t.chunk_type_size) + u32_bytes(t.filepath_count)
        + u32_bytes(t.filepath_size) + u32_bytes(t.chunk_name_count) + u32_bytes(
        t.chunk_name_size,
    ) + u32_bytes(t.chunk_map_count) + u32_bytes(t.chunk_map_size) + u32_bytes(
        t.chunk_map_indices_count,
    ) + u32_bytes(t.chunk_map_references_count)
}

/// The counts and the three lists of names.
pub open spec fn table_head_bytes(t: SpecChunkTable) -> Seq<u8> {
    table_counts_bytes(t) + null_strings_bytes(t.chunk_types) + null_strings_bytes(t.filepaths)
        + null_strings_bytes(t.chunk_names)
}

/// The zero bytes that bring position `q` to a multiple of four.
pub open spec fn align_padding(q: int) -> Seq<u8> {
    zeros(((4 - q % 4) % 4) as nat)
}

/// The chunk table written at position `start` of the file.
#[verifier::opaque]
pub open spec fn table_bytes(t: SpecChunkTable, start: int) -> Seq<u8> {
    table_head_bytes(t) + align_padding(start + table_head_bytes(t).len()) + chunk_maps_bytes(
        t.chunk_maps,
    ) + chunk_references_bytes(t.chunk_map_references) + u32s_bytes(t.chunk_map_indices)
}

/// The payload of a chunk.
pub open spec fn chunk_data_bytes(d: SpecNuccChunk) -> Seq<u8> {
    match d {
        SpecNuccChunk::NuccPage(pg) => u32_bytes(pg.page_size) + u32_bytes(pg.reference_size),
        SpecNuccChunk::NuccBinary(b) => b,
        SpecNuccChunk::Unknown(b) => b,
    }
}

/// A chunk: size, index, version, the second 16-bit field, then the payload.
pub open spec fn chunk_bytes(c: SpecChunk) -> Seq<u8> {
    u32_bytes(c.size) + u32_bytes(c.chunk_map_index) + u16_bytes(c.version) + u16_bytes(c.unk)
        + chunk_data_bytes(c.data)
}

/// The chunks of a page in a row.
pub open spec fn page_bytes(cs: Seq<SpecChunk>) -> Seq<u8>
    decreases cs.len(),
{
    if cs.len() == 0 {
        Seq::empty()
    } else {
        chunk_bytes(cs[0]) + page_bytes(cs.drop_first())
    }
}

/// Pages in a row.
pub open spec fn pages_bytes(ps: Seq<Seq<SpecChunk>>) -> Seq<u8>
    decreases ps.len(),
{
    if ps.len() == 0 {
        Seq::empty()
    } else {
        page_bytes(ps[0]) + pages_bytes(ps.drop_first())
    }
}

/// A whole file.
pub open spec fn spec_write_xfbin(x: SpecXfbin) -> Seq<u8> {
    header_bytes(x.header) + table_bytes(x.chunk_table, 28) + pages_bytes(x.pages)
}

/// Writing `a` then `b` writes the chunks of `a + b`.
pub proof fn lemma_page_bytes_concat(a: Seq<SpecChunk>, b: Seq<SpecChunk>)
    ensures
        page_bytes(a + b) == page_bytes(a) + page_bytes(b),
    decreases a.len(),
{
    if a.len() == 0 {
        assert(a + b =~= b);
        assert(page_bytes(a) + page_bytes(b) =~= page_bytes(b));
    } else {
        assert((a + b).drop_first() =~= a.drop_first() + b);
        lemma_page_bytes_concat(a.drop_first(), b);
        assert((a + b)[0] == a[0]);
        assert(page_bytes(a + b) =~= page_bytes(a) + page_bytes(b));
    }
}

/// Writing pages `a` then `b` writes the pages of `a + b`.
pub proof fn lemma_pages_bytes_concat(a: Seq<Seq<SpecChunk>>, b: Seq<Seq<SpecChunk>>)
    ensures
        pages_bytes(a + b) == pages_bytes(a) + pages_bytes(b),
    decreases a.len(),
{
    if a.len() == 0 {
        assert(a + b =~= b);
        assert(pages_bytes(a) + pages_bytes(b) =~= pages_bytes(b));
    } else {
        assert((a + b).drop_first() =~= a.drop_first() + b);
        lemma_pages_bytes_concat(a.drop_first(), b);
        assert((a + b)[0] == a[0]);
        assert(pages_bytes(a + b) =~= pages_bytes(a) + pages_bytes(b));
    }
}

/// The bytes of one chunk make up a one-chunk page.
pub proof fn lemma_page_bytes_single(c: SpecChunk)
    ensures
        page_bytes(seq![c]) == chunk_bytes(c),
{
    assert(seq![c].drop_first() =~= Seq::<SpecChunk>::empty());
    assert(page_bytes(Seq::<SpecChunk>::empty()) == Seq::<u8>::empty());
    assert(chunk_bytes(c) + Seq::<u8>::empty() =~= chunk_bytes(c));
}

/// The bytes of one page make up a one-page list.
pub proof fn lemma_pages_bytes_single(p: Seq<SpecChunk>)
    ensures
        pages_bytes(seq![p]) == page_bytes(p),
{
    assert(seq![p].drop_first() =~= Seq::<Seq<SpecChunk>>::empty());
    assert(pages_bytes(Seq::<Seq<SpecChunk>>::empty()) == Seq::<u8>::empty());
    assert(page_bytes(p) + Seq::<u8>::empty() =~= page_bytes(p));
}

// ---------------------------------------------------------------------------
// Writing, executable.
// ---------------------------------------------------------------------------

fn write_header(out: &mut Vec<u8>, h: &NuccHeader)
    ensures
        final(out)@ == old(out)@ + header_bytes(*h),
{
    let m = magic_bytes();
    push_bytes(out, m.as_slice());
    push_u32_be(out, h.version);
    push_zeros(out, 8);
    push_u32_be(out, h.chunk_table_size);
    push_u32_be(out, h.min_page_size);
    push_u16_be(out, h.file_id);
    push_u16_be(out, h.field1_a);
    assert(final(out)@ =~= old(out)@ + header_bytes(*h));
}

fn write_null_strings(out: &mut Vec<u8>, v: &Vec<Vec<u8>>)
    ensures
        final(out)@ == old(out)@ + null_strings_bytes(names_view(v@)),
{
    let mut i: usize = 0;
    assert(names_view(v@).take(0) =~= Seq::<Seq<u8>>::empty());
    while i < v.len()
        invariant
            i <= v@.len(),
            out@ == old(out)@ + null_strings_bytes(names_view(v@).take(i as int)),
        decreases v@.len() - i,
    {
        push_bytes(out, v[i].as_slice());
        out.push(0u8);
        assert(names_view(v@).take(i + 1).drop_last() =~= names_view(v@).take(i as int));
        assert(out@ =~= old(out)@ + null_strings_bytes(names_view(v@).take(i + 1)));
        i = i + 1;
    }
    assert(names_view(v@).take(i as int) =~= names_view(v@));
}

fn write_chunk_maps(out: &mut Vec<u8>, v: &Vec<ChunkMap>)
    ensures
        final(out)@ == old(out)@ + chunk_maps_bytes(v@),
{
    let mut i: usize = 0;
    assert(v@.take(0) =~= Seq::<ChunkMap>::empty());
    while i < v.len()
        invariant
            i <= v@.len(),
            out@ == old(out)@ + chunk_maps_bytes(v@.take(i as int)),
        decreases v@.len() - i,
    {
        let m = v[i];
        push_u32_be(out, m.chunk_type_index);
        push_u32_be(out, m.filepath_index);
        push_u32_be(out, m.chunk_name_index);
        assert(v@.take(i + 1).drop_last() =~= v@.take(i as int));
        assert(out@ =~= old(out)@ + chunk_maps_bytes(v@.take(i + 1)));
        i = i + 1;
    }
    assert(v@.take(i as int) =~= v@);
}

fn write_chunk_references(out: &mut Vec<u8>, v: &Vec<ChunkReference>)
    ensures
        final(out)@ == old(out)@ + chunk_references_bytes(v@),
{
    let mut i: usize = 0;
    assert(v@.take(0) =~= Seq::<ChunkReference>::empty());
    while i < v.len()
        invariant
            i <= v@.len(),
            out@ == old(out)@ + chunk_references_bytes(v@.take(i as int)),
        decreases v@.len() - i,
    {
        let r = v[i];
        push_u32_be(out, r.chunk_name_index);
        push_u32_be(out, r.chunk_map_index);
        assert(v@.take(i + 1).drop_last() =~= v@.take(i as int));
        assert(out@ =~= old(out)@ + chunk_references_bytes(v@.take(i + 1)));
        i = i + 1;
    }
    assert(v@.take(i as int) =~= v@);
}

fn write_u32s(out: &mut Vec<u8>, v: &Vec<u32>)
    ensures
        final(out)@ == old(out)@ + u32s_bytes(v@),
{
    let mut i: usize = 0;
    assert(v@.take(0) =~= Seq::<u32>::empty());
    while i < v.len()
        invariant
            i <= v@.len(),
            out@ == old(out)@ + u32s_bytes(v@.take(i as int)),
        decreases v@.len() - i,
    {
        push_u32_be(out, v[i]);
        assert(v@.take(i + 1).drop_last() =~= v@.take(i as int));
        assert(out@ =~= old(out)@ + u32s_bytes(v@.take(i + 1)));
        i = i + 1;
    }
    assert(v@.take(i as int) =~= v@);
}

#[verifier::rlimit(40)]
fn write_chunk_table(out: &mut Vec<u8>, t: &NuccChunkTable)
    ensures
        final(out)@ == old(out)@ + table_bytes(t@, old(out)@.len() as int),
{
    push_u32_be(out, t.chunk_type_count);
    push_u32_be(out, t.chunk_type_size);
    push_u32_be(out, t.filepath_count);
    push_u32_be(out, t.filepath_size);
    push_u32_be(out, t.chunk_name_count);
    push_u32_be(out, t.chunk_name_size);
    push_u32_be(out, t.chunk_map_count);
    push_u32_be(out, t.chunk_map_size);
    push_u32_be(out, t.chunk_map_indices_count);
    push_u32_be(out, t.chunk_map_references_count);
    write_null_strings(out, &t.chunk_types);
    write_null_strings(out, &t.filepaths);
    write_null_strings(out, &t.chunk_names);
    assert(out@ =~= old(out)@ + table_head_bytes(t@));
    let pos = out.len();
    push_zeros(out, (4 - pos % 4) % 4);
    write_chunk_maps(out, &t.chunk_maps);
    write_chunk_references(out, &t.chunk_map_references);
    write_u32s(out, &t.chunk_map_indices);
    reveal(table_bytes);
    assert(final(out)@ =~= old(out)@ + table_bytes(t@, old(out)@.len() as int));
}

fn write_chunk(out: &mut Vec<u8>, c: &Chunk)
    ensures
        final(out)@ == old(out)@ + chunk_bytes(c@),
{
    push_u32_be(out, c.size);
    push_u32_be(out, c.chunk_map_index);
    push_u16_be(out, c.version);
    push_u16_be(out, c.unk);
    match &c.data {
        NuccChunk::NuccPage(pg) => {
            push_u32_be(out, pg.page_size);
            push_u32_be(out, pg.reference_size);
        },
        NuccChunk::NuccBinary(b) => {
            push_bytes(out, b.as_slice());
        },
        NuccChunk::Unknown(b) => {
            push_bytes(out, b.as_slice());
        },
    }
    assert(final(out)@ =~= old(out)@ + chunk_bytes(c@));
}

fn write_page(out: &mut Vec<u8>, pg: &Page)
    ensures
        final(out)@ == old(out)@ + page_bytes(pg@),
{
    let mut j: usize = 0;
    assert(pg@.take(0) =~= Seq::<SpecChunk>::empty());
    while j < pg.chunks.len()
        invariant
            j <= pg.chunks@.len(),
            out@ == old(out)@ + page_bytes(pg@.take(j as int)),
        decreases pg.chunks@.len() - j,
    {
        write_chunk(out, &pg.chunks[j]);
        proof {
            assert(pg@.take(j + 1) =~= pg@.take(j as int) + seq![pg@[j as int]]);
            lemma_page_bytes_concat(pg@.take(j as int), seq![pg@[j as int]]);
            lemma_page_bytes_single(pg@[j as int]);
        }
        assert(out@ =~= old(out)@ + page_bytes(pg@.take(j + 1)));
        j = j + 1;
    }
    assert(pg@.take(j as int) =~= pg@);
}

impl Xfbin {
    /// The bytes of the whole file: header, chunk table, then every page.
    pub fn write_be(&self) -> (r: Vec<u8>)
        ensures
            r@ == spec_write_xfbin(self@),
    {
        let mut out: Vec<u8> = Vec::new();
        write_header(&mut out, &self.header);
        assert(out@.len() == 28);
        write_chunk_table(&mut out, &self.chunk_table);
        let ghost before_pages = out@;
        let mut i: usize = 0;
        assert(self@.pages.take(0) =~= Seq::<Seq<SpecChunk>>::empty());
        assert(out@ =~= before_pages + pages_bytes(self@.pages.take(0)));
        while i < self.pages.len()
            invariant
                i <= self.pages@.len(),
                out@ == before_pages + pages_bytes(self@.pages.take(i as int)),
            decreases self.pages@.len() - i,
        {
            write_page(&mut out, &self.pages[i]);
            proof {
                assert(self@.pages.take(i + 1) =~= self@.pages.take(i as int) + seq![
                    self@.pages[i as int],
                ]);
                lemma_pages_bytes_concat(self@.pages.take(i as int), seq![self@.pages[i as int]]);
                lemma_pages_bytes_single(self@.pages[i as int]);
            }
            assert(out@ =~= before_pages + pages_bytes(self@.pages.take(i + 1)));
            i = i + 1;
        }
        assert(self@.pages.take(i as int) =~= self@.pages);
        assert(out@ =~= spec_write_xfbin(self@));
        out
    }
}

} // verus!
