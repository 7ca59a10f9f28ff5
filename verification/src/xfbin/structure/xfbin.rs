//! XFBIN structures whose chunks carry their type name as text, filled in
//! from the chunk table, and lookups by that name.

use vstd::prelude::*;

use crate::text::{null_string_text, null_string_to_string};

verus! {

/// A whole file.
#[derive(Debug, Default, Clone)]
pub struct Xfbin {
    pub header: NuccHeader,
    pub chunk_table: NuccChunkTable,
    pub pages: Vec<Page>,
}

/// The file header.
#[derive(Debug, Default, Clone, Copy, PartialEq, Eq)]
pub struct NuccHeader {
    pub version: u32,
    pub chunk_table_size: u32,
    pub min_page_size: u32,
    pub version1: u16,
    pub field1_a: u16,
}

/// The chunk table; names are kept as their raw bytes.
#[derive(Debug, Default, Clone)]
pub struct NuccChunkTable {
    pub chunk_type_count: u32,
    pub chunk_type_size: u32,
    pub filepath_count: u32,
    pub filepath_size: u32,
    pub chunk_name_count: u32,
    pub chunk_name_size: u32,
    pub chunk_map_count: u32,
    pub chunk_map_size: u32,
    pub chunk_map_indices_count: u32,
    pub chunk_map_references_count: u32,
    pub chunk_types: Vec<Vec<u8>>,
    pub filepaths: Vec<Vec<u8>>,
    pub chunk_names: Vec<Vec<u8>>,
    pub chunk_maps: Vec<ChunkMap>,
    pub chunk_map_references: Vec<ChunkReference>,
    pub chunk_map_indices: Vec<u32>,
}

/// Indices of a chunk's type, file path and name.
#[derive(Debug, Clone, Copy, PartialEq, Eq)]
pub struct ChunkMap {
    pub chunk_type_index: u32,
    pub filepath_index: u32,
    pub chunk_name_index: u32,
}

/// A reference from a chunk name to a chunk map.
#[derive(Debug, Clone, Copy, PartialEq, Eq)]
pub struct ChunkReference {
    pub chunk_name_index: u32,
    pub chunk_map_index: u32,
}

/// A chunk, its type name as text, and its payload.
#[derive(Debug)]
pub struct Chunk {
    pub size: u32,
    pub chunk_map_index: u32,
    pub version: u16,
    pub field0_a: u16,
    pub chunk_type: String,
    pub data: ChunkData,
}

/// The payload of a chunk.
#[derive(Debug)]
pub enum ChunkData {
    NuccChunkNull { data: Vec<u8> },
    NuccChunkBinary(Vec<u8>),
    NuccChunkPage { data: Vec<u8> },
    UnknownChunk { data: Vec<u8> },
}

/// A page of chunks.
#[derive(Debug, Default, Clone)]
pub struct Page {
    pub chunks: Vec<Chunk>,
}

/// The trailer of a page.
#[derive(Debug, Default, Clone, Copy, PartialEq, Eq)]
pub struct NuccChunkPage {
    pub page_size: u32,
    pub extra_indices_size: u32,
}

/// The mathematical value of a [`ChunkData`].
pub enum SpecChunkData {
    NuccChunkNull(Seq<u8>),
    NuccChunkBinary(Seq<u8>),
    NuccChunkPage(Seq<u8>),
    UnknownChunk(Seq<u8>),
}

/// The mathematical value of a [`Chunk`].
pub struct SpecChunk {
    pub size: u32,
    pub chunk_map_index: u32,
    pub version: u16,
    pub field0_a: u16,
    pub chunk_type: Seq<char>,
    pub data: SpecChunkData,
}

impl View for ChunkData {
    type V = SpecChunkData;

    open spec fn view(&self) -> SpecChunkData {
        match self {
            ChunkData::NuccChunkNull { data } => SpecChunkData::NuccChunkNull(data@),
            ChunkData::NuccChunkBinary(data) => SpecChunkData::NuccChunkBinary(data@),
            ChunkData::NuccChunkPage { data } => SpecChunkData::NuccChunkPage(data@),
            ChunkData::UnknownChunk { data } => SpecChunkData::UnknownChunk(data@),
        }
    }
}

impl View for Chunk {
    type V = SpecChunk;

    open spec fn view(&self) -> SpecChunk {
        SpecChunk {
            size: self.size,
            chunk_map_index: self.chunk_map_index,
            version: self.version,
            field0_a: self.field0_a,
            chunk_type: self.chunk_type@,
            data: self.data@,
        }
    }
}

impl View for Page {
    type V = Seq<SpecChunk>;

    open spec fn view(&self) -> Seq<SpecChunk> {
        self.chunks@.map_values(|c: Chunk| c@)
    }
}

/// The bytes a payload holds.
pub open spec fn payload(d: SpecChunkData) -> Seq<u8> {
    match d {
        SpecChunkData::NuccChunkNull(b) => b,
        SpecChunkData::NuccChunkBinary(b) => b,
        SpecChunkData::NuccChunkPage(b) => b,
        SpecChunkData::UnknownChunk(b) => b,
    }
}

impl ChunkData {
    /// A copy of the bytes the payload holds.
    pub fn get_data(&self) -> (r: Vec<u8>)
        ensures
            r@ == payload(self@),
    {
        match self {
            ChunkData::NuccChunkNull { data } => vstd::slice::slice_to_vec(data.as_slice()),
            ChunkData::NuccChunkBinary(data) => vstd::slice::slice_to_vec(data.as_slice()),
            ChunkData::NuccChunkPage { data } => vstd::slice::slice_to_vec(data.as_slice()),
            ChunkData::UnknownChunk { data } => vstd::slice::slice_to_vec(data.as_slice()),
        }
    }
}

impl Clone for ChunkData {
    fn clone(&self) -> (r: Self)
        ensures
            r@ == self@,
    {
        match self {
            ChunkData::NuccChunkNull { data } => ChunkData::NuccChunkNull {
                data: vstd::slice::slice_to_vec(data.as_slice()),
            },
            ChunkData::NuccChunkBinary(data) => ChunkData::NuccChunkBinary(
                vstd::slice::slice_to_vec(data.as_slice()),
            ),
            ChunkData::NuccChunkPage { data } => ChunkData::NuccChunkPage {
                data: vstd::slice::slice_to_vec(data.as_slice()),
            },
            ChunkData::UnknownChunk { data } => ChunkData::UnknownChunk {
                data: vstd::slice::slice_to_vec(data.as_slice()),
            },
        }
    }
}

impl Clone for Chunk {
    fn clone(&self) -> (r: Self)
        ensures
            r@ == self@,
    {
        Chunk {
            size: self.size,
            chunk_map_index: self.chunk_map_index,
            version: self.version,
            field0_a: self.field0_a,
            chunk_type: self.chunk_type.clone(),
            data: self.data.clone(),
        }
    }
}

/// The type name at `index` as text, or `Unknown` when there is none.
pub open spec fn type_text(t: NuccChunkTable, index: u32) -> Seq<char> {
    if index < t.chunk_types@.len() {
        null_string_text(t.chunk_types@[index as int]@)
    } else {
        "Unknown"@
    }
}

/// The type name, as text, of the chunk map at `chunk_map_index`, or
/// `Unknown` when there is no such chunk map or no such type name.
pub open spec fn map_type_text(t: NuccChunkTable, chunk_map_index: u32) -> Seq<char> {
    if chunk_map_index < t.chunk_maps@.len() {
        type_text(t, t.chunk_maps@[chunk_map_index as int].chunk_type_index)
    } else {
        "Unknown"@
    }
}

impl Chunk {
    /// The type name of the chunk map at `chunk_map_index`, as text, or
    /// `Unknown`.
    fn parse_chunk_type(chunk_map_index: u32, xfbin: &Xfbin) -> (r: String)
        ensures
            r@ == map_type_text(xfbin.chunk_table, chunk_map_index),
    {
        if (chunk_map_index as usize) < xfbin.chunk_table.chunk_maps.len() {
            let chunk_type_index = xfbin.chunk_table.chunk_maps[chunk_map_index as usize].chunk_type_index;
            if (chunk_type_index as usize) < xfbin.chunk_table.chunk_types.len() {
                return null_string_to_string(&xfbin.chunk_table.chunk_types[chunk_type_index as usize]);
            }
            return "Unknown".to_owned();
        }
        "Unknown".to_owned()
    }
}

/// The chunk `c` with its type name replaced by the one the table gives
/// its chunk map index.
pub open spec fn typed(t: NuccChunkTable, c: SpecChunk) -> SpecChunk {
    SpecChunk { chunk_type: map_type_text(t, c.chunk_map_index), ..c }
}

/// The chunk types that [`Xfbin::set_chunk_types`] gives all pages.
pub open spec fn typed_pages(t: NuccChunkTable, ps: Seq<Seq<SpecChunk>>) -> Seq<Seq<SpecChunk>> {
    ps.map_values(|p: Seq<SpecChunk>| p.map_values(|c: SpecChunk| typed(t, c)))
}

/// Setting the chunk types a second time changes nothing: the type a chunk
/// gets depends only on its chunk map index and the chunk table, which
/// setting leaves alone.
pub proof fn lemma_set_chunk_types_idempotent(t: NuccChunkTable, ps: Seq<Seq<SpecChunk>>)
    ensures
        typed_pages(t, typed_pages(t, ps)) == typed_pages(t, ps),
{
    let once = typed_pages(t, ps);
    let twice = typed_pages(t, once);
    assert forall|i: int| 0 <= i < ps.len() implies #[trigger] twice[i] == once[i] by {
        assert(twice[i] =~= once[i]);
    }
    assert(twice =~= once);
}

/// The chunks of `cs` whose type name is `name`, in order.
pub open spec fn chunks_with_type(cs: Seq<SpecChunk>, name: Seq<char>) -> Seq<SpecChunk>
    decreases cs.len(),
{
    if cs.len() == 0 {
        Seq::empty()
    } else {
        chunks_with_type(cs.drop_last(), name) + if cs.last().chunk_type == name {
            seq![cs.last()]
        } else {
            Seq::empty()
        }
    }
}

/// The chunks of all pages whose type name is `name`, in order.
pub open spec fn pages_chunks_with_type(ps: Seq<Seq<SpecChunk>>, name: Seq<char>) -> Seq<SpecChunk>
    decreases ps.len(),
{
    if ps.len() == 0 {
        Seq::empty()
    } else {
        pages_chunks_with_type(ps.drop_last(), name) + chunks_with_type(ps.last(), name)
    }
}

/// The values of the pages of a file.
pub open spec fn pages_view(v: Seq<Page>) -> Seq<Seq<SpecChunk>> {
    v.map_values(|p: Page| p@)
}

/// The values of a list of chunks.
pub open spec fn chunks_view(v: Seq<Chunk>) -> Seq<SpecChunk> {
    v.map_values(|c: Chunk| c@)
}

impl Xfbin {
    /// Sets the type name of every chunk to the one the chunk table gives
    /// its chunk map index (`Unknown` when there is none). Chunk map indices
    /// are `u32`, so at most 2^32 chunk maps can be told apart.
    pub fn set_chunk_types(&mut self)
        requires
            old(self).chunk_table.chunk_maps@.len() <= u32::MAX + 1,
        ensures
            final(self).header == old(self).header,
            final(self).chunk_table == old(self).chunk_table,
            pages_view(final(self).pages@) == typed_pages(old(self).chunk_table, pages_view(old(self).pages@)),
    {
        let ghost t = self.chunk_table;
        let ghost old_pages = pages_view(self.pages@);
        let ghost target = old_pages.map_values(
            |p: Seq<SpecChunk>| p.map_values(|c: SpecChunk| typed(t, c)),
        );
        let n = self.pages.len();
        let mut i: usize = 0;
        while i < n
            invariant
                n == self.pages@.len(),
                n == old_pages.len(),
                target == old_pages.map_values(
                    |p: Seq<SpecChunk>| p.map_values(|c: SpecChunk| typed(t, c)),
                ),
                i <= n,
                self.chunk_table == t,
                self.header == old(self).header,
                forall|k: int| 0 <= k < i ==> #[trigger] self.pages@[k]@ == target[k],
                forall|k: int| i <= k < n ==> #[trigger] self.pages@[k]@ == old_pages[k],
            decreases n - i,
        {
            let m = self.pages[i].chunks.len();
            let ghost page_before = self.pages@[i as int]@;
            let mut j: usize = 0;
            while j < m
                invariant
                    n == self.pages@.len(),
                    i < n,
                    m == self.pages@[i as int].chunks@.len(),
                    page_before == old_pages[i as int],
                    n == old_pages.len(),
                    target == old_pages.map_values(
                        |p: Seq<SpecChunk>| p.map_values(|c: SpecChunk| typed(t, c)),
                    ),
                    page_before.len() == m,
                    j <= m,
                    self.chunk_table == t,
                    self.header == old(self).header,
                    forall|k: int| 0 <= k < i ==> #[trigger] self.pages@[k]@ == target[k],
                    forall|k: int| i < k < n ==> #[trigger] self.pages@[k]@ == old_pages[k],
                    forall|l: int|
                        0 <= l < j ==> (#[trigger] self.pages@[i as int].chunks@[l])@ == typed(
                            t,
                            page_before[l],
                        ),
                    forall|l: int|
                        j <= l < m ==> (#[trigger] self.pages@[i as int].chunks@[l])@
                            == page_before[l],
                decreases m - j,
            {
                let index = self.pages[i].chunks[j].chunk_map_index;
                let chunk_type = Chunk::parse_chunk_type(index, self);
                let ghost pages_mid = self.pages@;
                let ghost chunks_mid = self.pages@[i as int].chunks@;
                {
                    let page = &mut self.pages[i];
                    let chunk = &mut page.chunks[j];
                    chunk.chunk_type = chunk_type;
                }
                assert(self.pages@.len() == n);
                assert(forall|k: int| 0 <= k < n && k != i ==> self.pages@[k] == pages_mid[k]);
                assert(self.pages@[i as int].chunks@.len() == m);
                assert(forall|l: int| 0 <= l < m && l != j ==> self.pages@[i as int].chunks@[l] == chunks_mid[l]);
                assert(self.pages@[i as int].chunks@[j as int]@ == typed(t, page_before[j as int]));
                j = j + 1;
            }
            assert(target.len() == n);
            assert(target[i as int] == page_before.map_values(|c: SpecChunk| typed(t, c)));
            assert forall|l: int| 0 <= l < m implies #[trigger] self.pages@[i as int]@[l]
                == target[i as int][l] by {
                assert(self.pages@[i as int]@[l] == self.pages@[i as int].chunks@[l]@);
            }
            assert(self.pages@[i as int]@ =~= target[i as int]);
            i = i + 1;
        }
        assert(pages_view(self.pages@) =~= target);
    }

    /// Copies of the chunks of all pages whose type name is `chunk_type`.
    pub fn get_chunk_by_type(&self, chunk_type: &str) -> (r: Vec<Chunk>)
        ensures
            chunks_view(r@) == pages_chunks_with_type(pages_view(self.pages@), chunk_type@),
    {
        let ghost name = chunk_type@;
        let ghost ps = pages_view(self.pages@);
        let wanted = chunk_type.to_owned();
        let mut chunks: Vec<Chunk> = Vec::new();
        let mut i: usize = 0;
        assert(chunks_view(chunks@) =~= Seq::<SpecChunk>::empty());
        while i < self.pages.len()
            invariant
                i <= self.pages@.len(),
                ps == pages_view(self.pages@),
                wanted@ == name,
                chunks_view(chunks@) == pages_chunks_with_type(ps.take(i as int), name),
            decreases self.pages@.len() - i,
        {
            let page = &self.pages[i];
            assert(ps[i as int] == page@);
            let ghost before = chunks_view(chunks@);
            let mut j: usize = 0;
            assert(page@.take(0) =~= Seq::<SpecChunk>::empty());
            assert(before + chunks_with_type(page@.take(0), name) =~= before);
            while j < page.chunks.len()
                invariant
                    j <= page.chunks@.len(),
                    wanted@ == name,
                    chunks_view(chunks@) == before + chunks_with_type(page@.take(j as int), name),
                decreases page.chunks@.len() - j,
            {
                let chunk = &page.chunks[j];
                assert(page@[j as int] == chunk@);
                assert(page@.take(j + 1).drop_last() =~= page@.take(j as int));
                assert(page@.take(j + 1).last() == chunk@);
                let ghost old_chunks = chunks@;
                if chunk.chunk_type == wanted {
                    let copy = chunk.clone();
                    chunks.push(copy);
                    assert(chunks_view(chunks@) =~= chunks_view(old_chunks) + seq![chunk@]);
                } else {
                    assert(chunks_view(chunks@) =~= chunks_view(old_chunks) + Seq::<SpecChunk>::empty());
                }
                j = j + 1;
            }
            assert(page@.take(j as int) =~= page@);
            assert(ps.take(i + 1).drop_last() =~= ps.take(i as int));
            assert(ps.take(i + 1).last() == page@);
            i = i + 1;
        }
        assert(ps.take(i as int) =~= ps);
        chunks
    }
}

impl NuccChunkTable {
    /// The type name, file path and chunk name of the chunk map at
    /// `chunk_map_index`, as text.
    pub fn get_chunk_info(&self, chunk_map_index: u32) -> (r: (String, String, String))
        requires
            chunk_map_index < self.chunk_maps@.len(),
            self.chunk_maps@[chunk_map_index as int].chunk_type_index < self.chunk_types@.len(),
            self.chunk_maps@[chunk_map_index as int].filepath_index < self.filepaths@.len(),
            self.chunk_maps@[chunk_map_index as int].chunk_name_index < self.chunk_names@.len(),
        ensures
            ({
                let m = self.chunk_maps@[chunk_map_index as int];
                &&& r.0@ == null_string_text(self.chunk_types@[m.chunk_type_index as int]@)
                &&& r.1@ == null_string_text(self.filepaths@[m.filepath_index as int]@)
                &&& r.2@ == null_string_text(self.chunk_names@[m.chunk_name_index as int]@)
            }),
    {
        let chunk_map = &self.chunk_maps[chunk_map_index as usize];
        let chunk_type = null_string_to_string(&self.chunk_types[chunk_map.chunk_type_index as usize]);
        let filepath = null_string_to_string(&self.filepaths[chunk_map.filepath_index as usize]);
        let chunk_name = null_string_to_string(&self.chunk_names[chunk_map.chunk_name_index as usize]);
        (chunk_type, filepath, chunk_name)
    }
}

/// The type name of `chunk_map` as text, or `Unknown` when there is none.
pub fn get_chunk_map_type(chunk_map: &ChunkMap, xfbin: &Xfbin) -> (r: String)
    ensures
        r@ == type_text(xfbin.chunk_table, chunk_map.chunk_type_index),
{
    get_chunk_type(chunk_map.chunk_type_index, xfbin)
}

/// The type name at `index` as text, or `Unknown` when there is none.
pub fn get_chunk_type(index: u32, xfbin: &Xfbin) -> (r: String)
    ensures
        r@ == type_text(xfbin.chunk_table, index),
{
    if (index as usize) < xfbin.chunk_table.chunk_types.len() {
        null_string_to_string(&xfbin.chunk_table.chunk_types[index as usize])
    } else {
        "Unknown".to_owned()
    }
}

} // verus!
