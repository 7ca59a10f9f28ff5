use xfbin::nucc::nucc::{NuccChunk, NuccPage};
use xfbin::nucc::xfbin::{
    get_chunk_filepath, get_chunk_map_index, get_chunk_name, get_chunk_type, Chunk, ChunkMap,
    ChunkReference, NuccChunkTable, NuccHeader, Page, ReadFault, Xfbin, XfbinError,
};
use xfbin::{read_xfbin_buf, write_xfbin_buf};

fn be32(out: &mut Vec<u8>, v: u32) {
    out.extend_from_slice(&v.to_be_bytes());
}

fn be16(out: &mut Vec<u8>, v: u16) {
    out.extend_from_slice(&v.to_be_bytes());
}

fn name(s: &str) -> Vec<u8> {
    s.as_bytes().to_vec()
}

fn sample_table() -> NuccChunkTable {
    NuccChunkTable {
        chunk_type_count: 3,
        chunk_type_size: 44,
        filepath_count: 1,
        filepath_size: 7,
        chunk_name_count: 2,
        chunk_name_size: 7,
        chunk_map_count: 3,
        chunk_map_size: 36,
        chunk_map_indices_count: 3,
        chunk_map_references_count: 0,
        chunk_types: vec![name("nuccChunkNull"), name("nuccChunkBinary"), name("nuccChunkPage")],
        filepaths: vec![name("c/file")],
        chunk_names: vec![name(""), name("Page0")],
        chunk_maps: vec![
            ChunkMap { chunk_type_index: 0, filepath_index: 0, chunk_name_index: 0 },
            ChunkMap { chunk_type_index: 1, filepath_index: 0, chunk_name_index: 1 },
            ChunkMap { chunk_type_index: 2, filepath_index: 0, chunk_name_index: 1 },
        ],
        chunk_map_references: vec![],
        chunk_map_indices: vec![0, 1, 2],
    }
}

fn sample_header() -> NuccHeader {
    NuccHeader { version: 121, chunk_table_size: 100, min_page_size: 3, file_id: 0x79, field1_a: 0 }
}

fn sample_page(table: &NuccChunkTable) -> Page {
    Page {
        chunks: vec![
            Chunk {
                size: 2,
                chunk_map_index: 0,
                version: 121,
                unk: 0,
                chunk_map: table.chunk_maps[0],
                data: NuccChunk::Unknown(vec![9, 8]),
            },
            Chunk {
                size: 3,
                chunk_map_index: 1,
                version: 121,
                unk: 0,
                chunk_map: table.chunk_maps[1],
                data: NuccChunk::NuccBinary(vec![1, 2, 3]),
            },
            Chunk {
                size: 8,
                chunk_map_index: 2,
                version: 121,
                unk: 0,
                chunk_map: table.chunk_maps[2],
                data: NuccChunk::NuccPage(NuccPage { page_size: 3, reference_size: 0 }),
            },
        ],
    }
}

fn sample_xfbin() -> Xfbin {
    let chunk_table = sample_table();
    let page = sample_page(&chunk_table);
    Xfbin { header: sample_header(), chunk_table, pages: vec![page] }
}

/// The sample file written out by hand, byte by byte.
fn sample_bytes() -> Vec<u8> {
    let mut b = Vec::new();
    b.extend_from_slice(b"NUCC");
    be32(&mut b, 121);
    b.extend_from_slice(&[0; 8]);
    be32(&mut b, 100);
    be32(&mut b, 3);
    be16(&mut b, 0x79);
    be16(&mut b, 0);
    for v in [3u32, 44, 1, 7, 2, 7, 3, 36, 3, 0] {
        be32(&mut b, v);
    }
    for s in ["nuccChunkNull", "nuccChunkBinary", "nuccChunkPage", "c/file", "", "Page0"] {
        b.extend_from_slice(s.as_bytes());
        b.push(0);
    }
    while b.len() % 4 != 0 {
        b.push(0);
    }
    for (t, f, n) in [(0u32, 0u32, 0u32), (1, 0, 1), (2, 0, 1)] {
        be32(&mut b, t);
        be32(&mut b, f);
        be32(&mut b, n);
    }
    for v in [0u32, 1, 2] {
        be32(&mut b, v);
    }
    // chunk 0: unknown, two bytes
    be32(&mut b, 2);
    be32(&mut b, 0);
    be16(&mut b, 121);
    be16(&mut b, 0);
    b.extend_from_slice(&[9, 8]);
    // chunk 1: binary, three bytes
    be32(&mut b, 3);
    be32(&mut b, 1);
    be16(&mut b, 121);
    be16(&mut b, 0);
    b.extend_from_slice(&[1, 2, 3]);
    // chunk 2: page trailer
    be32(&mut b, 8);
    be32(&mut b, 2);
    be16(&mut b, 121);
    be16(&mut b, 0);
    be32(&mut b, 3);
    be32(&mut b, 0);
    b
}

fn assert_same(a: &Xfbin, b: &Xfbin) {
    assert_eq!(a.header, b.header);
    assert_eq!(format!("{:?}", a.chunk_table), format!("{:?}", b.chunk_table));
    assert_eq!(format!("{:?}", a.pages), format!("{:?}", b.pages));
}

#[test]
fn write_produces_the_documented_layout() {
    let bytes = write_xfbin_buf(sample_xfbin()).unwrap();
    assert_eq!(bytes, sample_bytes());
}

#[test]
fn read_of_hand_written_bytes() {
    let x = read_xfbin_buf(sample_bytes()).unwrap();
    assert_eq!(x.header, sample_header());
    assert_eq!(x.chunk_table.chunk_types[2], b"nuccChunkPage".to_vec());
    assert_eq!(x.chunk_table.chunk_maps.len(), 3);
    assert_eq!(x.pages.len(), 1);
    let page = &x.pages[0];
    assert_eq!(page.chunks.len(), 3);
    assert!(matches!(&page.chunks[0].data, NuccChunk::Unknown(d) if d == &vec![9, 8]));
    assert!(matches!(&page.chunks[1].data, NuccChunk::NuccBinary(d) if d == &vec![1, 2, 3]));
    assert!(matches!(page.chunks[2].data, NuccChunk::NuccPage(NuccPage { page_size: 3, reference_size: 0 })));
    assert_eq!(page.get_page_size(), 3);
    assert_eq!(page.get_reference_size(), 0);
    assert_eq!(page.chunks[1].chunk_map, ChunkMap { chunk_type_index: 1, filepath_index: 0, chunk_name_index: 1 });
}

#[test]
fn write_then_read_gives_the_same_file() {
    let x = sample_xfbin();
    let bytes = write_xfbin_buf(x.clone()).unwrap();
    let back = read_xfbin_buf(bytes).unwrap();
    assert_same(&x, &back);
}

#[test]
fn bad_magic_is_reported() {
    let mut bytes = sample_bytes();
    bytes[0] = b'X';
    assert_eq!(read_xfbin_buf(bytes).unwrap_err(), XfbinError::BadMagic);
}

#[test]
fn short_header_is_end_of_data() {
    assert_eq!(read_xfbin_buf(b"NUC".to_vec()).unwrap_err(), XfbinError::UnexpectedEof);
    assert_eq!(read_xfbin_buf(b"NUCC\0\0\0\x79".to_vec()).unwrap_err(), XfbinError::UnexpectedEof);
    assert_eq!(read_xfbin_buf(Vec::new()).unwrap_err(), XfbinError::UnexpectedEof);
}

#[test]
fn truncated_chunk_table_is_end_of_data() {
    let bytes = sample_bytes();
    let cut = bytes[..70].to_vec();
    assert_eq!(read_xfbin_buf(cut).unwrap_err(), XfbinError::UnexpectedEof);
}

#[test]
fn page_cut_short_is_dropped() {
    let bytes = sample_bytes();
    let cut = bytes[..bytes.len() - 4].to_vec();
    let x = read_xfbin_buf(cut).unwrap();
    assert_eq!(x.pages.len(), 0);
    assert_eq!(x.chunk_table.chunk_maps.len(), 3);
}

#[test]
fn file_without_pages() {
    let bytes = sample_bytes();
    let table_end = bytes.len() - (12 + 2 + 12 + 3 + 12 + 8);
    let x = read_xfbin_buf(bytes[..table_end].to_vec()).unwrap();
    assert!(x.pages.is_empty());
}

#[test]
fn chunk_index_outside_the_table_is_a_lookup_fault() {
    let mut bytes = sample_bytes();
    let first_chunk = bytes.len() - (12 + 2 + 12 + 3 + 12 + 8);
    bytes[first_chunk + 7] = 9;
    assert_eq!(Xfbin::try_read(&bytes).unwrap_err(), ReadFault::IndexOutOfRange);
}

#[test]
fn page_start_overflow_is_a_lookup_fault() {
    let mut table = sample_table();
    table.chunk_map_indices = vec![0, 1, 2, 2];
    table.chunk_map_indices_count = 4;
    let first = sample_page(&table);
    let second = Page {
        chunks: vec![Chunk {
            size: 8,
            chunk_map_index: 0,
            version: 1,
            unk: 2,
            chunk_map: table.chunk_maps[2],
            data: NuccChunk::NuccPage(NuccPage { page_size: u32::MAX, reference_size: 0 }),
        }],
    };
    let x = Xfbin { header: sample_header(), chunk_table: table, pages: vec![first, second] };
    // the second page starts at 3; adding its page size overflows
    assert_eq!(Xfbin::try_read(&x.write_be()).unwrap_err(), ReadFault::ArithmeticOverflow);
}

#[test]
fn two_pages_use_their_own_index_window() {
    let mut table = sample_table();
    // second page: its chunk index 0 is entry 3 of the index table
    table.chunk_map_indices = vec![0, 1, 2, 2];
    table.chunk_map_indices_count = 4;
    let first = sample_page(&table);
    let second = Page {
        chunks: vec![Chunk {
            size: 8,
            chunk_map_index: 0,
            version: 1,
            unk: 2,
            chunk_map: table.chunk_maps[2],
            data: NuccChunk::NuccPage(NuccPage { page_size: 1, reference_size: 5 }),
        }],
    };
    let x = Xfbin { header: sample_header(), chunk_table: table, pages: vec![first, second] };
    let back = Xfbin::read(&x.write_be()).unwrap();
    assert_same(&x, &back);
    assert_eq!(back.pages[1].get_reference_size(), 5);
}

#[test]
fn read_chunk_and_read_page_work_on_positions() {
    let bytes = sample_bytes();
    let x = read_xfbin_buf(bytes.clone()).unwrap();
    let start = bytes.len() - (12 + 2 + 12 + 3 + 12 + 8);
    let (c, q) = Chunk::read_chunk(&bytes, start, &x.chunk_table, 0).unwrap();
    assert_eq!(q, start + 14);
    assert_eq!(c.size, 2);
    let (page, end) = Page::read_page(&bytes, start, &x.chunk_table, 0).unwrap();
    assert_eq!(end, bytes.len());
    assert_eq!(page.chunks.len(), 3);
    assert_eq!(Page::read_page(&bytes, end, &x.chunk_table, 0).unwrap_err(), XfbinError::UnexpectedEof);
}

#[test]
fn table_lookups() {
    let table = sample_table();
    assert_eq!(get_chunk_type(1, &table), "nuccChunkBinary");
    assert_eq!(get_chunk_filepath(1, &table), "c/file");
    assert_eq!(get_chunk_name(1, &table), "Page0");
    assert_eq!(get_chunk_map_index(1, 1, &table), 2);
    let info = table.get_chunk_info(&table.chunk_maps[2]);
    assert_eq!(info, ("nuccChunkPage".to_string(), "c/file".to_string(), "Page0".to_string()));
}

#[test]
fn chunk_names_that_are_not_utf8_show_replacement_characters() {
    let mut table = sample_table();
    table.chunk_types[0] = vec![0xff, b'a', 0xc3];
    assert_eq!(get_chunk_type(0, &table), "\u{fffd}a\u{fffd}");
}

#[test]
fn chunks_by_type() {
    let x = sample_xfbin();
    let found = x.get_chunk_by_type("nuccChunkBinary");
    assert_eq!(found.len(), 1);
    assert_eq!(found[0].size, 3);
    assert_eq!(x.get_chunk_by_type("nuccChunkPage").len(), 1);
    assert!(x.get_chunk_by_type("nuccChunkAnm").is_empty());
}

#[test]
fn as_bytes_of_raw_chunks() {
    assert_eq!(NuccChunk::NuccBinary(vec![4, 5]).as_bytes(), vec![4, 5]);
    assert_eq!(NuccChunk::Unknown(vec![]).as_bytes(), Vec::<u8>::new());
}

#[test]
fn chunk_reference_layout() {
    let mut table = sample_table();
    table.chunk_map_references = vec![ChunkReference { chunk_name_index: 1, chunk_map_index: 2 }];
    table.chunk_map_references_count = 1;
    let x = Xfbin { header: sample_header(), chunk_table: table, pages: vec![] };
    let bytes = x.write_be();
    let back = Xfbin::read(&bytes).unwrap();
    assert_eq!(back.chunk_table.chunk_map_references, x.chunk_table.chunk_map_references);
    assert!(back.pages.is_empty());
}

#[test]
fn read_write_read_gives_the_same_file() {
    let mut bytes = sample_bytes();
    // the eight skipped header bytes need not be zero
    for b in &mut bytes[8..16] {
        *b = 0xaa;
    }
    let first = read_xfbin_buf(bytes.clone()).unwrap();
    let rewritten = write_xfbin_buf(first.clone()).unwrap();
    assert_ne!(rewritten, bytes);
    let second = read_xfbin_buf(rewritten).unwrap();
    assert_same(&first, &second);
}

#[test]
fn cutting_the_data_keeps_complete_pages() {
    let mut table = sample_table();
    table.chunk_map_indices = vec![0, 1, 2, 2];
    table.chunk_map_indices_count = 4;
    let first = sample_page(&table);
    let second = Page {
        chunks: vec![Chunk {
            size: 8,
            chunk_map_index: 0,
            version: 1,
            unk: 2,
            chunk_map: table.chunk_maps[2],
            data: NuccChunk::NuccPage(NuccPage { page_size: 1, reference_size: 5 }),
        }],
    };
    let x = Xfbin { header: sample_header(), chunk_table: table, pages: vec![first, second] };
    let bytes = x.write_be();
    let second_len = 20;
    let first_len = 12 + 2 + 12 + 3 + 20;
    let pages_start = bytes.len() - first_len - second_len;
    for cut in pages_start..=bytes.len() {
        let back = Xfbin::read(&bytes[..cut]).unwrap();
        let expected = if cut == bytes.len() {
            2
        } else if cut >= pages_start + first_len {
            1
        } else {
            0
        };
        assert_eq!(back.pages.len(), expected, "cut at {}", cut);
        assert_eq!(back.header, x.header);
    }
}

#[test]
fn every_page_read_ends_with_its_trailer() {
    let x = read_xfbin_buf(sample_bytes()).unwrap();
    for page in &x.pages {
        let (last, rest) = page.chunks.split_last().unwrap();
        assert!(matches!(last.data, NuccChunk::NuccPage(_)));
        assert!(rest.iter().all(|c| !matches!(c.data, NuccChunk::NuccPage(_))));
    }
}

#[test]
fn pages_are_read_one_after_the_other() {
    let mut table = sample_table();
    table.chunk_map_indices = vec![0, 1, 2, 2];
    table.chunk_map_indices_count = 4;
    let first = sample_page(&table);
    let second = Page {
        chunks: vec![Chunk {
            size: 8,
            chunk_map_index: 0,
            version: 1,
            unk: 2,
            chunk_map: table.chunk_maps[2],
            data: NuccChunk::NuccPage(NuccPage { page_size: 1, reference_size: 5 }),
        }],
    };
    let x = Xfbin { header: sample_header(), chunk_table: table, pages: vec![first, second] };
    let bytes = x.write_be();
    let back = Xfbin::read(&bytes).unwrap();
    let second_start = bytes.len() - 20;
    let first_start = second_start - (12 + 2 + 12 + 3 + 12 + 8);
    let (p0, q0) = Page::read_page(&bytes, first_start, &back.chunk_table, 0).unwrap();
    assert_eq!(q0, second_start);
    assert_eq!(format!("{:?}", p0), format!("{:?}", back.pages[0]));
    let start1 = back.pages[0].get_page_size();
    assert_eq!(start1, 3);
    let (p1, q1) = Page::read_page(&bytes, q0, &back.chunk_table, start1).unwrap();
    assert_eq!(q1, bytes.len());
    assert_eq!(format!("{:?}", p1), format!("{:?}", back.pages[1]));
}
