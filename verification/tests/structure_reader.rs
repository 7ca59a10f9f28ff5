use xfbin::nucc::xfbin as container;
use xfbin::nucc::xfbin::XfbinError;
use xfbin::structure::xfbin::Xfbin as Tagged;
use xfbin::xfbin::structure::xfbin::ChunkData;
use xfbin::xfbin::xfbin_reader::read_xfbin;

fn name(s: &str) -> Vec<u8> {
    s.as_bytes().to_vec()
}

fn head_and_table() -> Vec<u8> {
    let chunk_table = container::NuccChunkTable {
        chunk_type_count: 3,
        chunk_type_size: 44,
        filepath_count: 1,
        filepath_size: 7,
        chunk_name_count: 1,
        chunk_name_size: 1,
        chunk_map_count: 3,
        chunk_map_size: 36,
        chunk_map_indices_count: 0,
        chunk_map_references_count: 1,
        chunk_types: vec![name("nuccChunkNull"), name("nuccChunkBinary"), name("nuccChunkPage")],
        filepaths: vec![name("c/file")],
        chunk_names: vec![name("")],
        chunk_maps: vec![
            container::ChunkMap { chunk_type_index: 0, filepath_index: 0, chunk_name_index: 0 },
            container::ChunkMap { chunk_type_index: 1, filepath_index: 0, chunk_name_index: 0 },
            container::ChunkMap { chunk_type_index: 2, filepath_index: 0, chunk_name_index: 0 },
        ],
        chunk_map_references: vec![container::ChunkReference { chunk_name_index: 0, chunk_map_index: 1 }],
        chunk_map_indices: vec![],
    };
    let x = container::Xfbin {
        header: container::NuccHeader {
            version: 121,
            chunk_table_size: 100,
            min_page_size: 3,
            file_id: 0x79,
            field1_a: 0,
        },
        chunk_table,
        pages: vec![],
    };
    x.write_be()
}

fn chunk(out: &mut Vec<u8>, index: u32, payload: &[u8]) {
    out.extend_from_slice(&(payload.len() as u32).to_be_bytes());
    out.extend_from_slice(&index.to_be_bytes());
    out.extend_from_slice(&121u16.to_be_bytes());
    out.extend_from_slice(&0u16.to_be_bytes());
    out.extend_from_slice(payload);
}

fn one_page() -> Vec<u8> {
    let mut b = head_and_table();
    chunk(&mut b, 0, &[]);
    chunk(&mut b, 1, &[1, 2, 3]);
    chunk(&mut b, 2, &[0, 0, 0, 3, 0, 0, 0, 0]);
    b
}

#[test]
fn reader_reads_header_table_and_pages() {
    let x = read_xfbin(&one_page()).unwrap();
    assert_eq!(x.header.version, 121);
    assert_eq!(x.header.version1, 0x79);
    assert_eq!(x.chunk_table.chunk_map_count, 3);
    assert_eq!(x.chunk_table.chunk_types[2], name("nuccChunkPage"));
    assert_eq!(x.chunk_table.chunk_maps[1].chunk_type_index, 1);
    assert_eq!(x.chunk_table.chunk_map_references[0].chunk_map_index, 1);
    assert_eq!(x.pages.len(), 1);
    let chunks = &x.pages[0].chunks;
    assert_eq!(chunks.len(), 3);
    assert_eq!(chunks[0].chunk_type, "nuccChunkNull");
    assert_eq!(chunks[1].chunk_type, "nuccChunkBinary");
    assert_eq!(chunks[2].chunk_type, "nuccChunkPage");
    assert_eq!(chunks[1].size, 3);
    assert_eq!(chunks[1].version, 121);
    // The payload tags are decided while the type names are still unknown:
    // only the chunk map index 2 marks a page trailer.
    assert!(matches!(&chunks[1].data, ChunkData::UnknownChunk { data } if data == &vec![1u8, 2, 3]));
    assert!(matches!(&chunks[0].data, ChunkData::UnknownChunk { data } if data.is_empty()));
    assert!(matches!(&chunks[2].data, ChunkData::NuccChunkPage { data } if data.len() == 8));
}

#[test]
fn reader_reads_pages_until_the_data_ends() {
    let mut b = one_page();
    chunk(&mut b, 1, &[7]);
    chunk(&mut b, 2, &[]);
    let x = read_xfbin(&b).unwrap();
    assert_eq!(x.pages.len(), 2);
    assert_eq!(x.pages[1].chunks.len(), 2);
    assert_eq!(x.pages[1].chunks[0].chunk_type, "nuccChunkBinary");
}

#[test]
fn reader_drops_a_page_cut_in_a_chunk_head() {
    let mut b = one_page();
    chunk(&mut b, 1, &[7]);
    b.extend_from_slice(&[0, 0, 0]);
    let x = read_xfbin(&b).unwrap();
    assert_eq!(x.pages.len(), 1);

    let x = read_xfbin(&head_and_table()).unwrap();
    assert_eq!(x.pages.len(), 0);
}

#[test]
fn reader_reports_a_payload_past_the_end() {
    let mut b = one_page();
    b.truncate(b.len() - 1);
    assert_eq!(read_xfbin(&b).unwrap_err(), XfbinError::TruncatedChunk);
}

#[test]
fn reader_reports_header_errors() {
    let mut b = one_page();
    b[0] = b'X';
    assert_eq!(read_xfbin(&b).unwrap_err(), XfbinError::BadMagic);
    assert_eq!(read_xfbin(b"NUCC\0\0").unwrap_err(), XfbinError::UnexpectedEof);
    let t = head_and_table();
    assert_eq!(read_xfbin(&t[..40]).unwrap_err(), XfbinError::UnexpectedEof);
}

#[test]
fn page_type_text_follows_the_raw_name() {
    let t = container::NuccChunkTable {
        chunk_type_count: 2,
        chunk_type_size: 0,
        filepath_count: 0,
        filepath_size: 0,
        chunk_name_count: 0,
        chunk_name_size: 0,
        chunk_map_count: 0,
        chunk_map_size: 0,
        chunk_map_indices_count: 0,
        chunk_map_references_count: 0,
        chunk_types: vec![name("nuccChunkPage"), vec![0x6e, 0xff, 0x63]],
        filepaths: vec![],
        chunk_names: vec![],
        chunk_maps: vec![],
        chunk_map_references: vec![],
        chunk_map_indices: vec![],
    };
    assert_eq!(container::get_chunk_type(0, &t), "nuccChunkPage");
    assert!(container::get_chunk_type(1, &t).contains('\u{FFFD}'));
}

#[test]
fn tagged_reader_reads_header_and_table() {
    let b = head_and_table();
    let x = Tagged::read_be(&b).unwrap();
    assert_eq!(x.header.version, 121);
    assert_eq!(x.header.version1, 0x79);
    assert_eq!(x.chunk_table.chunk_types.len(), 3);
    assert_eq!(x.chunk_table.chunk_maps[2].chunk_type_index, 2);
    assert_eq!(x.chunk_table.chunk_map_references[0].chunk_name_index, 0);
    assert!(x.pages.is_empty());

    let mut short = b.clone();
    short.extend_from_slice(&[0; 11]);
    assert!(Tagged::read_be(&short).unwrap().pages.is_empty());

    let mut bad = b.clone();
    bad[3] = b'D';
    assert_eq!(Tagged::read_be(&bad).unwrap_err(), XfbinError::BadMagic);
    assert_eq!(Tagged::read_be(&b[..30]).unwrap_err(), XfbinError::UnexpectedEof);
}
