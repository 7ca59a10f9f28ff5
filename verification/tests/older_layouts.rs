use xfbin::structure::xfbin as tagged;
use xfbin::xfbin::structure::xfbin as named;

fn names(v: &[&str]) -> Vec<Vec<u8>> {
    v.iter().map(|s| s.as_bytes().to_vec()).collect()
}

fn named_xfbin() -> named::Xfbin {
    let mut x = named::Xfbin::default();
    x.chunk_table.chunk_types = names(&["nuccChunkNull", "nuccChunkBinary", "nuccChunkPage"]);
    x.chunk_table.filepaths = names(&["f"]);
    x.chunk_table.chunk_names = names(&["n"]);
    x.chunk_table.chunk_maps = vec![
        named::ChunkMap { chunk_type_index: 1, filepath_index: 0, chunk_name_index: 0 },
        named::ChunkMap { chunk_type_index: 2, filepath_index: 0, chunk_name_index: 0 },
        named::ChunkMap { chunk_type_index: 7, filepath_index: 0, chunk_name_index: 0 },
    ];
    let chunk = |index: u32, data: named::ChunkData| named::Chunk {
        size: 0,
        chunk_map_index: index,
        version: 1,
        field0_a: 0,
        chunk_type: String::new(),
        data,
    };
    x.pages = vec![
        named::Page {
            chunks: vec![
                chunk(0, named::ChunkData::NuccChunkBinary(vec![1, 2])),
                chunk(1, named::ChunkData::NuccChunkPage { data: vec![3] }),
            ],
        },
        named::Page {
            chunks: vec![
                chunk(2, named::ChunkData::UnknownChunk { data: vec![] }),
                chunk(5, named::ChunkData::NuccChunkNull { data: vec![4] }),
                chunk(0, named::ChunkData::NuccChunkBinary(vec![5])),
            ],
        },
    ];
    x
}

#[test]
fn set_chunk_types_names_every_chunk() {
    let mut x = named_xfbin();
    x.set_chunk_types();
    let types: Vec<Vec<String>> =
        x.pages.iter().map(|p| p.chunks.iter().map(|c| c.chunk_type.clone()).collect()).collect();
    assert_eq!(
        types,
        vec![
            vec!["nuccChunkBinary".to_string(), "nuccChunkPage".to_string()],
            vec!["Unknown".to_string(), "Unknown".to_string(), "nuccChunkBinary".to_string()],
        ]
    );
    // the payloads are left alone
    assert_eq!(x.pages[1].chunks[1].data.get_data(), vec![4]);
}

#[test]
fn chunks_by_type_name() {
    let mut x = named_xfbin();
    x.set_chunk_types();
    let found = x.get_chunk_by_type("nuccChunkBinary");
    assert_eq!(found.len(), 2);
    assert_eq!(found[0].data.get_data(), vec![1, 2]);
    assert_eq!(found[1].data.get_data(), vec![5]);
    assert_eq!(x.get_chunk_by_type("Unknown").len(), 2);
    assert!(x.get_chunk_by_type("nuccChunkAnm").is_empty());
}

#[test]
fn payload_bytes() {
    assert_eq!(named::ChunkData::NuccChunkPage { data: vec![9] }.get_data(), vec![9]);
    assert_eq!(named::ChunkData::UnknownChunk { data: vec![] }.get_data(), Vec::<u8>::new());
}

#[test]
fn type_lookups_with_fallback() {
    let x = named_xfbin();
    assert_eq!(named::get_chunk_type(2, &x), "nuccChunkPage");
    assert_eq!(named::get_chunk_type(3, &x), "Unknown");
    assert_eq!(named::get_chunk_map_type(&x.chunk_table.chunk_maps[2], &x), "Unknown");
    assert_eq!(named::get_chunk_map_type(&x.chunk_table.chunk_maps[0], &x), "nuccChunkBinary");
    assert_eq!(
        x.chunk_table.get_chunk_info(1),
        ("nuccChunkPage".to_string(), "f".to_string(), "n".to_string())
    );
}

#[test]
fn tagged_layout_lookups() {
    let mut x = tagged::Xfbin::default();
    x.chunk_table.chunk_types = names(&["nuccChunkNull", "nuccChunkPage"]);
    x.chunk_table.filepaths = names(&["a", "b"]);
    x.chunk_table.chunk_names = names(&["c"]);
    x.chunk_table.chunk_maps =
        vec![tagged::ChunkMap { chunk_type_index: 1, filepath_index: 1, chunk_name_index: 0 }];
    assert_eq!(tagged::get_chunk_type(0, &x), "nuccChunkNull");
    assert_eq!(tagged::get_chunk_map_type(&x.chunk_table.chunk_maps[0], &x), "nuccChunkPage");
    assert_eq!(
        x.chunk_table.get_chunk_info(0),
        ("nuccChunkPage".to_string(), "b".to_string(), "c".to_string())
    );
    let page = tagged::Page {
        chunks: vec![tagged::Chunk {
            size: 8,
            chunk_map_index: 0,
            version: 1,
            field0_a: 0,
            data: tagged::ChunkData::NuccChunkPage { page_size: 4, extra_indices_size: 0 },
        }],
    };
    x.pages.push(page);
    assert_eq!(x.pages.len(), 1);
}

#[test]
fn setting_chunk_types_twice_changes_nothing() {
    let mut x = named_xfbin();
    x.set_chunk_types();
    let once = format!("{:?}", x.pages);
    x.set_chunk_types();
    assert_eq!(format!("{:?}", x.pages), once);
}
