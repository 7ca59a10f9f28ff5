use xfbin::dlc::{Entry, NARUTOUNS4DLC008};
use xfbin::nucc::{
    NuccStructInfo, NuccStructReference, XfbinChunkMapConverter, XfbinChunkReferenceConverter,
};
use xfbin::nucc::xfbin::XfbinError;
use xfbin::nucc_chunk::nucc_chunk_morphmodel::NuccChunkMorphModel;
use xfbin::nucc_chunk::{NuccChunk, NuccChunkType};
use xfbin::utils::{QuaternionShort, Vector3Short, RGB};
use xfbin::xfbin_file::{XfbinChunkMap, XfbinChunkReference};

fn info(n: &str, t: &str, p: &str) -> NuccStructInfo {
    NuccStructInfo { chunk_name: n.to_string(), chunk_type: t.to_string(), filepath: p.to_string() }
}

#[test]
fn struct_info_text() {
    let i = info("4rincharsel30", "nuccChunkAnm", "c\\crsel\\4rin\\anm\\4rincharsel30.max");
    assert_eq!(
        i.to_string(),
        "{ Name: \"4rincharsel30\", Type: \"nuccChunkAnm\", Path: \"c\\crsel\\4rin\\anm\\4rincharsel30.max\" }"
    );
    assert_eq!(NuccStructInfo::default().to_string(), "{ Name: \"\", Type: \"\", Path: \"\" }");
}

#[test]
fn struct_info_clone_is_equal() {
    let i = info("a", "b", "c");
    assert_eq!(i.clone(), i);
    let r = NuccStructReference { chunk_name: "x".to_string(), struct_info: i.clone() };
    assert_eq!(r.clone(), r);
}

#[test]
fn chunk_maps_become_struct_infos() {
    let converter = XfbinChunkMapConverter {
        chunk_maps: vec![
            XfbinChunkMap { chunk_type_index: 1, filepath_index: 0, chunk_name_index: 2 },
            XfbinChunkMap { chunk_type_index: 0, filepath_index: 1, chunk_name_index: 0 },
        ],
        chunk_names: vec!["n0".to_string(), "n1".to_string(), "n2".to_string()],
        chunk_types: vec!["nuccChunkNull".to_string(), "nuccChunkAnm".to_string()],
        filepaths: vec!["p0".to_string(), "p1".to_string()],
    };
    let infos = converter.into_struct_infos();
    assert_eq!(infos, vec![info("n2", "nuccChunkAnm", "p0"), info("n0", "nuccChunkNull", "p1")]);
}

#[test]
fn chunk_references_become_struct_references() {
    let converter = XfbinChunkReferenceConverter {
        references: vec![XfbinChunkReference { chunk_name_index: 1, chunk_map_index: 0 }],
        chunk_names: vec!["a".to_string(), "b".to_string()],
        struct_infos: vec![info("x", "y", "z")],
    };
    let refs = converter.into_struct_references();
    assert_eq!(refs, vec![NuccStructReference { chunk_name: "b".to_string(), struct_info: info("x", "y", "z") }]);
}

#[test]
fn empty_converters() {
    let c = XfbinChunkMapConverter { chunk_maps: vec![], chunk_names: vec![], chunk_types: vec![], filepaths: vec![] };
    assert!(c.into_struct_infos().is_empty());
}

#[test]
fn morph_model_reads_28_bytes() {
    let bytes: Vec<u8> = (0u8..40).collect();
    let (m, q) = NuccChunkMorphModel::read(&bytes, 4, 7).unwrap();
    assert_eq!(q, 32);
    assert_eq!(m.version, 0);
    assert_eq!(m.data, (4u8..32).collect::<Vec<u8>>());
    assert_eq!(m.chunk_type(), NuccChunkType::NuccChunkMorphModel);
    assert_eq!(NuccChunk::version(&m), 0);
    assert_eq!(NuccChunkMorphModel::read(&bytes, 13, 0).unwrap_err(), XfbinError::UnexpectedEof);
}

#[test]
fn morph_model_write_then_read() {
    let m = NuccChunkMorphModel { version: 0, data: vec![7; 28] };
    let mut out = vec![1, 2];
    m.write(&mut out);
    assert_eq!(out.len(), 30);
    let (back, _) = NuccChunkMorphModel::read(&out, 2, 0).unwrap();
    assert_eq!(back, m);
    let v = NuccChunkMorphModel { version: 3, data: vec![] };
    assert_eq!(NuccChunk::version(&v), 3);
}

fn dlc_bytes() -> Vec<u8> {
    let mut b = Vec::new();
    for v in [1u32, 8, 2, 4, 10, 11, 12, 13, 14, 20, 21, 22, 23, 24] {
        b.extend_from_slice(&v.to_be_bytes());
    }
    b
}

#[test]
fn dlc_table_reads_count_entries() {
    let b = dlc_bytes();
    let (d, q) = NARUTOUNS4DLC008::read_be(&b, 0).unwrap();
    assert_eq!(q, b.len());
    assert_eq!((d.unk1, d.version, d.count, d.unk2), (1, 8, 2, 4));
    assert_eq!(d.entry.len(), 2);
    assert_eq!((d.entry[1].unk1, d.entry[1].unk5), (20, 24));
    assert_eq!(d.entry[0].path, "");
}

#[test]
fn dlc_table_short_data() {
    let b = dlc_bytes();
    assert_eq!(NARUTOUNS4DLC008::read_be(&b[..b.len() - 1], 0).unwrap_err(), XfbinError::UnexpectedEof);
    assert_eq!(NARUTOUNS4DLC008::read_be(&b[..15], 0).unwrap_err(), XfbinError::UnexpectedEof);
}

#[test]
fn dlc_table_write_leaves_paths_out() {
    let d = NARUTOUNS4DLC008 {
        unk1: 1,
        version: 8,
        count: 2,
        unk2: 4,
        entry: vec![
            Entry { unk1: 10, unk2: 11, unk3: 12, unk4: 13, unk5: 14, path: "ignored".to_string() },
            Entry { unk1: 20, unk2: 21, unk3: 22, unk4: 23, unk5: 24, path: String::new() },
        ],
    };
    let mut out = Vec::new();
    d.write_be(&mut out);
    assert_eq!(out, dlc_bytes());
}

#[test]
fn small_records() {
    let v = Vector3Short { x: -1, y: 2, z: 3 };
    let q = QuaternionShort { x: 0, y: 0, z: 0, w: 1 };
    let c = RGB { r: 1, g: 2, b: 3 };
    assert_eq!(v, v.clone());
    assert_eq!(q.w, 1);
    assert_eq!(c.g, 2);
}

#[test]
fn small_records_byte_forms() {
    let v = Vector3Short { x: -1, y: 2, z: -32768 };
    let mut out = vec![9u8];
    v.write_be(&mut out);
    assert_eq!(out, vec![9, 0xff, 0xff, 0, 2, 0x80, 0]);
    assert_eq!(Vector3Short::read_be(&out, 1).unwrap(), (v, 7));
    assert_eq!(Vector3Short::read_be(&out, 2).unwrap_err(), XfbinError::UnexpectedEof);

    let q = QuaternionShort { x: 0, y: 0x1234, z: 0, w: -2 };
    let mut out = Vec::new();
    q.write_be(&mut out);
    assert_eq!(out, vec![0, 0, 0x12, 0x34, 0, 0, 0xff, 0xfe]);
    assert_eq!(QuaternionShort::read_be(&out, 0).unwrap(), (q, 8));
    assert_eq!(QuaternionShort::read_be(&out[..7], 0).unwrap_err(), XfbinError::UnexpectedEof);

    let c = RGB { r: 1, g: 2, b: 3 };
    let mut out = Vec::new();
    c.write_be(&mut out);
    assert_eq!(out, vec![1, 2, 3]);
    assert_eq!(RGB::read_be(&out, 0).unwrap(), (c, 3));
    assert_eq!(RGB::read_be(&out, 1).unwrap_err(), XfbinError::UnexpectedEof);
}
