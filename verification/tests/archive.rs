use etiles::archive::create_archive_header;
use etiles::archive::ArchiveHeader;
use etiles::get_availability_buffer;
use etiles::write_gltf_tile;
use etiles::write_subtree;
use etiles::EtilesWriter;
use etiles::Error;
use etiles::OctantIndex;
use etiles::OctreeOccupancy;
use etiles::PointContent;
use etiles::SerializedDocuments;
use etiles::Tileset;
use std::io::Read;

struct Unpacked {
    path: String,
    mode: u32,
    mtime: u64,
    data: Vec<u8>,
}

fn unpack(archive: &[u8]) -> Vec<Unpacked> {
    let mut reader = tar::Archive::new(archive);
    let mut files = Vec::new();
    for entry in reader.entries().unwrap() {
        let mut entry = entry.unwrap();
        let path = entry.path().unwrap().to_str().unwrap().to_string();
        let mode = entry.header().mode().unwrap();
        let mtime = entry.header().mtime().unwrap();
        let mut data = Vec::new();
        entry.read_to_end(&mut data).unwrap();
        files.push(Unpacked { path, mode, mtime, data });
    }
    files
}

fn point(color: [f32; 3]) -> PointContent {
    let mut vertex_data = Vec::new();
    for component in [0.0f32, 0.0, 0.0].iter().chain(color.iter()) {
        vertex_data.extend_from_slice(&component.to_le_bytes());
    }
    PointContent { document: b"{\"asset\":{\"version\":\"2.0\"}}".to_vec(), vertex_data }
}

fn tileset_of(cells: &[OctantIndex]) -> Tileset {
    let mut tiled_content = OctreeOccupancy::new();
    for cell in cells {
        assert!(tiled_content.add_content_cell(*cell));
    }
    let cell_contents = tiled_content.cell_indices().iter().map(|_| point([1.0, 0.0, 0.0])).collect();
    Tileset { tiled_content, cell_contents }
}

fn documents_for(subtrees: usize) -> SerializedDocuments {
    SerializedDocuments {
        tileset_json: b"{\"asset\":{\"version\":\"1.1\"}}".to_vec(),
        subtree_json: (0..subtrees).map(|i| format!("{{\"subtree\":{}}}", i).into_bytes()).collect(),
    }
}

fn uniform_grid() -> Vec<OctantIndex> {
    let mut cells = Vec::new();
    for i in 0..2 {
        for j in 0..2 {
            for k in 0..2 {
                cells.push(OctantIndex { level: 1, x: i, y: j, z: k });
            }
        }
    }
    cells
}

#[test]
fn archive_header_has_mode_0664_and_time_zero() {
    assert_eq!(create_archive_header(17, None), ArchiveHeader { size: 17, mode: 0o664, mtime: 0 });
}

#[test]
fn archive_header_takes_the_given_time() {
    assert_eq!(
        create_archive_header(0, Some(1700000000)),
        ArchiveHeader { size: 0, mode: 0o664, mtime: 1700000000 }
    );
}

#[test]
fn a_new_writer_has_three_levels_to_a_subtree() {
    let writer = EtilesWriter::new(Vec::<u8>::new());
    assert_eq!(writer.get_levels_per_subtree(), 3);
}

#[test]
fn empty_cloud_packs_only_the_tileset_document() {
    let tileset = tileset_of(&[]);
    let documents = documents_for(0);
    let writer = EtilesWriter::new(Vec::new());
    assert!(writer.can_pack(&tileset, &documents));
    let archive = writer.finish(&tileset, &documents).unwrap();
    let files = unpack(&archive);
    assert_eq!(files.len(), 1);
    assert_eq!(files[0].path, "tileset.json");
    assert_eq!(files[0].data, documents.tileset_json);
    assert!(tileset.tiled_content.cell_indices().is_empty());
}

#[test]
fn single_point_packs_one_subtree_and_one_content_file() {
    let root = OctantIndex { level: 0, x: 0, y: 0, z: 0 };
    let tileset = tileset_of(&[root]);
    let documents = documents_for(1);
    let writer = EtilesWriter::new(Vec::new());
    assert!(writer.can_pack(&tileset, &documents));
    let files = unpack(&writer.finish(&tileset, &documents).unwrap());
    let paths: Vec<&str> = files.iter().map(|file| file.path.as_str()).collect();
    assert_eq!(paths, vec!["tileset.json", "subtrees/0__0_0_0.subtree", "content/pc_0__0_0_0.glb"]);
    let info = get_availability_buffer(root, 3, &tileset.tiled_content);
    let mut subtree = Vec::new();
    write_subtree(&mut subtree, &info, &documents.subtree_json[0]).unwrap();
    assert_eq!(files[1].data, subtree);
    let mut content = Vec::new();
    let point = &tileset.cell_contents[0];
    write_gltf_tile(&mut content, &point.document, &point.vertex_data).unwrap();
    assert_eq!(files[2].data, content);
}

#[test]
fn uniform_grid_packs_eight_content_files() {
    let tileset = tileset_of(&uniform_grid());
    let documents = documents_for(1);
    let files = unpack(&EtilesWriter::new(Vec::new()).finish(&tileset, &documents).unwrap());
    let paths: Vec<&str> = files.iter().map(|file| file.path.as_str()).collect();
    assert_eq!(
        paths,
        vec![
            "tileset.json",
            "subtrees/0__0_0_0.subtree",
            "content/pc_1__0_0_0.glb",
            "content/pc_1__0_0_1.glb",
            "content/pc_1__0_1_0.glb",
            "content/pc_1__0_1_1.glb",
            "content/pc_1__1_0_0.glb",
            "content/pc_1__1_0_1.glb",
            "content/pc_1__1_1_0.glb",
            "content/pc_1__1_1_1.glb",
        ]
    );
}

#[test]
fn entries_have_mode_0664_and_time_zero() {
    let tileset = tileset_of(&uniform_grid());
    let documents = documents_for(1);
    let files = unpack(&EtilesWriter::new(Vec::new()).finish(&tileset, &documents).unwrap());
    for file in files.iter() {
        assert_eq!(file.mode, 0o664);
        assert_eq!(file.mtime, 0);
    }
}

#[test]
fn archive_is_written_in_whole_blocks_and_ends_with_two_empty_ones() {
    let tileset = tileset_of(&[OctantIndex { level: 0, x: 0, y: 0, z: 0 }]);
    let documents = documents_for(1);
    let archive = EtilesWriter::new(Vec::new()).finish(&tileset, &documents).unwrap();
    assert_eq!(archive.len() % 512, 0);
    assert_eq!(archive.len(), 3 * 1024 + 1024);
    assert!(archive[archive.len() - 1024..].iter().all(|byte| *byte == 0));
}

#[test]
fn archive_follows_what_the_writer_holds() {
    let tileset = tileset_of(&[]);
    let documents = documents_for(0);
    let plain = EtilesWriter::new(Vec::new()).finish(&tileset, &documents).unwrap();
    let behind = EtilesWriter::new(vec![1u8; 512]).finish(&tileset, &documents).unwrap();
    assert_eq!(&behind[..512], &[1u8; 512][..]);
    assert_eq!(&behind[512..], &plain[..]);
}

#[test]
fn two_runs_pack_identical_archives() {
    let cells = vec![
        OctantIndex { level: 4, x: 15, y: 0, z: 7 },
        OctantIndex { level: 3, x: 1, y: 2, z: 3 },
        OctantIndex { level: 6, x: 63, y: 63, z: 63 },
        OctantIndex { level: 1, x: 0, y: 1, z: 0 },
    ];
    let mut reversed = cells.clone();
    reversed.reverse();
    let first = tileset_of(&cells);
    let second = tileset_of(&reversed);
    let roots = etiles::write::get_subtree_roots(3, &first.tiled_content).len();
    let documents = documents_for(roots);
    let one = EtilesWriter::new(Vec::new()).finish(&first, &documents).unwrap();
    let other = EtilesWriter::new(Vec::new()).finish(&second, &documents).unwrap();
    assert_eq!(one, other);
}

#[test]
fn subtree_files_come_before_content_files() {
    let cells = vec![
        OctantIndex { level: 3, x: 7, y: 7, z: 7 },
        OctantIndex { level: 0, x: 0, y: 0, z: 0 },
    ];
    let tileset = tileset_of(&cells);
    let documents = documents_for(2);
    let files = unpack(&EtilesWriter::new(Vec::new()).finish(&tileset, &documents).unwrap());
    let paths: Vec<&str> = files.iter().map(|file| file.path.as_str()).collect();
    assert_eq!(
        paths,
        vec![
            "tileset.json",
            "subtrees/0__0_0_0.subtree",
            "subtrees/3__7_7_7.subtree",
            "content/pc_0__0_0_0.glb",
            "content/pc_3__7_7_7.glb",
        ]
    );
    assert_eq!(&files[1].data[24..39], b"{\"subtree\":0}  ");
    assert_eq!(&files[2].data[24..39], b"{\"subtree\":1}  ");
}

#[test]
fn a_tileset_without_its_documents_cannot_be_packed() {
    let tileset = tileset_of(&[OctantIndex { level: 0, x: 0, y: 0, z: 0 }]);
    let writer = EtilesWriter::new(Vec::<u8>::new());
    assert!(!writer.can_pack(&tileset, &documents_for(0)));
    assert!(!writer.can_pack(&tileset, &documents_for(2)));
    assert!(writer.can_pack(&tileset, &documents_for(1)));
}

#[test]
fn a_tileset_without_its_contents_cannot_be_packed() {
    let mut tileset = tileset_of(&[OctantIndex { level: 0, x: 0, y: 0, z: 0 }]);
    let writer = EtilesWriter::new(Vec::<u8>::new());
    tileset.cell_contents.clear();
    assert!(!writer.can_pack(&tileset, &documents_for(1)));
    tileset.cell_contents.push(PointContent { document: Vec::new(), vertex_data: Vec::new() });
    assert!(!writer.can_pack(&tileset, &documents_for(1)));
}

#[test]
fn a_tileset_deeper_than_subtrees_reach_cannot_be_packed() {
    let tileset = tileset_of(&[OctantIndex { level: 30, x: 0, y: 0, z: 0 }]);
    let roots = etiles::write::get_subtree_roots(3, &tileset.tiled_content).len();
    let writer = EtilesWriter::new(Vec::<u8>::new());
    assert!(!writer.can_pack(&tileset, &documents_for(roots)));
}

#[test]
fn a_path_that_the_archive_refuses_fails_the_encoding() {
    let tileset = tileset_of(&[OctantIndex { level: 0, x: 0, y: 0, z: 0 }]);
    let documents = documents_for(1);
    let packed = etiles::write::write(
        Vec::new(),
        &documents.tileset_json,
        &tileset.tiled_content,
        &documents.subtree_json,
        &tileset.cell_contents,
        "../content/",
        "subtrees/",
        3,
    );
    assert_eq!(packed, Err(Error::EncodingFailed));
}

#[test]
fn directories_may_be_given_without_a_trailing_slash() {
    let tileset = tileset_of(&[OctantIndex { level: 0, x: 0, y: 0, z: 0 }]);
    let documents = documents_for(1);
    let archive = etiles::write::write(
        Vec::new(),
        &documents.tileset_json,
        &tileset.tiled_content,
        &documents.subtree_json,
        &tileset.cell_contents,
        "tiles/content",
        "tiles/subtrees",
        3,
    )
    .unwrap();
    let files = unpack(&archive);
    let paths: Vec<&str> = files.iter().map(|file| file.path.as_str()).collect();
    assert_eq!(
        paths,
        vec!["tileset.json", "tiles/subtrees/0__0_0_0.subtree", "tiles/content/pc_0__0_0_0.glb"]
    );
}

#[test]
fn no_two_files_share_a_path() {
    let mut cells = uniform_grid();
    cells.push(OctantIndex { level: 3, x: 1, y: 11 % 8, z: 0 });
    cells.push(OctantIndex { level: 3, x: 3, y: 1, z: 0 });
    cells.push(OctantIndex { level: 6, x: 11, y: 1, z: 0 });
    let tileset = tileset_of(&cells);
    let roots = etiles::write::get_subtree_roots(3, &tileset.tiled_content).len();
    let documents = documents_for(roots);
    let files = unpack(&EtilesWriter::new(Vec::new()).finish(&tileset, &documents).unwrap());
    let mut paths: Vec<&str> = files.iter().map(|file| file.path.as_str()).collect();
    let count = paths.len();
    assert_eq!(count, 1 + roots + tileset.tiled_content.cell_count());
    paths.sort();
    paths.dedup();
    assert_eq!(paths.len(), count);
}

#[test]
fn a_large_tileset_packs_identically_whatever_the_order_of_its_cells() {
    let mut cells = Vec::new();
    let mut state = 42u64;
    for _ in 0..300 {
        state = state.wrapping_mul(6364136223846793005).wrapping_add(1442695040888963407);
        let level = 1 + (state >> 60) as u32 % 6;
        let side = 1u64 << level;
        let x = (state >> 8) % side;
        let y = (state >> 24) % side;
        let z = (state >> 40) % side;
        cells.push(OctantIndex { level, x, y, z });
    }
    let first = tileset_of(&cells);
    cells.reverse();
    cells.rotate_left(17);
    let second = tileset_of(&cells);
    assert_eq!(first.tiled_content.cell_indices(), second.tiled_content.cell_indices());
    let roots = etiles::write::get_subtree_roots(3, &first.tiled_content).len();
    let documents = documents_for(roots);
    let one = EtilesWriter::new(Vec::new()).finish(&first, &documents).unwrap();
    let other = EtilesWriter::new(Vec::new()).finish(&second, &documents).unwrap();
    assert_eq!(one, other);
    let files = unpack(&one);
    assert_eq!(files.len(), 1 + roots + first.tiled_content.cell_count());
}
