use etiles::get_availability_buffer;
use etiles::write_subtree;
use etiles::write_subtree_info;
use etiles::write::get_subtree_roots;
use etiles::write::subtree_documents;
use etiles::write::check_subtree_levels;
use etiles::OctantIndex;
use etiles::OctreeOccupancy;
use etiles::Subtree;

fn root() -> OctantIndex {
    OctantIndex { level: 0, x: 0, y: 0, z: 0 }
}

fn single_point() -> OctreeOccupancy {
    let mut occupancy = OctreeOccupancy::new();
    assert!(occupancy.add_content_cell(root()));
    occupancy
}

fn two_levels_of_subtrees() -> OctreeOccupancy {
    let mut occupancy = OctreeOccupancy::new();
    assert!(occupancy.add_content_cell(OctantIndex { level: 2, x: 3, y: 0, z: 1 }));
    assert!(occupancy.add_content_cell(OctantIndex { level: 3, x: 0, y: 0, z: 0 }));
    occupancy
}

#[test]
fn json_is_padded_with_spaces_to_a_multiple_of_eight() {
    assert_eq!(Subtree::encode_as_bytes(&b"{}".to_vec()), b"{}      ".to_vec());
    assert_eq!(Subtree::encode_as_bytes(&b"{\"a\":1}".to_vec()), b"{\"a\":1} ".to_vec());
    assert_eq!(Subtree::encode_as_bytes(&b"123456789".to_vec()), b"123456789       ".to_vec());
}

#[test]
fn json_of_whole_words_gets_no_padding() {
    assert_eq!(Subtree::encode_as_bytes(&b"12345678".to_vec()), b"12345678".to_vec());
    assert_eq!(Subtree::encode_as_bytes(&Vec::new()), Vec::<u8>::new());
}

#[test]
fn subtree_binary_starts_with_magic_version_and_lengths() {
    let occupancy = single_point();
    let info = get_availability_buffer(root(), 3, &occupancy);
    let mut buffer = Vec::new();
    assert_eq!(write_subtree(&mut buffer, &info, &b"{}".to_vec()), Ok(()));
    assert_eq!(&buffer[0..4], b"subt");
    assert_eq!(&buffer[4..8], &[1, 0, 0, 0]);
    assert_eq!(&buffer[8..16], &[8, 0, 0, 0, 0, 0, 0, 0]);
    assert_eq!(&buffer[16..24], &[32, 0, 0, 0, 0, 0, 0, 0]);
}

#[test]
fn subtree_binary_holds_padded_json_and_bitstreams_behind_the_header() {
    let occupancy = single_point();
    let info = get_availability_buffer(root(), 3, &occupancy);
    let mut buffer = Vec::new();
    write_subtree(&mut buffer, &info, &b"{}".to_vec()).unwrap();
    assert_eq!(buffer.len(), 24 + 8 + 32);
    assert_eq!(&buffer[24..32], b"{}      ");
    assert_eq!(&buffer[32..], &info.get_combined_buffer()[..]);
    assert_eq!(buffer[32], 1);
    assert_eq!(buffer[48], 1);
}

#[test]
fn subtree_binary_is_written_behind_what_the_writer_holds() {
    let occupancy = single_point();
    let info = get_availability_buffer(root(), 1, &occupancy);
    let mut buffer = vec![7, 7, 7];
    write_subtree(&mut buffer, &info, &b"12345678".to_vec()).unwrap();
    assert_eq!(&buffer[0..3], &[7, 7, 7]);
    assert_eq!(&buffer[3..7], b"subt");
    assert_eq!(buffer.len(), 3 + 24 + 8 + 16);
}

#[test]
fn header_lengths_are_little_endian() {
    let occupancy = single_point();
    let info = get_availability_buffer(root(), 4, &occupancy);
    let json = vec![b' '; 300];
    let mut buffer = Vec::new();
    write_subtree(&mut buffer, &info, &json).unwrap();
    // 304 = 0x0130 bytes of JSON, 80 + 80 = 160 = 0xA0 bytes of bitstreams.
    assert_eq!(&buffer[8..16], &[0x30, 0x01, 0, 0, 0, 0, 0, 0]);
    assert_eq!(&buffer[16..24], &[0xA0, 0, 0, 0, 0, 0, 0, 0]);
}

#[test]
fn subtree_roots_lie_on_every_level_that_starts_a_subtree() {
    let occupancy = two_levels_of_subtrees();
    assert_eq!(
        get_subtree_roots(2, &occupancy),
        vec![
            OctantIndex { level: 0, x: 0, y: 0, z: 0 },
            OctantIndex { level: 2, x: 0, y: 0, z: 0 },
            OctantIndex { level: 2, x: 3, y: 0, z: 1 },
        ]
    );
    assert_eq!(
        get_subtree_roots(3, &occupancy),
        vec![OctantIndex { level: 0, x: 0, y: 0, z: 0 }, OctantIndex { level: 3, x: 0, y: 0, z: 0 }]
    );
    assert_eq!(get_subtree_roots(1, &occupancy).len(), 6);
}

#[test]
fn an_empty_octree_has_no_subtree() {
    let occupancy = OctreeOccupancy::new();
    assert!(get_subtree_roots(3, &occupancy).is_empty());
    assert!(subtree_documents(3, &occupancy).is_empty());
    assert_eq!(write_subtree_info(3, &occupancy, &Vec::new()), Ok(Vec::new()));
}

#[test]
fn a_single_point_has_the_one_subtree_of_the_root() {
    let occupancy = single_point();
    let files = write_subtree_info(3, &occupancy, &vec![b"{}".to_vec()]).unwrap();
    assert_eq!(files.len(), 1);
    assert_eq!(files[0].0, "0__0_0_0.subtree");
    let info = get_availability_buffer(root(), 3, &occupancy);
    let mut expected = Vec::new();
    write_subtree(&mut expected, &info, &b"{}".to_vec()).unwrap();
    assert_eq!(files[0].1, expected);
}

#[test]
fn every_subtree_root_gets_its_file_with_its_document() {
    let occupancy = two_levels_of_subtrees();
    let documents = vec![b"first".to_vec(), b"second".to_vec(), b"third".to_vec()];
    let files = write_subtree_info(2, &occupancy, &documents).unwrap();
    let names: Vec<&str> = files.iter().map(|file| file.0.as_str()).collect();
    assert_eq!(names, vec!["0__0_0_0.subtree", "2__0_0_0.subtree", "2__3_0_1.subtree"]);
    assert_eq!(&files[0].1[24..32], b"first   ");
    assert_eq!(&files[1].1[24..32], b"second  ");
    assert_eq!(&files[2].1[24..32], b"third   ");
    // The subtree of (2, 0, 0, 0) holds the cell (3, 0, 0, 0) as its first child.
    assert_eq!(files[1].1[32], 0b0000_0011);
    assert_eq!(files[2].1[32], 0b0000_0001);
}

#[test]
fn subtree_documents_come_in_the_order_of_the_roots() {
    let occupancy = two_levels_of_subtrees();
    let documents = subtree_documents(2, &occupancy);
    let roots = get_subtree_roots(2, &occupancy);
    assert_eq!(documents.len(), 3);
    for (document, root) in documents.iter().zip(roots.iter()) {
        let info = get_availability_buffer(*root, 2, &occupancy);
        assert_eq!(*document, Subtree::from_availability(&info));
    }
    assert_eq!(documents[0].tile_availability.available_count, Some(3));
    assert_eq!(documents[1].tile_availability.available_count, Some(2));
    assert_eq!(documents[2].tile_availability.available_count, Some(1));
}

#[test]
fn subtrees_fit_where_the_cells_below_them_have_valid_levels() {
    let mut occupancy = OctreeOccupancy::new();
    assert!(occupancy.add_content_cell(OctantIndex { level: 29, x: 0, y: 0, z: 0 }));
    assert!(check_subtree_levels(3, &occupancy));
    assert!(!check_subtree_levels(4, &occupancy));
    assert!(!check_subtree_levels(0, &occupancy));
    assert!(!check_subtree_levels(9, &occupancy));
}

#[test]
fn any_number_of_levels_fits_an_empty_octree() {
    let occupancy = OctreeOccupancy::new();
    assert!(check_subtree_levels(8, &occupancy));
    assert!(check_subtree_levels(0, &occupancy));
    assert!(check_subtree_levels(10, &occupancy));
    assert!(get_subtree_roots(0, &occupancy).is_empty());
    assert_eq!(write_subtree_info(0, &occupancy, &Vec::new()), Ok(Vec::new()));
    assert_eq!(write_subtree_info(10, &occupancy, &Vec::new()), Ok(Vec::new()));
    assert!(subtree_documents(0, &occupancy).is_empty());
}

#[test]
fn child_subtree_bits_are_set_where_a_subtree_file_exists() {
    let occupancy = two_levels_of_subtrees();
    let roots = get_subtree_roots(2, &occupancy);
    let info = get_availability_buffer(root(), 2, &occupancy);
    let children = etiles::morton::descendants_in_morton_order(&root(), 2);
    let bits = info.child_subtree.buffer();
    for (code, child) in children.iter().enumerate() {
        let set = (bits[code / 8] >> (code % 8)) & 1 == 1;
        assert_eq!(set, roots.contains(child));
    }
    assert_eq!(info.child_subtree.count(), 2);
}

#[test]
fn as_many_levels_fit_as_can_be_listed() {
    let mut occupancy = OctreeOccupancy::new();
    assert!(occupancy.add_content_cell(OctantIndex { level: 1, x: 1, y: 0, z: 1 }));
    assert_eq!(check_subtree_levels(10, &occupancy), etiles::morton::check_can_list(10));
    assert!(!check_subtree_levels(11, &occupancy));
    assert!(check_subtree_levels(8, &occupancy));
}
