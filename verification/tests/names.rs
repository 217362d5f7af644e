use etiles::derive_content_filename;
use etiles::derive_implicit_tile_from_content_octree;
use etiles::derive_subtree_filename;
use etiles::names::join_path;
use etiles::writer::check_extension;
use etiles::writer::check_output_path;
use etiles::Asset;
use etiles::Error;
use etiles::ImplicitTiling;
use etiles::OctantIndex;
use etiles::OctreeOccupancy;
use etiles::Refinement;
use etiles::SubdivisionScheme;
use etiles::Subtrees;
use etiles::Version;

#[test]
fn content_file_is_named_after_level_and_coordinates() {
    let index = OctantIndex { level: 3, x: 5, y: 6, z: 7 };
    assert_eq!(derive_content_filename(&index), "pc_3__5_6_7.glb");
}

#[test]
fn content_file_of_the_root() {
    let index = OctantIndex { level: 0, x: 0, y: 0, z: 0 };
    assert_eq!(derive_content_filename(&index), "pc_0__0_0_0.glb");
}

#[test]
fn subtree_file_is_named_after_level_and_coordinates() {
    let index = OctantIndex { level: 12, x: 4095, y: 0, z: 1024 };
    assert_eq!(derive_subtree_filename(&index), "12__4095_0_1024.subtree");
}

#[test]
fn subtree_file_of_the_root() {
    let index = OctantIndex { level: 0, x: 0, y: 0, z: 0 };
    assert_eq!(derive_subtree_filename(&index), "0__0_0_0.subtree");
}

#[test]
fn names_hold_all_digits_of_large_coordinates() {
    let index = OctantIndex { level: 32, x: 4294967295, y: 1000000000, z: 10 };
    assert_eq!(derive_content_filename(&index), "pc_32__4294967295_1000000000_10.glb");
}

#[test]
fn different_cells_have_different_names() {
    let one = OctantIndex { level: 2, x: 1, y: 11, z: 0 };
    let other = OctantIndex { level: 2, x: 11, y: 1, z: 0 };
    assert_ne!(derive_content_filename(&one), derive_content_filename(&other));
    assert_ne!(derive_subtree_filename(&one), derive_subtree_filename(&other));
}

#[test]
fn a_path_joins_directory_and_name() {
    assert_eq!(join_path("content/", "pc_0__0_0_0.glb"), "content/pc_0__0_0_0.glb");
    assert_eq!(join_path("subtrees", "0__0_0_0.subtree"), "subtrees/0__0_0_0.subtree");
    assert_eq!(join_path("", "tileset.json"), "tileset.json");
    assert_eq!(join_path("a/b/", "c"), "a/b/c");
}

#[test]
fn output_path_with_zip_extension_is_rejected() {
    assert_eq!(check_output_path("foo.zip"), Err(Error::InvalidFileExtension("zip".to_string())));
}

#[test]
fn output_path_without_extension_is_rejected() {
    assert_eq!(check_output_path("foo"), Err(Error::NoFileExtension));
    assert_eq!(check_output_path("dir.d/foo"), Err(Error::NoFileExtension));
    assert_eq!(check_output_path(".tar"), Err(Error::NoFileExtension));
}

#[test]
fn output_path_with_tar_extension_is_accepted() {
    assert_eq!(check_output_path("foo.tar"), Ok(()));
    assert_eq!(check_output_path("/tmp/out/tiles.v2.tar"), Ok(()));
}

#[test]
fn output_path_extension_is_case_sensitive() {
    assert_eq!(check_output_path("foo.TAR"), Err(Error::InvalidFileExtension("TAR".to_string())));
    assert_eq!(
        check_output_path("foo.tar.gz"),
        Err(Error::InvalidFileExtension("gz".to_string()))
    );
}

#[test]
fn an_extension_is_checked_as_it_is_given() {
    assert_eq!(check_extension(None), Err(Error::NoFileExtension));
    assert_eq!(check_extension(Some("tar".to_string())), Ok(()));
    assert_eq!(
        check_extension(Some("".to_string())),
        Err(Error::InvalidFileExtension("".to_string()))
    );
}

#[test]
fn the_root_tile_of_an_empty_octree_has_no_available_level() {
    let occupancy = OctreeOccupancy::new();
    let tile = derive_implicit_tile_from_content_octree("content/", "subtrees/", 3, &occupancy);
    assert_eq!(tile.content.uri, "content/pc_{level}__{x}_{y}_{z}.glb");
    assert_eq!(tile.refine, Some(Refinement::Add));
    assert_eq!(
        tile.implicit_tiling,
        Some(ImplicitTiling {
            subdivision_scheme: SubdivisionScheme::Octree,
            subtree_levels: 3,
            available_levels: 0,
            subtrees: Subtrees { uri: "subtrees/{level}__{x}_{y}_{z}.subtree".to_string() },
        })
    );
}

#[test]
fn the_root_tile_tells_the_deepest_occupied_level() {
    let mut occupancy = OctreeOccupancy::new();
    assert!(occupancy.add_content_cell(OctantIndex { level: 5, x: 17, y: 0, z: 31 }));
    assert!(occupancy.add_content_cell(OctantIndex { level: 2, x: 1, y: 1, z: 1 }));
    let tile = derive_implicit_tile_from_content_octree("content/", "subtrees/", 3, &occupancy);
    assert_eq!(tile.implicit_tiling.unwrap().available_levels, 5);
}

#[test]
fn versions_are_written_with_a_dot() {
    assert_eq!(Version::V1_0.as_str(), "1.0");
    assert_eq!(Version::V1_1.as_str(), "1.1");
    assert_eq!(Asset { version: Version::V1_1 }.version.as_str(), "1.1");
}

#[test]
fn a_writer_is_made_for_a_tar_path_only() {
    let writer = etiles::EtilesWriter::from_path("out/tiles.tar").unwrap();
    assert_eq!(writer.get_levels_per_subtree(), 3);
    assert_eq!(
        etiles::EtilesWriter::from_path("foo.zip").err(),
        Some(Error::InvalidFileExtension("zip".to_string()))
    );
    assert_eq!(etiles::EtilesWriter::from_path("foo").err(), Some(Error::NoFileExtension));
}
