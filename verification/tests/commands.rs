use etiles::reprojection_chunk_size;
use etiles::cli::shuffle_seed;
use etiles::cli::DEFAULT_MAXIMUM_POINTS_PER_OCTANT;
use etiles::cli::DEFAULT_RANDOMLY_SHUFFLE;
use etiles::cli::DEFAULT_SHUFFLE_SEED_NUMBER;
use etiles::Cli;
use etiles::Commands;

#[test]
fn shuffling_uses_the_given_seed() {
    assert_eq!(shuffle_seed(true, 42), Some(42));
    assert_eq!(shuffle_seed(true, 0), Some(0));
}

#[test]
fn without_shuffling_there_is_no_seed() {
    assert_eq!(shuffle_seed(false, 42), None);
}

#[test]
fn defaults_are_those_of_the_command_line() {
    assert_eq!(DEFAULT_MAXIMUM_POINTS_PER_OCTANT, 100000);
    assert_eq!(DEFAULT_SHUFFLE_SEED_NUMBER, 42);
    assert!(DEFAULT_RANDOMLY_SHUFFLE);
}

#[test]
fn a_command_holds_its_options() {
    let cli = Cli {
        command: Commands::ConvertPointCloudToTiles {
            input_path: "cloud.las".to_string(),
            output_directory_path: "out/tiles.tar".to_string(),
            maximum_points_per_octant: DEFAULT_MAXIMUM_POINTS_PER_OCTANT,
            source_crs: 4326,
            randomly_shuffle: DEFAULT_RANDOMLY_SHUFFLE,
            shuffle_seed_number: DEFAULT_SHUFFLE_SEED_NUMBER,
        },
    };
    let Commands::ConvertPointCloudToTiles { source_crs, randomly_shuffle, shuffle_seed_number, .. } =
        cli.command;
    assert_eq!(source_crs, 4326);
    assert_eq!(shuffle_seed(randomly_shuffle, shuffle_seed_number), Some(42));
}

#[test]
fn chunks_share_the_points_out_evenly_rounded_up() {
    assert_eq!(reprojection_chunk_size(10, 4), 3);
    assert_eq!(reprojection_chunk_size(12, 4), 3);
    assert_eq!(reprojection_chunk_size(13, 4), 4);
    assert_eq!(reprojection_chunk_size(1000000, 8), 125000);
    assert_eq!(reprojection_chunk_size(3, 8), 1);
}

#[test]
fn no_parallelism_counts_as_one_worker() {
    assert_eq!(reprojection_chunk_size(10, 0), 10);
    assert_eq!(reprojection_chunk_size(10, 1), 10);
}

#[test]
fn no_points_give_empty_chunks() {
    assert_eq!(reprojection_chunk_size(0, 4), 0);
    assert_eq!(reprojection_chunk_size(0, 0), 0);
}
