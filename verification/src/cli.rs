//! The commands of the command line and what they default to.

use vstd::prelude::*;

verus! {

/// The point budget of an octant where none is given.
pub const DEFAULT_MAXIMUM_POINTS_PER_OCTANT: u64 = 100000;

/// Whether points are shuffled where nothing is said.
pub const DEFAULT_RANDOMLY_SHUFFLE: bool = true;

/// The seed of the shuffle where none is given.
pub const DEFAULT_SHUFFLE_SEED_NUMBER: u64 = 42;

/// A parsed command line.
#[derive(Debug, Clone, PartialEq, Eq)]
pub struct Cli {
    pub command: Commands,
}

/// The commands of the program.
#[derive(Debug, Clone, PartialEq, Eq)]
pub enum Commands {
    /// Convert a point cloud file to 3D Tiles.
    ConvertPointCloudToTiles {
        /// Path of the point cloud to read.
        input_path: String,
        /// Path of the archive to write.
        output_directory_path: String,
        /// The most points an octant may hold.
        maximum_points_per_octant: u64,
        /// EPSG code of the reference system of the point cloud.
        source_crs: u32,
        /// Whether to shuffle the points before partitioning.
        randomly_shuffle: bool,
        /// Seed of the shuffle.
        shuffle_seed_number: u64,
    },
}

/// The seed to partition with: the given one where points are to be
/// shuffled, none where the order of the input is to be kept.
pub fn shuffle_seed(randomly_shuffle: bool, shuffle_seed_number: u64) -> (seed_number: Option<u64>)
    ensures
        seed_number == if randomly_shuffle {
            Some(shuffle_seed_number)
        } else {
            None
        },
{
    if randomly_shuffle {
        Some(shuffle_seed_number)
    } else {
        None
    }
}

} // verus!
