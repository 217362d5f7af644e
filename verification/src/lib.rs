//! Packing of point clouds into 3D Tiles archives with implicit octree tiling.
//!
//! The library computes the availability bitstreams of an implicit octree,
//! frames the `.subtree` and `.glb` binaries and packs them, with the
//! tileset document, into an uncompressed tar archive.

pub mod archive;
pub mod availability;
pub mod bits;
pub mod bytes;
pub mod cli;
pub mod content;
pub mod documents;
pub mod error;
pub mod glb;
pub mod morton;
pub mod names;
pub mod occupancy;
pub mod octant;
pub mod reproject;
pub mod subtree;
pub mod write;
pub mod writer;

pub use availability::{
    get_child_subtree_availability_buffer, get_content_availability_buffer,
    get_tile_availability_buffer, AvailabilityKind, AvailabilityRecord,
};
pub use cli::{Cli, Commands};
pub use content::{EncodableContent, PointContent};
pub use documents::{
    derive_implicit_tile_from_content_octree, Asset, Content, ImplicitTile, ImplicitTiling,
    Refinement, SubdivisionScheme, Subtrees, Version, FILE_NAME_TILESET_JSON,
};
pub use error::Error;
pub use glb::{align_to_multiple_of_four, to_padded_byte_vector, write_gltf_tile};
pub use names::{derive_content_filename, derive_subtree_filename};
pub use occupancy::OctreeOccupancy;
pub use octant::OctantIndex;
pub use reproject::reprojection_chunk_size;
pub use subtree::{
    get_availability_buffer, write_subtree, Availability, AvailabilityInfo, Buffer, BufferView,
    Constant, Subtree, SubtreeBinaryHeader,
};
pub use write::{
    write_subtree_info, CONTENT_DIRECTORY_PATH, FILE_EXTENSION_ETILES_UNCOMPRESSED,
    LEVELS_PER_SUBTREE, SUBTREES_DIRECTORY_PATH,
};
pub use writer::{EtilesWriter, SerializedDocuments, Tileset};
