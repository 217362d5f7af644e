//! The parts of the tileset document that the library decides: the content
//! reference and the implicit tiling of the root tile.

use crate::names::{content_name_pattern, join_path, path_in, subtree_name_pattern};
use crate::occupancy::OctreeOccupancy;
use crate::octant::OctantIndex;
use vstd::prelude::*;

verus! {

/// The file name of the tileset document.
pub const FILE_NAME_TILESET_JSON: &'static str = "tileset.json";

/// The name under which a viewer finds the content of a cell, with the
/// placeholders that it fills in.
pub const CONTENT_URI_TEMPLATE: &'static str = "pc_{level}__{x}_{y}_{z}.glb";

/// The name under which a viewer finds the subtree of a cell, with the
/// placeholders that it fills in.
pub const SUBTREE_URI_TEMPLATE: &'static str = "{level}__{x}_{y}_{z}.subtree";

/// The templates by which a viewer asks for the files of a cell are the
/// patterns of the file names, with a placeholder where a file name has the
/// digits of level and coordinates.
pub proof fn lemma_templates_match_names()
    ensures
        CONTENT_URI_TEMPLATE@ == content_name_pattern("{level}"@, "{x}"@, "{y}"@, "{z}"@),
        SUBTREE_URI_TEMPLATE@ == subtree_name_pattern("{level}"@, "{x}"@, "{y}"@, "{z}"@),
{
    reveal_strlit("pc_{level}__{x}_{y}_{z}.glb");
    reveal_strlit("{level}__{x}_{y}_{z}.subtree");
    reveal_strlit("{level}");
    reveal_strlit("{x}");
    reveal_strlit("{y}");
    reveal_strlit("{z}");
    reveal_strlit("__");
    reveal_strlit("_");
    reveal_strlit("pc_");
    reveal_strlit(".glb");
    reveal_strlit(".subtree");
    assert(CONTENT_URI_TEMPLATE@ =~= content_name_pattern("{level}"@, "{x}"@, "{y}"@, "{z}"@));
    assert(SUBTREE_URI_TEMPLATE@ =~= subtree_name_pattern("{level}"@, "{x}"@, "{y}"@, "{z}"@));
}

/// The asset entry of a tileset document.
#[derive(Debug, Clone, Copy, PartialEq, Eq, Structural)]
pub struct Asset {
    pub version: Version,
}

/// A version of the 3D Tiles format.
#[derive(Debug, Clone, Copy, PartialEq, Eq, Structural)]
pub enum Version {
    V1_0,
    V1_1,
}

impl Version {
    /// The version as it stands in the document.
    pub fn as_str(&self) -> (text: &'static str)
        ensures
            text@ == match *self {
                Version::V1_0 => "1.0"@,
                Version::V1_1 => "1.1"@,
            },
    {
        match self {
            Version::V1_0 => "1.0",
            Version::V1_1 => "1.1",
        }
    }
}

/// The reference of a tile to its content.
#[derive(Debug, Clone, PartialEq, Eq)]
pub struct Content {
    pub uri: String,
}

/// The implicit tiling of a tile.
#[derive(Debug, Clone, PartialEq, Eq)]
pub struct ImplicitTiling {
    pub subdivision_scheme: SubdivisionScheme,
    pub subtree_levels: u16,
    pub available_levels: u16,
    pub subtrees: Subtrees,
}

/// How an implicit tiling subdivides a tile.
#[derive(Debug, Clone, Copy, PartialEq, Eq, Structural)]
pub enum SubdivisionScheme {
    Quadtree,
    Octree,
}

/// The reference of an implicit tiling to its subtree files.
#[derive(Debug, Clone, PartialEq, Eq)]
pub struct Subtrees {
    pub uri: String,
}

/// How the content of a tile relates to that of its parent.
#[derive(Debug, Clone, Copy, PartialEq, Eq, Structural)]
pub enum Refinement {
    Add,
    Replace,
}

/// What the root tile of an implicit octree says apart from its geometry.
#[derive(Debug, Clone, PartialEq, Eq)]
pub struct ImplicitTile {
    pub content: Content,
    pub refine: Option<Refinement>,
    pub implicit_tiling: Option<ImplicitTiling>,
}

/// The deepest occupied level of an occupancy, or zero where no cell is
/// occupied.
pub open spec fn available_levels(content_octree: &OctreeOccupancy) -> nat {
    if content_octree.occupied_cells().len() == 0 {
        0
    } else {
        content_octree.occupied_cells().last().level as nat
    }
}

/// The root tile of the implicit octree of `content_octree`: it refers to
/// the content and subtree files by their templates in the two directories,
/// refines by adding, and describes an octree with `levels_per_subtree`
/// levels to a subtree whose deepest occupied level is that of the octree,
/// or zero where no cell is occupied. The number of levels is cut to the
/// sixteen bits that the document has for it.
pub fn derive_implicit_tile_from_content_octree(
    content_directory_path: &str,
    subtree_directory_path: &str,
    levels_per_subtree: usize,
    content_octree: &OctreeOccupancy,
) -> (tile: ImplicitTile)
    requires
        content_octree.wf(),
    ensures
        tile.content.uri@ == path_in(content_directory_path@, CONTENT_URI_TEMPLATE@),
        tile.refine == Some(Refinement::Add),
        tile.implicit_tiling matches Some(tiling) && {
            &&& tiling.subdivision_scheme == SubdivisionScheme::Octree
            &&& tiling.subtree_levels == levels_per_subtree % 0x1_0000
            &&& tiling.available_levels == available_levels(content_octree)
            &&& tiling.subtrees.uri@ == path_in(subtree_directory_path@, SUBTREE_URI_TEMPLATE@)
            &&& forall|c: OctantIndex|
                #[trigger] content_octree.is_occupied(c) ==> c.level <= tiling.available_levels
            &&& content_octree.occupied_cells().len() > 0 ==> exists|c: OctantIndex|
                #[trigger] content_octree.is_occupied(c) && c.level == tiling.available_levels
        },
{
    let available_levels: u32 = match content_octree.get_max_occupied_level() {
        Some(level) => level,
        None => 0,
    };
    proof {
        if content_octree.occupied_cells().len() > 0 {
            content_octree.lemma_deepest_is_last();
            assert(content_octree.occupied_cells().last().is_valid());
        } else {
            assert forall|c: OctantIndex| #[trigger] content_octree.is_occupied(c) implies c.level
                <= 0 by {
                assert(content_octree.occupied_cells().contains(c));
            }
        }
    }
    let subtree_levels: usize = levels_per_subtree % 0x1_0000;
    ImplicitTile {
        content: Content { uri: join_path(content_directory_path, CONTENT_URI_TEMPLATE) },
        refine: Some(Refinement::Add),
        implicit_tiling: Some(
            ImplicitTiling {
                subdivision_scheme: SubdivisionScheme::Octree,
                subtree_levels: subtree_levels as u16,
                available_levels: available_levels as u16,
                subtrees: Subtrees { uri: join_path(subtree_directory_path, SUBTREE_URI_TEMPLATE) },
            },
        ),
    }
}

} // verus!
