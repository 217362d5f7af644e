//! Packing a tileset into its archive: the tileset document, the subtree
//! files and the content files, in this order.

use crate::archive::{
    archive_append, archive_bytes, archive_end, archive_into_inner, archive_new,
    create_archive_header, tar_entry, Archive, ENTRY_MODE,
};
use crate::content::{EncodableContent, PointContent};
use crate::documents::{CONTENT_URI_TEMPLATE, FILE_NAME_TILESET_JSON, SUBTREE_URI_TEMPLATE};
use crate::error::{encoding_outcome, Error};
use crate::morton::{can_list, check_can_list};
use crate::names::{
    content_filename, content_name_pattern, decimal_digits, derive_content_filename,
    derive_subtree_filename, join_path, path_in, subtree_filename, subtree_name_pattern,
};
use crate::availability::{
    lemma_bit_of_cell, lemma_subtree_bits, level_bits, subtree_bits, subtree_cell_count,
    AvailabilityKind,
};
use crate::names::lemma_names_tell_cells;
use crate::occupancy::{
    lemma_ancestors_occupied, lemma_order_is_canonical, precedes, strictly_ascending,
    OctreeOccupancy,
};
use crate::octant::{eight_pow, OctantIndex, MAX_LEVEL};
use crate::subtree::{
    get_availability_buffer, subtree_availability, subtree_binary, write_subtree, Subtree,
};
use vstd::prelude::*;
use vstd::string::*;

verus! {

/// The extension of the archive of a tileset.
pub const FILE_EXTENSION_ETILES_UNCOMPRESSED: &'static str = "tar";

/// The directory of the content files in the archive.
pub const CONTENT_DIRECTORY_PATH: &'static str = "content/";

/// The directory of the subtree files in the archive.
pub const SUBTREES_DIRECTORY_PATH: &'static str = "subtrees/";

/// The number of levels that one subtree file describes.
pub const LEVELS_PER_SUBTREE: usize = 3;

/// A file of the archive: its path and its bytes.
pub type Entry = (Seq<char>, Seq<u8>);

/// The roots of the subtrees of an octree cut into subtrees of `levels`
/// levels: the occupied cells on every level that is a multiple of `levels`,
/// in ascending order.
pub open spec fn subtree_roots(occupancy: &OctreeOccupancy, levels: nat) -> Seq<OctantIndex> {
    occupancy.occupied_cells().filter(|c: OctantIndex| c.level as nat % levels == 0)
}

/// Subtrees of `levels` levels can be laid over the octree: no cell is
/// occupied, so that there is no subtree at all; or a subtree has at least
/// one level, the cells just below a subtree can be listed, and the cells
/// just below the deepest subtree have valid levels.
pub open spec fn fits_subtrees(occupancy: &OctreeOccupancy, levels: nat) -> bool {
    occupancy.occupied_cells().len() == 0 || {
        &&& 1 <= levels
        &&& can_list(levels)
        &&& forall|c: OctantIndex|
            #[trigger] occupancy.is_occupied(c) ==> c.level + levels <= MAX_LEVEL
    }
}

/// The subtree files of an octree: for each subtree root its file name and
/// the binary made of the serialized document given for it and of its
/// availability bitstreams.
pub open spec fn subtree_files(
    occupancy: &OctreeOccupancy,
    levels: nat,
    subtree_json: Seq<Vec<u8>>,
) -> Seq<Entry> {
    Seq::new(
        subtree_roots(occupancy, levels).len(),
        |i: int|
            (
                subtree_filename(subtree_roots(occupancy, levels)[i]),
                subtree_binary(
                    subtree_json[i]@,
                    subtree_availability(
                        occupancy,
                        subtree_roots(occupancy, levels)[i],
                        levels,
                    ).combined(),
                ),
            ),
    )
}

/// The content files of an octree: for each cell with content its file
/// name and the encoding of the content given for it.
pub open spec fn content_files(
    occupancy: &OctreeOccupancy,
    cell_contents: Seq<PointContent>,
) -> Seq<Entry> {
    Seq::new(
        occupancy.content_cells().len(),
        |i: int| (content_filename(occupancy.content_cells()[i]), cell_contents[i].encoding()),
    )
}

/// The files moved into `directory`.
pub open spec fn in_directory(directory: Seq<char>, files: Seq<Entry>) -> Seq<Entry> {
    Seq::new(files.len(), |i: int| (path_in(directory, files[i].0), files[i].1))
}

/// What the archive does with `file` when it comes with a header of the
/// file's size, the mode of the archive and time zero: the bytes of its
/// entry, or `None` where the archive refuses its path.
pub open spec fn file_entry(file: Entry) -> Option<Seq<u8>> {
    tar_entry(file.1.len() as u64, ENTRY_MODE, 0, file.0, file.1)
}

/// The archive takes the path of every one of `files`.
pub open spec fn accepted(files: Seq<Entry>) -> bool {
    forall|i: int| 0 <= i < files.len() ==> file_entry(#[trigger] files[i]) is Some
}

/// The bytes of the archive entries for `files` in their order.
pub open spec fn packed(files: Seq<Entry>) -> Seq<u8>
    decreases files.len(),
{
    if files.len() == 0 {
        Seq::empty()
    } else {
        packed(files.drop_last()) + file_entry(files.last())->0
    }
}

/// The subtree roots of `content_octree` for subtrees of
/// `levels_per_subtree` levels.
pub fn get_subtree_roots(levels_per_subtree: usize, content_octree: &OctreeOccupancy) -> (roots:
    Vec<OctantIndex>)
    requires
        levels_per_subtree >= 1 || content_octree.occupied_cells().len() == 0,
    ensures
        roots@ == subtree_roots(content_octree, levels_per_subtree as nat),
{
    let cells = content_octree.occupied_cell_indices();
    let mut roots: Vec<OctantIndex> = Vec::new();
    let ghost is_root = |c: OctantIndex| c.level as nat % (levels_per_subtree as nat) == 0;
    let mut i: usize = 0;
    proof {
        reveal(Seq::filter);
        assert(cells@.subrange(0, 0) == Seq::<OctantIndex>::empty());
    }
    if cells.len() == 0 {
        proof {
            assert(cells@ == Seq::<OctantIndex>::empty());
        }
        return roots;
    }
    while i < cells.len()
        invariant
            levels_per_subtree >= 1,
            i <= cells@.len(),
            is_root == |c: OctantIndex| c.level as nat % (levels_per_subtree as nat) == 0,
            roots@ == cells@.subrange(0, i as int).filter(is_root),
        decreases cells@.len() - i,
    {
        proof {
            reveal(Seq::filter);
            let next = cells@.subrange(0, i + 1);
            assert(next.drop_last() == cells@.subrange(0, i as int));
            assert(next.last() == cells@[i as int]);
        }
        if cells[i].level as usize % levels_per_subtree == 0 {
            roots.push(cells[i]);
        }
        i += 1;
    }
    proof {
        assert(cells@.subrange(0, i as int) == cells@);
    }
    roots
}

/// Every subtree root is an occupied cell.
pub proof fn lemma_subtree_roots_occupied(occupancy: &OctreeOccupancy, levels: nat)
    ensures
        forall|i: int|
            0 <= i < subtree_roots(occupancy, levels).len() ==> occupancy.is_occupied(
                #[trigger] subtree_roots(occupancy, levels)[i],
            ),
{
    let is_root = |c: OctantIndex| c.level as nat % levels == 0;
    let roots = subtree_roots(occupancy, levels);
    assert forall|i: int| 0 <= i < roots.len() implies occupancy.is_occupied(#[trigger] roots[i]) by {
        assert(roots.contains(roots[i]));
        occupancy.occupied_cells().lemma_filter_contains_rev(is_root, roots[i]);
    }
}

/// Whether subtrees of `levels_per_subtree` levels can be laid over
/// `content_octree`.
pub fn check_subtree_levels(levels_per_subtree: usize, content_octree: &OctreeOccupancy) -> (fits:
    bool)
    requires
        content_octree.wf(),
    ensures
        fits == fits_subtrees(content_octree, levels_per_subtree as nat),
{
    match content_octree.get_max_occupied_level() {
        Some(deepest) => {
            1 <= levels_per_subtree && check_can_list(levels_per_subtree) && deepest as usize
                + levels_per_subtree <= MAX_LEVEL as usize
        },
        None => true,
    }
}

/// The documents of the subtrees of `content_octree`, one for each subtree
/// root in their order.
pub fn subtree_documents(levels_per_subtree: usize, content_octree: &OctreeOccupancy) -> (documents:
    Vec<Subtree>)
    requires
        content_octree.wf(),
        fits_subtrees(content_octree, levels_per_subtree as nat),
    ensures
        documents@.len() == subtree_roots(content_octree, levels_per_subtree as nat).len(),
        forall|i: int|
            0 <= i < documents@.len() ==> (#[trigger] documents@[i])@ == subtree_availability(
                content_octree,
                subtree_roots(content_octree, levels_per_subtree as nat)[i],
                levels_per_subtree as nat,
            ).document(),
{
    let roots = get_subtree_roots(levels_per_subtree, content_octree);
    let mut documents: Vec<Subtree> = Vec::new();
    let mut i: usize = 0;
    proof {
        lemma_subtree_roots_occupied(content_octree, levels_per_subtree as nat);
    }
    while i < roots.len()
        invariant
            content_octree.wf(),
            fits_subtrees(content_octree, levels_per_subtree as nat),
            roots@ == subtree_roots(content_octree, levels_per_subtree as nat),
            forall|k: int| 0 <= k < roots@.len() ==> content_octree.is_occupied(#[trigger] roots@[k]),
            i <= roots@.len(),
            documents@.len() == i,
            forall|k: int|
                0 <= k < i ==> (#[trigger] documents@[k])@ == subtree_availability(
                    content_octree,
                    roots@[k],
                    levels_per_subtree as nat,
                ).document(),
        decreases roots@.len() - i,
    {
        let availability_info = get_availability_buffer(
            roots[i],
            levels_per_subtree,
            content_octree,
        );
        documents.push(Subtree::from_availability(&availability_info));
        i += 1;
    }
    documents
}

/// The subtree files of `content_octree`: for each subtree root, in their
/// order, the name of its file and the binary made of its availability and
/// of `subtree_json[i]`, the serialized document of the subtree.
pub fn write_subtree_info(
    levels_per_subtree: usize,
    content_octree: &OctreeOccupancy,
    subtree_json: &Vec<Vec<u8>>,
) -> (r: Result<Vec<(String, Vec<u8>)>, Error>)
    requires
        content_octree.wf(),
        fits_subtrees(content_octree, levels_per_subtree as nat),
        subtree_json@.len() == subtree_roots(content_octree, levels_per_subtree as nat).len(),
    ensures
        r matches Ok(subtree_infos) && files_of(subtree_infos@) == subtree_files(
            content_octree,
            levels_per_subtree as nat,
            subtree_json@,
        ),
        r matches Ok(subtree_infos) ==> forall|i: int, j: int|
            0 <= i < j < subtree_infos@.len() ==> (#[trigger] subtree_infos@[i]).0@ != (
            #[trigger] subtree_infos@[j]).0@,
{
    let roots = get_subtree_roots(levels_per_subtree, content_octree);
    let mut subtree_infos: Vec<(String, Vec<u8>)> = Vec::new();
    let ghost target = subtree_files(content_octree, levels_per_subtree as nat, subtree_json@);
    let mut i: usize = 0;
    proof {
        lemma_subtree_roots_occupied(content_octree, levels_per_subtree as nat);
    }
    while i < roots.len()
        invariant
            content_octree.wf(),
            fits_subtrees(content_octree, levels_per_subtree as nat),
            roots@ == subtree_roots(content_octree, levels_per_subtree as nat),
            subtree_json@.len() == roots@.len(),
            target == subtree_files(content_octree, levels_per_subtree as nat, subtree_json@),
            forall|k: int| 0 <= k < roots@.len() ==> content_octree.is_occupied(#[trigger] roots@[k]),
            i <= roots@.len(),
            subtree_infos@.len() == i,
            forall|k: int|
                0 <= k < i ==> (#[trigger] subtree_infos@[k]).0@ == target[k].0
                    && subtree_infos@[k].1@ == target[k].1,
        decreases roots@.len() - i,
    {
        let current_occupied_octant_index = roots[i];
        let availability_info = get_availability_buffer(
            current_occupied_octant_index,
            levels_per_subtree,
            content_octree,
        );
        let mut subtree_info_buffer: Vec<u8> = Vec::new();
        match write_subtree(&mut subtree_info_buffer, &availability_info, &subtree_json[i]) {
            Ok(()) => {},
            Err(error) => { return Err(error); },
        }
        let file_name = derive_subtree_filename(&current_occupied_octant_index);
        assert(subtree_info_buffer@ =~= target[i as int].1);
        subtree_infos.push((file_name, subtree_info_buffer));
        i += 1;
    }
    proof {
        assert(files_of(subtree_infos@) =~= target);
        lemma_filter_ascending(
            content_octree.occupied_cells(),
            |c: OctantIndex| c.level as nat % (levels_per_subtree as nat) == 0,
        );
        assert forall|i: int, j: int| 0 <= i < j < subtree_infos@.len() implies (
        #[trigger] subtree_infos@[i]).0@ != (#[trigger] subtree_infos@[j]).0@ by {
            assert(precedes(roots@[i], roots@[j]));
            lemma_names_tell_cells(roots@[i], roots@[j]);
            assert(subtree_infos@[i].0@ == target[i].0);
            assert(subtree_infos@[j].0@ == target[j].0);
        }
    }
    Ok(subtree_infos)
}

/// Paths and bytes of a list of named buffers.
pub open spec fn files_of(named: Seq<(String, Vec<u8>)>) -> Seq<Entry> {
    Seq::new(named.len(), |i: int| (named[i].0@, named[i].1@))
}

/// The entry of a file that is added to a list follows the entries of the
/// list, and the archive takes the longer list where it takes the list and
/// the file.
pub proof fn lemma_packed_push(files: Seq<Entry>, file: Entry)
    ensures
        packed(files.push(file)) == packed(files) + file_entry(file)->0,
        accepted(files.push(file)) <==> accepted(files) && file_entry(file) is Some,
{
    let longer = files.push(file);
    assert(longer.drop_last() == files);
    assert(longer[files.len() as int] == file);
    if accepted(longer) {
        assert forall|i: int| 0 <= i < files.len() implies file_entry(#[trigger] files[i])
            is Some by {
            assert(longer[i] == files[i]);
        }
    }
}

/// Appends `data` to the archive under `path`, with a header of its size,
/// the mode of the archive and no time of modification.
fn append_file(
    archive_builder: &mut Archive,
    path: &str,
    data: &Vec<u8>,
    Ghost(files): Ghost<Seq<Entry>>,
    Ghost(start): Ghost<Seq<u8>>,
) -> (r: Result<(), Error>)
    requires
        archive_bytes(*old(archive_builder)) == start + packed(files),
    ensures
        r is Ok <==> file_entry((path@, data@)) is Some,
        r is Ok ==> archive_bytes(*final(archive_builder)) == start + packed(
            files.push((path@, data@)),
        ),
        r is Err ==> r == Err::<(), Error>(Error::EncodingFailed),
{
    let header = create_archive_header(data.len(), None);
    proof {
        lemma_packed_push(files, (path@, data@));
        let entry = file_entry((path@, data@))->0;
        assert(start + packed(files) + entry == start + (packed(files) + entry));
    }
    encoding_outcome(archive_append(archive_builder, &header, path, data))
}

/// The files of the archive of a tileset in their order: the tileset
/// document, the subtree files in their directory, the content files in
/// theirs.
pub open spec fn archive_files(
    tileset_json: Seq<u8>,
    content_octree: &OctreeOccupancy,
    subtree_json: Seq<Vec<u8>>,
    cell_contents: Seq<PointContent>,
    content_directory_path: Seq<char>,
    subtrees_directory_path: Seq<char>,
    levels: nat,
) -> Seq<Entry> {
    seq![(FILE_NAME_TILESET_JSON@, tileset_json)] + in_directory(
        subtrees_directory_path,
        subtree_files(content_octree, levels, subtree_json),
    ) + in_directory(content_directory_path, content_files(content_octree, cell_contents))
}

/// What can be packed: subtrees of `levels` levels fit the octree, there is
/// a serialized document for each subtree root, and there is content that
/// can be encoded for each cell with content.
pub open spec fn packable(
    content_octree: &OctreeOccupancy,
    subtree_json: Seq<Vec<u8>>,
    cell_contents: Seq<PointContent>,
    levels: nat,
) -> bool {
    &&& fits_subtrees(content_octree, levels)
    &&& subtree_json.len() == subtree_roots(content_octree, levels).len()
    &&& cell_contents.len() == content_octree.content_cells().len()
    &&& forall|i: int| 0 <= i < cell_contents.len() ==> (#[trigger] cell_contents[i]).encodable()
}

/// The archive takes two lists one after the other where it takes both.
pub proof fn lemma_accepted_concat(a: Seq<Entry>, b: Seq<Entry>)
    ensures
        accepted(a + b) <==> accepted(a) && accepted(b),
{
    let all = a + b;
    if accepted(all) {
        assert forall|i: int| 0 <= i < a.len() implies file_entry(#[trigger] a[i]) is Some by {
            assert(all[i] == a[i]);
        }
        assert forall|i: int| 0 <= i < b.len() implies file_entry(#[trigger] b[i]) is Some by {
            assert(all[a.len() + i] == b[i]);
        }
    }
    if accepted(a) && accepted(b) {
        assert forall|i: int| 0 <= i < all.len() implies file_entry(#[trigger] all[i]) is Some by {
            if i < a.len() {
                assert(all[i] == a[i]);
            } else {
                assert(all[i] == b[i - a.len()]);
            }
        }
    }
}

/// Appends the named buffers to the archive as files of `directory`, in
/// their order, and stops at the first path that the archive refuses.
fn append_files(
    archive_builder: &mut Archive,
    directory: &str,
    named: &Vec<(String, Vec<u8>)>,
    Ghost(before): Ghost<Seq<Entry>>,
    Ghost(start): Ghost<Seq<u8>>,
) -> (r: Result<(), Error>)
    requires
        archive_bytes(*old(archive_builder)) == start + packed(before),
    ensures
        r is Ok <==> accepted(in_directory(directory@, files_of(named@))),
        r is Ok ==> archive_bytes(*final(archive_builder)) == start + packed(
            before + in_directory(directory@, files_of(named@)),
        ),
        r is Err ==> r == Err::<(), Error>(Error::EncodingFailed),
{
    let ghost files = in_directory(directory@, files_of(named@));
    let mut i: usize = 0;
    proof {
        assert(before + files.subrange(0, 0) == before);
    }
    while i < named.len()
        invariant
            i <= named@.len(),
            files == in_directory(directory@, files_of(named@)),
            accepted(files.subrange(0, i as int)),
            archive_bytes(*archive_builder) == start + packed(before + files.subrange(0, i as int)),
        decreases named@.len() - i,
    {
        let path = join_path(directory, named[i].0.as_str());
        proof {
            assert((before + files.subrange(0, i as int)).push(files[i as int]) == before
                + files.subrange(0, i + 1));
            assert(files.subrange(0, i as int).push(files[i as int]) == files.subrange(0, i + 1));
            lemma_packed_push(files.subrange(0, i as int), files[i as int]);
        }
        match append_file(
            archive_builder,
            path.as_str(),
            &named[i].1,
            Ghost(before + files.subrange(0, i as int)),
            Ghost(start),
        ) {
            Ok(()) => {},
            Err(error) => {
                proof {
                    assert(file_entry(files[i as int]) is None);
                }
                return Err(error);
            },
        }
        i += 1;
    }
    proof {
        assert(files.subrange(0, i as int) == files);
    }
    Ok(())
}

/// The content files of `content_octree` without their directory: for each
/// cell with content, in the order of the cells, the name of its file and
/// the encoding of the content given for it.
pub fn encode_contents(content_octree: &OctreeOccupancy, cell_contents: &Vec<PointContent>) -> (
    encoded_content_tiles: Vec<(String, Vec<u8>)>)
    requires
        cell_contents@.len() == content_octree.content_cells().len(),
        forall|i: int| 0 <= i < cell_contents@.len() ==> (#[trigger] cell_contents@[i]).encodable(),
    ensures
        files_of(encoded_content_tiles@) == content_files(content_octree, cell_contents@),
{
    let cells = content_octree.cell_indices();
    let ghost target = content_files(content_octree, cell_contents@);
    let mut encoded_content_tiles: Vec<(String, Vec<u8>)> = Vec::new();
    let mut j: usize = 0;
    while j < cells.len()
        invariant
            j <= cells@.len(),
            cells@ == content_octree.content_cells(),
            cell_contents@.len() == cells@.len(),
            forall|k: int| 0 <= k < cell_contents@.len() ==> (#[trigger] cell_contents@[k]).encodable(),
            target == content_files(content_octree, cell_contents@),
            encoded_content_tiles@.len() == j,
            forall|k: int|
                0 <= k < j ==> (#[trigger] encoded_content_tiles@[k]).0@ == target[k].0
                    && encoded_content_tiles@[k].1@ == target[k].1,
        decreases cells@.len() - j,
    {
        let name = derive_content_filename(&cells[j]);
        let data = match cell_contents[j].encode() {
            Ok(data) => data,
            Err(_) => unreached(),
        };
        encoded_content_tiles.push((name, data));
        j += 1;
    }
    proof {
        assert(files_of(encoded_content_tiles@) =~= target);
    }
    encoded_content_tiles
}

/// Packs a tileset into an archive behind what `writer` holds.
///
/// `tileset_json` is the serialized tileset document, `subtree_json` holds
/// the serialized document of each subtree in the order of the subtree
/// roots, and `cell_contents` the content of each cell with content in the
/// order of the cells. The call succeeds if and only if the archive takes
/// the path of every file; the result is then `writer` followed by the
/// entries of all files in their order and by the end of the archive.
pub fn write(
    writer: Vec<u8>,
    tileset_json: &Vec<u8>,
    content_octree: &OctreeOccupancy,
    subtree_json: &Vec<Vec<u8>>,
    cell_contents: &Vec<PointContent>,
    content_directory_path: &str,
    subtrees_directory_path: &str,
    levels_per_subtree: usize,
) -> (r: Result<Vec<u8>, Error>)
    requires
        content_octree.wf(),
        packable(content_octree, subtree_json@, cell_contents@, levels_per_subtree as nat),
    ensures
        r is Ok <==> accepted(
            archive_files(
                tileset_json@,
                content_octree,
                subtree_json@,
                cell_contents@,
                content_directory_path@,
                subtrees_directory_path@,
                levels_per_subtree as nat,
            ),
        ),
        r matches Ok(archive) ==> archive@ == writer@ + packed(
            archive_files(
                tileset_json@,
                content_octree,
                subtree_json@,
                cell_contents@,
                content_directory_path@,
                subtrees_directory_path@,
                levels_per_subtree as nat,
            ),
        ) + archive_end(),
        r is Err ==> r == Err::<Vec<u8>, Error>(Error::EncodingFailed),
{
    let ghost subtrees = in_directory(
        subtrees_directory_path@,
        subtree_files(content_octree, levels_per_subtree as nat, subtree_json@),
    );
    let ghost contents = in_directory(
        content_directory_path@,
        content_files(content_octree, cell_contents@),
    );
    let ghost first: Seq<Entry> = seq![(FILE_NAME_TILESET_JSON@, tileset_json@)];
    let mut archive_builder = archive_new(writer);
    proof {
        assert(writer@ + Seq::<u8>::empty() == writer@);
        assert(Seq::<Entry>::empty().push((FILE_NAME_TILESET_JSON@, tileset_json@)) == first);
        lemma_packed_push(Seq::empty(), (FILE_NAME_TILESET_JSON@, tileset_json@));
        lemma_accepted_concat(first, subtrees);
        lemma_accepted_concat(first + subtrees, contents);
    }
    match append_file(
        &mut archive_builder,
        FILE_NAME_TILESET_JSON,
        tileset_json,
        Ghost(Seq::empty()),
        Ghost(writer@),
    ) {
        Ok(()) => {},
        Err(error) => { return Err(error); },
    }
    let subtree_binaries = match write_subtree_info(
        levels_per_subtree,
        content_octree,
        subtree_json,
    ) {
        Ok(binaries) => binaries,
        Err(_) => unreached(),
    };
    match append_files(
        &mut archive_builder,
        subtrees_directory_path,
        &subtree_binaries,
        Ghost(first),
        Ghost(writer@),
    ) {
        Ok(()) => {},
        Err(error) => { return Err(error); },
    }
    let encoded_content_tiles = encode_contents(content_octree, cell_contents);
    match append_files(
        &mut archive_builder,
        content_directory_path,
        &encoded_content_tiles,
        Ghost(first + subtrees),
        Ghost(writer@),
    ) {
        Ok(()) => {},
        Err(error) => { return Err(error); },
    }
    encoding_outcome(archive_into_inner(archive_builder))
}

/// Of an ascending list, what a filter keeps is ascending.
pub proof fn lemma_filter_ascending(cells: Seq<OctantIndex>, keep: spec_fn(OctantIndex) -> bool)
    requires
        strictly_ascending(cells),
    ensures
        strictly_ascending(cells.filter(keep)),
        forall|i: int|
            0 <= i < cells.filter(keep).len() ==> cells.contains(#[trigger] cells.filter(keep)[i]),
    decreases cells.len(),
{
    reveal(Seq::filter);
    if cells.len() > 0 {
        let rest = cells.drop_last();
        lemma_filter_ascending(rest, keep);
        let kept = rest.filter(keep);
        assert forall|i: int| 0 <= i < kept.len() implies cells.contains(#[trigger] kept[i])
            && precedes(kept[i], cells.last()) by {
            assert(rest.contains(kept[i]));
            let at = choose|at: int| 0 <= at < rest.len() && rest[at] == kept[i];
            assert(cells[at] == kept[i]);
            assert(precedes(cells[at], cells[cells.len() - 1]));
        }
        assert(cells.contains(cells.last())) by {
            assert(cells[cells.len() - 1] == cells.last());
        }
    }
}

/// Two paths in one directory are equal only where the names are.
pub proof fn lemma_path_in_tells_name(directory: Seq<char>, a: Seq<char>, b: Seq<char>)
    requires
        path_in(directory, a) == path_in(directory, b),
    ensures
        a == b,
{
    let prefix = if directory.len() == 0 || directory.last() == '/' {
        directory
    } else {
        directory + seq!['/']
    };
    assert(path_in(directory, a) =~= prefix + a);
    assert(path_in(directory, b) =~= prefix + b);
    assert((prefix + a).subrange(prefix.len() as int, (prefix + a).len() as int) =~= a);
    assert((prefix + b).subrange(prefix.len() as int, (prefix + b).len() as int) =~= b);
}

/// A path ends as the name of its file ends.
pub proof fn lemma_path_in_ends_as_name(directory: Seq<char>, name: Seq<char>)
    requires
        name.len() > 0,
    ensures
        path_in(directory, name).len() > 0,
        path_in(directory, name).last() == name.last(),
{
}

/// No two files of an archive have the same path: the tileset document,
/// the subtree files and the content files differ in how their names end,
/// and the names of two subtree files or of two content files differ with
/// their cells.
pub proof fn lemma_archive_paths_distinct(
    tileset_json: Seq<u8>,
    content_octree: &OctreeOccupancy,
    subtree_json: Seq<Vec<u8>>,
    cell_contents: Seq<PointContent>,
    content_directory_path: Seq<char>,
    subtrees_directory_path: Seq<char>,
    levels: nat,
)
    requires
        content_octree.wf(),
    ensures
        ({
            let files = archive_files(
                tileset_json,
                content_octree,
                subtree_json,
                cell_contents,
                content_directory_path,
                subtrees_directory_path,
                levels,
            );
            forall|i: int, j: int| 0 <= i < j < files.len() ==> files[i].0 != files[j].0
        }),
{
    reveal_strlit("tileset.json");
    reveal_strlit(".subtree");
    reveal_strlit(".glb");
    let files = archive_files(
        tileset_json,
        content_octree,
        subtree_json,
        cell_contents,
        content_directory_path,
        subtrees_directory_path,
        levels,
    );
    let roots = subtree_roots(content_octree, levels);
    let cells = content_octree.content_cells();
    let first_content = 1 + roots.len();
    lemma_filter_ascending(
        content_octree.occupied_cells(),
        |c: OctantIndex| c.level as nat % levels == 0,
    );
    assert forall|i: int, j: int| 0 <= i < j < files.len() implies files[i].0 != files[j].0 by {
        if files[i].0 == files[j].0 {
            if j < first_content {
                let b = roots[j - 1];
                lemma_path_in_ends_as_name(subtrees_directory_path, subtree_filename(b));
                assert(files[j].0 == path_in(subtrees_directory_path, subtree_filename(b)));
                assert(subtree_filename(b).last() == 'e');
                if i == 0 {
                    assert(files[i].0 == FILE_NAME_TILESET_JSON@);
                    assert(FILE_NAME_TILESET_JSON@.last() == 'n');
                } else {
                    let a = roots[i - 1];
                    assert(files[i].0 == path_in(subtrees_directory_path, subtree_filename(a)));
                    lemma_path_in_tells_name(
                        subtrees_directory_path,
                        subtree_filename(a),
                        subtree_filename(b),
                    );
                    lemma_names_tell_cells(a, b);
                    assert(precedes(roots[i - 1], roots[j - 1]));
                }
            } else {
                let b = cells[j - first_content];
                lemma_path_in_ends_as_name(content_directory_path, content_filename(b));
                assert(files[j].0 == path_in(content_directory_path, content_filename(b)));
                assert(content_filename(b).last() == 'b');
                if i == 0 {
                    assert(files[i].0 == FILE_NAME_TILESET_JSON@);
                    assert(FILE_NAME_TILESET_JSON@.last() == 'n');
                } else if i < first_content {
                    let a = roots[i - 1];
                    lemma_path_in_ends_as_name(subtrees_directory_path, subtree_filename(a));
                    assert(files[i].0 == path_in(subtrees_directory_path, subtree_filename(a)));
                    assert(subtree_filename(a).last() == 'e');
                } else {
                    let a = cells[i - first_content];
                    assert(files[i].0 == path_in(content_directory_path, content_filename(a)));
                    lemma_path_in_tells_name(
                        content_directory_path,
                        content_filename(a),
                        content_filename(b),
                    );
                    lemma_names_tell_cells(a, b);
                    assert(precedes(cells[i - first_content], cells[j - first_content]));
                }
            }
        }
    }
}

/// What the library derives from an occupancy depends only on which cells
/// are occupied and which hold content, not on the order in which they were
/// added: two occupancies that agree on every cell give the same files.
pub proof fn lemma_archive_is_canonical(
    a: &OctreeOccupancy,
    b: &OctreeOccupancy,
    tileset_json: Seq<u8>,
    subtree_json: Seq<Vec<u8>>,
    cell_contents: Seq<PointContent>,
    content_directory_path: Seq<char>,
    subtrees_directory_path: Seq<char>,
    levels: nat,
)
    requires
        a.wf(),
        b.wf(),
        forall|c: OctantIndex| a.is_occupied(c) <==> b.is_occupied(c),
        forall|c: OctantIndex| a.has_content(c) <==> b.has_content(c),
    ensures
        archive_files(
            tileset_json,
            a,
            subtree_json,
            cell_contents,
            content_directory_path,
            subtrees_directory_path,
            levels,
        ) == archive_files(
            tileset_json,
            b,
            subtree_json,
            cell_contents,
            content_directory_path,
            subtrees_directory_path,
            levels,
        ),
{
    lemma_order_is_canonical(a, b);
    assert(subtree_roots(a, levels) == subtree_roots(b, levels));
    let roots = subtree_roots(a, levels);
    assert forall|i: int| 0 <= i < roots.len() implies subtree_availability(a, roots[i], levels)
        == subtree_availability(b, roots[i], levels) by {
        lemma_availability_is_canonical(a, b, roots[i], levels);
    }
    assert(subtree_files(a, levels, subtree_json) =~= subtree_files(b, levels, subtree_json));
    assert(content_files(a, cell_contents) =~= content_files(b, cell_contents));
}

/// The bitstreams of a subtree depend only on which cells are occupied and
/// which hold content.
pub proof fn lemma_availability_is_canonical(
    a: &OctreeOccupancy,
    b: &OctreeOccupancy,
    base: OctantIndex,
    levels: nat,
)
    requires
        a.occupied_cells() == b.occupied_cells(),
        a.content_cells() == b.content_cells(),
    ensures
        subtree_availability(a, base, levels) == subtree_availability(b, base, levels),
{
    lemma_bits_are_canonical(a, b, AvailabilityKind::Tile, base, levels);
    lemma_bits_are_canonical(a, b, AvailabilityKind::Content, base, levels);
}

/// The bits of a subtree depend only on which cells are occupied and which
/// hold content.
pub proof fn lemma_bits_are_canonical(
    a: &OctreeOccupancy,
    b: &OctreeOccupancy,
    kind: AvailabilityKind,
    base: OctantIndex,
    levels: nat,
)
    requires
        a.occupied_cells() == b.occupied_cells(),
        a.content_cells() == b.content_cells(),
    ensures
        subtree_bits(a, kind, base, levels) == subtree_bits(b, kind, base, levels),
        level_bits(a, kind, base, levels) == level_bits(b, kind, base, levels),
    decreases levels,
{
    assert(level_bits(a, kind, base, levels) =~= level_bits(b, kind, base, levels));
    if levels > 0 {
        lemma_bits_are_canonical(a, b, kind, base, (levels - 1) as nat);
    }
}

/// The root of the subtree that holds `cell` where subtrees have `levels`
/// levels: the cell above it on the nearest level that starts a subtree.
pub open spec fn enclosing_subtree_root(cell: OctantIndex, levels: nat) -> OctantIndex {
    cell.ancestor(cell.level as nat % levels)
}

/// Every occupied cell lies in a subtree that has a file: the root of the
/// subtree that holds it is among the subtree roots, and the tile
/// availability of that subtree has the bit of the cell set, behind the bits
/// of the shallower levels at the Morton position of the cell below the
/// root.
pub proof fn lemma_every_occupied_cell_is_in_a_subtree(
    occupancy: &OctreeOccupancy,
    levels: nat,
    cell: OctantIndex,
)
    requires
        occupancy.wf(),
        levels >= 1,
        occupancy.is_occupied(cell),
    ensures
        ({
            let root = enclosing_subtree_root(cell, levels);
            let depth = cell.level as nat % levels;
            let position = subtree_cell_count(depth) + cell.relative_code(depth);
            &&& subtree_roots(occupancy, levels).contains(root)
            &&& position < subtree_availability(occupancy, root, levels).tile.len()
            &&& subtree_availability(occupancy, root, levels).tile[position as int]
        }),
{
    let depth = cell.level as nat % levels;
    let root = enclosing_subtree_root(cell, levels);
    vstd::arithmetic::div_mod::lemma_fundamental_div_mod(cell.level as int, levels as int);
    vstd::arithmetic::div_mod::lemma_div_pos_is_pos(cell.level as int, levels as int);
    vstd::arithmetic::div_mod::lemma_mod_bound(cell.level as int, levels as int);
    assert(depth <= cell.level) by (nonlinear_arith)
        requires
            cell.level == levels * (cell.level as int / levels as int) + depth,
            cell.level as int / levels as int >= 0,
            levels >= 1,
    ;
    lemma_ancestors_occupied(occupancy, cell, depth);
    let cells = occupancy.occupied_cells();
    let at = choose|at: int| 0 <= at < cells.len() && cells[at] == root;
    let is_root = |c: OctantIndex| c.level as nat % levels == 0;
    assert(is_root(root)) by {
        vstd::arithmetic::div_mod::lemma_fundamental_div_mod(cell.level as int, levels as int);
        vstd::arithmetic::div_mod::lemma_mod_multiples_basic(
            cell.level as int / levels as int,
            levels as int,
        );
        assert(levels * (cell.level as int / levels as int) == (cell.level as int / levels as int)
            * levels) by (nonlinear_arith);
    }
    cells.lemma_filter_contains(is_root, at);
    lemma_bit_of_cell(occupancy, AvailabilityKind::Tile, root, levels, cell);
    lemma_subtree_bits(occupancy, AvailabilityKind::Tile, root, levels);
}

/// The child-subtree availability of a subtree tells which subtree files
/// exist below it: the bit of a cell just below the subtree is set if and
/// only if the cell is the root of a subtree.
pub proof fn lemma_child_subtrees_have_files(
    occupancy: &OctreeOccupancy,
    levels: nat,
    root: OctantIndex,
    code: nat,
)
    requires
        levels >= 1,
        root.level as nat % levels == 0,
        root.level + levels <= u32::MAX,
        code < eight_pow(levels),
    ensures
        subtree_availability(occupancy, root, levels).child_subtree[code as int]
            <==> subtree_roots(occupancy, levels).contains(root.nth_descendant(levels, code)),
{
    let below = root.nth_descendant(levels, code);
    let cells = occupancy.occupied_cells();
    let is_root = |c: OctantIndex| c.level as nat % levels == 0;
    assert(below.level == root.level + levels);
    assert(is_root(below)) by {
        vstd::arithmetic::div_mod::lemma_mod_adds(root.level as int, levels as int, levels as int);
        vstd::arithmetic::div_mod::lemma_mod_self_0(levels as int);
    }
    if occupancy.is_occupied(below) {
        let at = choose|at: int| 0 <= at < cells.len() && cells[at] == below;
        cells.lemma_filter_contains(is_root, at);
    }
    if subtree_roots(occupancy, levels).contains(below) {
        cells.lemma_filter_contains_rev(is_root, below);
    }
}

/// The templates of the root tile lead to the files of the archive: the
/// archive holds the tileset document, then a file for every subtree root
/// and then one for every cell with content, each under the path that the
/// template of its directory gives when the digits of the level and the
/// coordinates of the cell stand in the place of the placeholders.
pub proof fn lemma_templates_lead_to_files(
    tileset_json: Seq<u8>,
    content_octree: &OctreeOccupancy,
    subtree_json: Seq<Vec<u8>>,
    cell_contents: Seq<PointContent>,
    content_directory_path: Seq<char>,
    subtrees_directory_path: Seq<char>,
    levels: nat,
)
    ensures
        ({
            let files = archive_files(
                tileset_json,
                content_octree,
                subtree_json,
                cell_contents,
                content_directory_path,
                subtrees_directory_path,
                levels,
            );
            let roots = subtree_roots(content_octree, levels);
            let cells = content_octree.content_cells();
            &&& files.len() == 1 + roots.len() + cells.len()
            &&& files[0] == (FILE_NAME_TILESET_JSON@, tileset_json)
            &&& path_in(subtrees_directory_path, SUBTREE_URI_TEMPLATE@) == path_in(
                subtrees_directory_path,
                subtree_name_pattern("{level}"@, "{x}"@, "{y}"@, "{z}"@),
            )
            &&& path_in(content_directory_path, CONTENT_URI_TEMPLATE@) == path_in(
                content_directory_path,
                content_name_pattern("{level}"@, "{x}"@, "{y}"@, "{z}"@),
            )
            &&& forall|i: int|
                0 <= i < roots.len() ==> files[1 + i].0 == path_in(
                    subtrees_directory_path,
                    subtree_name_pattern(
                        decimal_digits((#[trigger] roots[i]).level as nat),
                        decimal_digits(roots[i].x as nat),
                        decimal_digits(roots[i].y as nat),
                        decimal_digits(roots[i].z as nat),
                    ),
                )
            &&& forall|i: int|
                0 <= i < cells.len() ==> files[1 + roots.len() + i].0 == path_in(
                    content_directory_path,
                    content_name_pattern(
                        decimal_digits((#[trigger] cells[i]).level as nat),
                        decimal_digits(cells[i].x as nat),
                        decimal_digits(cells[i].y as nat),
                        decimal_digits(cells[i].z as nat),
                    ),
                )
        }),
{
    crate::documents::lemma_templates_match_names();
}

/// The archive of an octree without occupied cells holds the tileset
/// document alone, whatever the number of levels of a subtree: packing
/// succeeds where the archive takes that one file, and the archive is then
/// the entry of that file.
pub proof fn lemma_empty_octree_archive(
    tileset_json: Seq<u8>,
    content_octree: &OctreeOccupancy,
    subtree_json: Seq<Vec<u8>>,
    cell_contents: Seq<PointContent>,
    content_directory_path: Seq<char>,
    subtrees_directory_path: Seq<char>,
    levels: nat,
)
    requires
        content_octree.wf(),
        content_octree.occupied_cells().len() == 0,
    ensures
        ({
            let files = archive_files(
                tileset_json,
                content_octree,
                subtree_json,
                cell_contents,
                content_directory_path,
                subtrees_directory_path,
                levels,
            );
            &&& content_octree.content_cells().len() == 0
            &&& subtree_roots(content_octree, levels).len() == 0
            &&& packable(content_octree, subtree_json, cell_contents, levels) <==> subtree_json.len()
                == 0 && cell_contents.len() == 0
            &&& files == seq![(FILE_NAME_TILESET_JSON@, tileset_json)]
            &&& accepted(files) <==> file_entry((FILE_NAME_TILESET_JSON@, tileset_json)) is Some
            &&& packed(files) == file_entry((FILE_NAME_TILESET_JSON@, tileset_json))->0
        }),
{
    let files = archive_files(
        tileset_json,
        content_octree,
        subtree_json,
        cell_contents,
        content_directory_path,
        subtrees_directory_path,
        levels,
    );
    let first: Seq<Entry> = seq![(FILE_NAME_TILESET_JSON@, tileset_json)];
    if content_octree.content_cells().len() > 0 {
        let cell = content_octree.content_cells()[0];
        assert(content_octree.has_content(cell));
        assert(content_octree.is_occupied(cell));
    }
    reveal(Seq::filter);
    assert(subtree_roots(content_octree, levels) =~= Seq::<OctantIndex>::empty());
    assert(files =~= first);
    assert(first[0] == (FILE_NAME_TILESET_JSON@, tileset_json));
    lemma_packed_push(Seq::empty(), (FILE_NAME_TILESET_JSON@, tileset_json));
    assert(Seq::<Entry>::empty().push((FILE_NAME_TILESET_JSON@, tileset_json)) =~= first);
}

} // verus!
