//! The writer of a tileset archive and what it checks before it writes.

use crate::content::{EncodableContent, PointContent};
use crate::error::Error;
use crate::occupancy::OctreeOccupancy;
use crate::archive::archive_end;
use crate::write::{
    accepted, archive_files, check_subtree_levels, get_subtree_roots, packable, packed,
    CONTENT_DIRECTORY_PATH, FILE_EXTENSION_ETILES_UNCOMPRESSED, LEVELS_PER_SUBTREE,
    SUBTREES_DIRECTORY_PATH,
};
use vstd::prelude::*;
use vstd::string::*;

verus! {

/// A tileset as the writer takes it: which cells of the octree are
/// occupied, and the content of each cell with content, in the order of the
/// cells.
#[derive(Debug, Clone)]
pub struct Tileset {
    pub tiled_content: OctreeOccupancy,
    pub cell_contents: Vec<PointContent>,
}

/// The serialized documents of a tileset: the tileset document and the
/// document of each subtree, in the order of the subtree roots.
#[derive(Debug, Clone, PartialEq, Eq)]
pub struct SerializedDocuments {
    pub tileset_json: Vec<u8>,
    pub subtree_json: Vec<Vec<u8>>,
}

/// Packs a tileset into an archive behind what its writer holds.
#[derive(Debug, Clone)]
pub struct EtilesWriter<W> {
    writer: W,
    content_directory_path: String,
    subtrees_directory_path: String,
    levels_per_subtree: usize,
}

impl<W> EtilesWriter<W> {
    /// What the archive is written to.
    pub closed spec fn writer(&self) -> W {
        self.writer
    }

    /// The directory of the content files.
    pub closed spec fn content_directory_path(&self) -> Seq<char> {
        self.content_directory_path@
    }

    /// The directory of the subtree files.
    pub closed spec fn subtrees_directory_path(&self) -> Seq<char> {
        self.subtrees_directory_path@
    }

    /// The number of levels of a subtree.
    pub closed spec fn levels_per_subtree(&self) -> nat {
        self.levels_per_subtree as nat
    }

    /// A writer with the directories and the subtree depth that every
    /// tileset of this library has.
    pub fn new(writer: W) -> (etiles_writer: Self)
        ensures
            etiles_writer.writer() == writer,
            etiles_writer.content_directory_path() == CONTENT_DIRECTORY_PATH@,
            etiles_writer.subtrees_directory_path() == SUBTREES_DIRECTORY_PATH@,
            etiles_writer.levels_per_subtree() == LEVELS_PER_SUBTREE,
    {
        Self {
            writer,
            content_directory_path: String::from_str(CONTENT_DIRECTORY_PATH),
            subtrees_directory_path: String::from_str(SUBTREES_DIRECTORY_PATH),
            levels_per_subtree: LEVELS_PER_SUBTREE,
        }
    }

    /// The number of levels of a subtree.
    pub fn get_levels_per_subtree(&self) -> (levels: usize)
        ensures
            levels == self.levels_per_subtree(),
    {
        self.levels_per_subtree
    }

    /// Whether `tileset` and `documents` can be packed: the subtrees fit
    /// the octree, there is a document for each subtree, and there is
    /// content that can be encoded for each cell with content.
    pub fn can_pack(&self, tileset: &Tileset, documents: &SerializedDocuments) -> (ready: bool)
        requires
            tileset.tiled_content.wf(),
        ensures
            ready == packable(
                &tileset.tiled_content,
                documents.subtree_json@,
                tileset.cell_contents@,
                self.levels_per_subtree(),
            ),
    {
        if !check_subtree_levels(self.levels_per_subtree, &tileset.tiled_content) {
            return false;
        }
        let roots = get_subtree_roots(self.levels_per_subtree, &tileset.tiled_content);
        if documents.subtree_json.len() != roots.len() {
            return false;
        }
        if tileset.cell_contents.len() != tileset.tiled_content.cell_count() {
            return false;
        }
        let mut i: usize = 0;
        while i < tileset.cell_contents.len()
            invariant
                i <= tileset.cell_contents@.len(),
                forall|k: int| 0 <= k < i ==> (#[trigger] tileset.cell_contents@[k]).encodable(),
            decreases tileset.cell_contents@.len() - i,
        {
            if !tileset.cell_contents[i].is_encodable() {
                return false;
            }
            i += 1;
        }
        true
    }
}

impl EtilesWriter<Vec<u8>> {
    /// A writer for the archive at `path`, which starts from no bytes. The
    /// extension of the path must be `tar`: without an extension the outcome
    /// is `NoFileExtension`, with another one `InvalidFileExtension` with
    /// that extension.
    pub fn from_path(path: &str) -> (r: Result<Self, Error>)
        ensures
            match path_extension(path@) {
                None => r matches Err(Error::NoFileExtension),
                Some(text) => if text == FILE_EXTENSION_ETILES_UNCOMPRESSED@ {
                    r matches Ok(etiles_writer) && {
                        &&& etiles_writer.writer()@ == Seq::<u8>::empty()
                        &&& etiles_writer.content_directory_path() == CONTENT_DIRECTORY_PATH@
                        &&& etiles_writer.subtrees_directory_path() == SUBTREES_DIRECTORY_PATH@
                        &&& etiles_writer.levels_per_subtree() == LEVELS_PER_SUBTREE
                    }
                } else {
                    r matches Err(Error::InvalidFileExtension(refused)) && refused@ == text
                },
            },
    {
        match check_output_path(path) {
            Ok(()) => Ok(Self::new(Vec::new())),
            Err(error) => Err(error),
        }
    }

    /// Packs `tileset` with its serialized `documents` into an archive
    /// behind what the writer holds, and hands the bytes back.
    pub fn finish(self, tileset: &Tileset, documents: &SerializedDocuments) -> (r: Result<
        Vec<u8>,
        Error,
    >)
        requires
            tileset.tiled_content.wf(),
            packable(
                &tileset.tiled_content,
                documents.subtree_json@,
                tileset.cell_contents@,
                self.levels_per_subtree(),
            ),
        ensures
            r is Ok <==> accepted(
                archive_files(
                    documents.tileset_json@,
                    &tileset.tiled_content,
                    documents.subtree_json@,
                    tileset.cell_contents@,
                    self.content_directory_path(),
                    self.subtrees_directory_path(),
                    self.levels_per_subtree(),
                ),
            ),
            r matches Ok(archive) ==> archive@ == self.writer()@ + packed(
                archive_files(
                    documents.tileset_json@,
                    &tileset.tiled_content,
                    documents.subtree_json@,
                    tileset.cell_contents@,
                    self.content_directory_path(),
                    self.subtrees_directory_path(),
                    self.levels_per_subtree(),
                ),
            ) + archive_end(),
            r is Err ==> r == Err::<Vec<u8>, Error>(Error::EncodingFailed),
    {
        crate::write::write(
            self.writer,
            &documents.tileset_json,
            &tileset.tiled_content,
            &documents.subtree_json,
            &tileset.cell_contents,
            self.content_directory_path.as_str(),
            self.subtrees_directory_path.as_str(),
            self.levels_per_subtree,
        )
    }
}

/// The extension of a path as std takes it from the last component of the
/// path, or `None` where the path has none. Paths are read as the target
/// reads them.
pub uninterp spec fn path_extension(path: Seq<char>) -> Option<Seq<char>>;

/// `Path::extension` of std: the extension of the path, if it has one.
#[verifier::external_body]
fn extension_of(path: &str) -> (extension: Option<String>)
    ensures
        extension is Some <==> path_extension(path@) is Some,
        extension matches Some(text) ==> path_extension(path@) == Some(text@),
{
    std::path::Path::new(path).extension().map(|extension| extension.to_string_lossy().into_owned())
}

/// Whether an archive may have the extension `extension`: it must be
/// `tar`. Without an extension the outcome is `NoFileExtension`, with
/// another one `InvalidFileExtension` with that extension.
pub fn check_extension(extension: Option<String>) -> (r: Result<(), Error>)
    ensures
        match extension {
            None => r == Err::<(), Error>(Error::NoFileExtension),
            Some(text) => if text@ == FILE_EXTENSION_ETILES_UNCOMPRESSED@ {
                r is Ok
            } else {
                r matches Err(Error::InvalidFileExtension(refused)) && refused@ == text@
            },
        },
{
    match extension {
        None => Err(Error::NoFileExtension),
        Some(text) => {
            let expected = String::from_str(FILE_EXTENSION_ETILES_UNCOMPRESSED);
            if text == expected {
                Ok(())
            } else {
                Err(Error::InvalidFileExtension(text))
            }
        },
    }
}

/// Whether an archive may be written to `path`: its extension must be
/// `tar`.
pub fn check_output_path(path: &str) -> (r: Result<(), Error>)
    ensures
        match path_extension(path@) {
            None => r == Err::<(), Error>(Error::NoFileExtension),
            Some(text) => if text == FILE_EXTENSION_ETILES_UNCOMPRESSED@ {
                r is Ok
            } else {
                r matches Err(Error::InvalidFileExtension(refused)) && refused@ == text
            },
        },
{
    check_extension(extension_of(path))
}

} // verus!
