//! The uncompressed tar archive that holds a tileset.

use vstd::prelude::*;

verus! {

/// The permissions of every file in the archive.
pub const ENTRY_MODE: u32 = 0o664;

/// What the library sets in the header of an archive entry.
#[derive(Debug, Clone, Copy, PartialEq, Eq, Structural)]
pub struct ArchiveHeader {
    /// Length of the file in bytes.
    pub size: u64,
    /// Permission bits.
    pub mode: u32,
    /// Modification time in seconds since the epoch.
    pub mtime: u64,
}

/// An archive under construction: a tar builder that writes into a byte
/// vector.
#[verifier::external_body]
pub struct Archive {
    builder: tar::Builder<Vec<u8>>,
}

/// The bytes that an archive under construction has written so far.
pub uninterp spec fn archive_bytes(archive: Archive) -> Seq<u8>;

/// What a tar builder does with a file that comes with a GNU header of the
/// given size, mode and time of modification under `path`: the bytes it
/// writes, or `None` where it refuses the path. Paths are read as the
/// target reads them.
pub uninterp spec fn tar_entry(
    size: u64,
    mode: u32,
    mtime: u64,
    path: Seq<char>,
    data: Seq<u8>,
) -> Option<Seq<u8>>;

/// The two empty blocks that end an archive.
pub open spec fn archive_end() -> Seq<u8> {
    Seq::new(1024, |i: int| 0u8)
}

/// `tar::Builder::new`: a builder that writes behind what `writer` holds.
#[verifier::external_body]
pub(crate) fn archive_new(writer: Vec<u8>) -> (archive: Archive)
    ensures
        archive_bytes(archive) == writer@,
{
    Archive { builder: tar::Builder::new(writer) }
}

/// `tar::Builder::append_data` with a fresh GNU header that carries the
/// size, mode and time of `header`: the builder sets the path, computes the
/// checksum and writes header and data in whole blocks. It fails only where
/// it refuses the path, before it writes anything; the byte vector it
/// writes to takes every byte. Whether it fails and what it writes depend
/// on the arguments alone.
#[verifier::external_body]
pub(crate) fn archive_append(
    archive: &mut Archive,
    header: &ArchiveHeader,
    path: &str,
    data: &Vec<u8>,
) -> (r: Result<(), std::io::Error>)
    ensures
        r is Ok <==> tar_entry(header.size, header.mode, header.mtime, path@, data@) is Some,
        r is Ok ==> archive_bytes(*final(archive)) == archive_bytes(*old(archive)) + tar_entry(
            header.size,
            header.mode,
            header.mtime,
            path@,
            data@,
        )->0,
{
    let mut outside = tar::Header::new_gnu();
    outside.set_size(header.size);
    outside.set_mode(header.mode);
    outside.set_mtime(header.mtime);
    outside.set_cksum();
    archive.builder.append_data(&mut outside, path, data.as_slice())
}

/// `tar::Builder::into_inner`: the builder ends the archive with two empty
/// blocks and hands the bytes back. It fails only where its writer fails,
/// and the byte vector it writes to takes every byte.
#[verifier::external_body]
pub(crate) fn archive_into_inner(archive: Archive) -> (r: Result<
    Vec<u8>,
    std::io::Error,
>)
    ensures
        r is Ok,
        r matches Ok(bytes) ==> bytes@ == archive_bytes(archive) + archive_end(),
{
    archive.builder.into_inner()
}

/// The header of an entry of `size` bytes: mode 0664, and the given time
/// of modification or else zero.
pub fn create_archive_header(size: usize, time: Option<u64>) -> (header: ArchiveHeader)
    ensures
        header.size == size,
        header.mode == ENTRY_MODE,
        header.mtime == match time {
            Some(seconds) => seconds,
            None => 0,
        },
{
    let mtime: u64 = match time {
        Some(seconds) => seconds,
        None => 0,
    };
    ArchiveHeader { size: size as u64, mode: ENTRY_MODE, mtime }
}

} // verus!
