//! The failures the library reports.

use vstd::prelude::*;

verus! {

/// The I/O error of std, as the outside encoders hand it back; it is
/// carried through unread.
#[verifier::external_type_specification]
#[verifier::external_body]
pub struct ExIoError(std::io::Error);

/// Why building or packing a tileset failed.
#[derive(Debug, Clone, PartialEq, Eq)]
pub enum Error {
    /// The output path ends in an extension other than `tar`.
    InvalidFileExtension(String),
    /// The output path has no extension.
    NoFileExtension,
    /// Reprojecting a point or a transform failed.
    ProjectionFailed,
    /// The octree could not be built from the given points.
    PartitionFailed,
    /// An encoder or the archive refused what it was given.
    EncodingFailed,
    /// The asset version is not one this library writes.
    InvalidVersion { major: u8, minor: u8 },
    /// A bitstream length or another internal invariant was violated.
    AssertFailure,
}

/// Turns the outcome of an outside encoder into the library's outcome:
/// success is kept with its value, every failure becomes `EncodingFailed`.
pub fn encoding_outcome<T, E>(outcome: Result<T, E>) -> (r: Result<T, Error>)
    ensures
        match outcome {
            Ok(value) => r == Ok::<T, Error>(value),
            Err(_) => r == Err::<T, Error>(Error::EncodingFailed),
        },
{
    match outcome {
        Ok(value) => Ok(value),
        Err(_) => Err(Error::EncodingFailed),
    }
}

} // verus!
