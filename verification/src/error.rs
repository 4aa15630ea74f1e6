//! The errors that reading a volume can end in.

use vstd::prelude::*;

verus! {

/// Why an operation on a volume failed. Each failure is final for the call
/// that met it, and each call reports exactly one.
#[derive(Debug, Clone, Copy, PartialEq, Eq, Structural)]
pub enum FatError {
    /// The buffer is shorter than a boot sector.
    BufferTooSmall,
    /// The boot sector declares no sectors per allocation table.
    NotFat32,
    /// A read would go beyond the end of the buffer.
    OutOfBounds,
    /// A cluster number below 2 was used to refer to data.
    InvalidCluster,
    /// A directory was given where a file is read.
    NotAFile,
    /// A file was given where a directory is listed.
    NotADirectory,
    /// A path to list names nothing.
    PathNotFound,
    /// The call itself is malformed, as with a path that is not absolute.
    Other,
}

} // verus!
