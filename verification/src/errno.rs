//! POSIX-style error codes surfaced by the kernel core.

use vstd::prelude::*;

verus! {

/// An error kind returned by the kernel core.
#[derive(Clone, Copy, Debug, PartialEq, Eq, Structural)]
pub enum Errno {
    /// A memory allocation failed.
    NoMemory,
    /// The filesystem has no free block left.
    NoSpace,
    /// An argument is out of the accepted domain.
    InvalidArgument,
    /// A file name is longer than the filesystem accepts.
    NameTooLong,
    /// The file does not exist.
    NotFound,
    /// A directory was expected.
    NotDirectory,
    /// Too many symbolic links were followed.
    Loop,
    /// The caller lacks the required permission.
    PermissionDenied,
    /// The filesystem is mounted read-only.
    ReadOnlyFilesystem,
    /// The device failed to read or write.
    IOError,
    /// The file descriptor is not open.
    BadFile,
    /// The device handle is not attached to a terminal.
    NotATTY,
}

} // verus!
