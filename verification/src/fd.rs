//! File descriptors: identifiers a process holds into the open file
//! description table, and the system-wide descriptor accounting.

use vstd::prelude::*;
use crate::errno::Errno;

verus! {

/// The maximum number of file descriptors open system-wide at once.
pub const TOTAL_MAX_FD: u64 = 4294967295;

/// Descriptor flag: close the descriptor on a successful `execve`.
pub const FD_CLOEXEC: i32 = 1;

/// The system-wide count of open file descriptors.
pub struct FdCounter {
    /// How many descriptors are open across all processes.
    pub count: u64,
}

/// Counts one more open descriptor. Fails, leaving the count unchanged,
/// if and only if the system-wide maximum is reached.
pub fn increment_total(c: &mut FdCounter) -> (r: Result<(), Errno>)
    ensures
        (old(c).count >= TOTAL_MAX_FD) <==> (r is Err),
        r is Err ==> *final(c) == *old(c) && r == Result::<(), Errno>::Err(Errno::NoMemory),
        r is Ok ==> final(c).count == old(c).count + 1,
{
    if c.count >= TOTAL_MAX_FD {
        return Err(Errno::NoMemory);
    }
    c.count = c.count + 1;
    Ok(())
}

/// Counts one open descriptor fewer.
pub fn decrement_total(c: &mut FdCounter)
    requires
        old(c).count > 0,
    ensures
        final(c).count == old(c).count - 1,
{
    c.count = c.count - 1;
}

/// The constraint a new file descriptor's identifier must respect.
#[derive(Clone, Copy, Debug, PartialEq, Eq, Structural)]
pub enum NewFDConstraint {
    /// No constraint.
    Unconstrained,
    /// The new descriptor must have exactly this identifier.
    Fixed(u32),
    /// The new descriptor must have at least this identifier.
    Min(u32),
}

/// A file descriptor: an identifier held by a process pointing to an entry
/// of the open file description table.
#[derive(Clone, Copy, Debug, PartialEq, Eq, Structural)]
pub struct FileDescriptor {
    /// The descriptor's identifier.
    pub id: u32,
    /// The descriptor's flags.
    pub flags: i32,
    /// The open file description the descriptor points to, by table index.
    pub open_file: u32,
}

impl FileDescriptor {
    /// Creates a new file descriptor.
    pub fn new(id: u32, flags: i32, open_file: u32) -> (r: FileDescriptor)
        ensures
            r.id == id,
            r.flags == flags,
            r.open_file == open_file,
    {
        FileDescriptor { id, flags, open_file }
    }

    /// Returns the descriptor's identifier.
    pub fn get_id(&self) -> (r: u32)
        ensures
            r == self.id,
    {
        self.id
    }

    /// Returns the descriptor's flags.
    pub fn get_flags(&self) -> (r: i32)
        ensures
            r == self.flags,
    {
        self.flags
    }

    /// Returns the open file description the descriptor points to.
    pub fn get_open_file(&self) -> (r: u32)
        ensures
            r == self.open_file,
    {
        self.open_file
    }
}

} // verus!
