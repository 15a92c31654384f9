//! The `pipe2` syscall: creates a pipe whose two ends carry the given
//! status flags.

use vstd::prelude::*;
use crate::errno::Errno;

verus! {

/// Open flag: the file is read-only.
pub const O_RDONLY: u32 = 0o0;
/// Open flag: the file is write-only.
pub const O_WRONLY: u32 = 0o1;
/// Open flag: reads and writes do not block.
pub const O_NONBLOCK: u32 = 0o4000;
/// Open flag: bypass caching.
pub const O_DIRECT: u32 = 0o40000;
/// Open flag: close the descriptor on `execve`.
pub const O_CLOEXEC: u32 = 0o2000000;

/// Computes the open-file flags of the two ends of a new pipe: the read
/// end and the write end, each carrying the caller's flags. Fails with
/// `InvalidArgument` if and only if `flags` holds anything besides
/// `O_CLOEXEC`, `O_DIRECT` and `O_NONBLOCK`.
pub fn pipe2(flags: u32) -> (r: Result<(u32, u32), Errno>)
    ensures
        (flags & !(O_CLOEXEC | O_DIRECT | O_NONBLOCK) != 0) <==> (r
            == Result::<(u32, u32), Errno>::Err(Errno::InvalidArgument)),
        r matches Ok(ends) ==> ends.0 == (O_RDONLY | flags) && ends.1 == (O_WRONLY | flags),
{
    let accepted_flags = O_CLOEXEC | O_DIRECT | O_NONBLOCK;
    if flags & !accepted_flags != 0 {
        return Err(Errno::InvalidArgument);
    }
    Ok((O_RDONLY | flags, O_WRONLY | flags))
}

} // verus!
