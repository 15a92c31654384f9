//! The `writev` syscall: writes the data named by a vector of buffers to
//! an open file in one call.

use vstd::prelude::*;
use crate::errno::Errno;

verus! {

/// The maximum number of buffers one `writev` call accepts.
pub const IOV_MAX: usize = 1024;

/// One buffer of a vectored write: where it starts in the caller's memory
/// and how many bytes it holds.
#[derive(Clone, Copy, Debug, PartialEq, Eq, Structural)]
pub struct IOVec {
    /// The address of the buffer in the caller's memory.
    pub iov_base: u32,
    /// The length of the buffer in bytes.
    pub iov_len: usize,
}

/// The total the write loop reaches from `acc`: empty buffers are skipped,
/// and each other buffer contributes its length, capped so that the total
/// never exceeds `i32::MAX`.
pub open spec fn write_total_from(acc: int, iovs: Seq<IOVec>) -> int
    decreases iovs.len(),
{
    if iovs.len() == 0 {
        acc
    } else {
        let l = if iovs[0].iov_len == 0 {
            0
        } else if iovs[0].iov_len <= i32::MAX - acc {
            iovs[0].iov_len as int
        } else {
            i32::MAX - acc
        };
        write_total_from(acc + l, iovs.drop_first())
    }
}

/// Writes the buffers of `iovs` in order and returns the total written:
/// empty entries are skipped, and each buffer is written whole unless that
/// would push the total past `i32::MAX`, in which case it is cut to fit.
pub fn write(iovs: &Vec<IOVec>) -> (r: i32)
    ensures
        r == write_total_from(0, iovs@),
        0 <= r,
{
    let mut total: i32 = 0;
    let mut i: usize = 0;
    proof {
        assert(iovs@.skip(0) =~= iovs@);
    }
    while i < iovs.len()
        invariant
            i <= iovs.len(),
            0 <= total,
            write_total_from(0, iovs@) == write_total_from(total as int, iovs@.skip(i as int)),
        decreases iovs.len() - i,
    {
        proof {
            assert(iovs@.skip(i as int)[0] == iovs@[i as int]);
            assert(iovs@.skip(i as int).drop_first() =~= iovs@.skip(i as int + 1));
        }
        let len = iovs[i].iov_len;
        if len != 0 {
            // Cap the write so the returned total cannot overflow.
            let room = (i32::MAX - total) as usize;
            let l = if len <= room {
                len
            } else {
                room
            };
            total = total + l as i32;
        }
        i += 1;
    }
    total
}

/// Performs the `writev` operation over the first `iovcnt` buffers of
/// `iovs`. Fails with `InvalidArgument` if and only if `iovcnt` is
/// negative, exceeds the per-call maximum, does not match the buffers
/// handed in, or the offset is below -1.
pub fn do_writev(iovs: &Vec<IOVec>, iovcnt: i32, offset: Option<i64>)
    -> (r: Result<i32, Errno>)
    ensures
        (iovcnt < 0 || iovcnt > IOV_MAX || iovs.len() != iovcnt
            || (offset matches Some(o) && o < -1)) <==> (r == Result::<i32, Errno>::Err(
            Errno::InvalidArgument,
        )),
        r matches Ok(t) ==> t == write_total_from(0, iovs@) && t >= 0,
{
    if iovcnt < 0 || iovcnt as usize > IOV_MAX {
        return Err(Errno::InvalidArgument);
    }
    if iovs.len() != iovcnt as usize {
        return Err(Errno::InvalidArgument);
    }
    match offset {
        Some(o) => {
            if o < -1 {
                return Err(Errno::InvalidArgument);
            }
        },
        None => {},
    }
    Ok(write(iovs))
}

/// The `writev` syscall entry: a vectored write at the file's current
/// offset.
pub fn writev(iovs: &Vec<IOVec>, iovcnt: i32) -> (r: Result<i32, Errno>)
    ensures
        (iovcnt < 0 || iovcnt > IOV_MAX || iovs.len() != iovcnt)
            <==> (r == Result::<i32, Errno>::Err(Errno::InvalidArgument)),
        r matches Ok(t) ==> t == write_total_from(0, iovs@) && t >= 0,
{
    do_writev(iovs, iovcnt, None)
}

} // verus!
