//! The `select` syscall: waits for descriptors of the given sets to become
//! readable or writable. The scan over one round of the sets is modeled
//! here; the surrounding sleep-and-retry loop belongs to the caller.

use vstd::prelude::*;
use crate::errno::Errno;

verus! {

/// The number of file descriptors an `FDSet` covers.
pub const FD_SETSIZE: u32 = 1024;

/// The number of bits of one word of the set.
pub const FD_BITS_PER_WORD: u32 = 32;

/// A set of file descriptors, as the `fd_set` bitfield.
pub struct FDSet {
    /// The bitfield: bit `fd % 32` of word `fd / 32` stands for `fd`.
    pub fds_bits: Vec<u32>,
}

impl FDSet {
    /// The bitfield covers exactly `FD_SETSIZE` descriptors.
    pub open spec fn wf(self) -> bool {
        self.fds_bits.len() == FD_SETSIZE / FD_BITS_PER_WORD
    }

    /// What `is_set` answers: whether the bit for `fd` is set. A
    /// descriptor beyond the set is never in it.
    pub open spec fn is_set_spec(self, fd: u32) -> bool {
        fd < FD_SETSIZE && (self.fds_bits[fd as int / 32] >> (fd % 32)) & 1 == 1
    }

    /// Creates an empty set.
    pub fn new() -> (r: FDSet)
        ensures
            r.wf(),
            forall|i: int| 0 <= i < r.fds_bits.len() ==> r.fds_bits[i] == 0u32,
    {
        let mut bits: Vec<u32> = Vec::new();
        let mut i: u32 = 0;
        while i < FD_SETSIZE / FD_BITS_PER_WORD
            invariant
                i <= FD_SETSIZE / FD_BITS_PER_WORD,
                bits.len() == i,
                forall|j: int| 0 <= j < i ==> bits[j] == 0u32,
            decreases FD_SETSIZE / FD_BITS_PER_WORD - i,
        {
            bits.push(0u32);
            i += 1;
        }
        FDSet { fds_bits: bits }
    }

    /// Tells whether `fd` is in the set.
    pub fn is_set(&self, fd: u32) -> (r: bool)
        requires
            self.wf(),
        ensures
            r == self.is_set_spec(fd),
    {
        if fd >= FD_SETSIZE {
            return false;
        }
        (self.fds_bits[(fd / 32) as usize] >> (fd % 32)) & 1 == 1
    }

    /// Puts `fd` in the set.
    pub fn set(&mut self, fd: u32)
        requires
            old(self).wf(),
            fd < FD_SETSIZE,
        ensures
            final(self).wf(),
            final(self).fds_bits@ == old(self).fds_bits@.update(
                fd as int / 32,
                old(self).fds_bits[fd as int / 32] | (1u32 << (fd % 32)),
            ),
    {
        let w = (fd / 32) as usize;
        let b = self.fds_bits[w] | (1u32 << (fd % 32));
        self.fds_bits.set(w, b);
    }

    /// Takes `fd` out of the set.
    pub fn clear(&mut self, fd: u32)
        requires
            old(self).wf(),
            fd < FD_SETSIZE,
        ensures
            final(self).wf(),
            final(self).fds_bits@ == old(self).fds_bits@.update(
                fd as int / 32,
                old(self).fds_bits[fd as int / 32] & !(1u32 << (fd % 32)),
            ),
    {
        let w = (fd / 32) as usize;
        let b = self.fds_bits[w] & !(1u32 << (fd % 32));
        self.fds_bits.set(w, b);
    }
}

/// Tells whether `fds` holds `fd`.
fn fd_open(fds: &Vec<u32>, fd: u32) -> (r: bool)
    ensures
        r == fds@.contains(fd),
{
    let mut i: usize = 0;
    while i < fds.len()
        invariant
            i <= fds.len(),
            forall|j: int| 0 <= j < i ==> fds[j] != fd,
        decreases fds.len() - i,
    {
        if fds[i] == fd {
            return true;
        }
        i += 1;
    }
    proof {
        assert(!fds@.contains(fd));
    }
    false
}

/// The number of events one scan reports for the descriptors below
/// `max`: each open descriptor asked about counts once for reading and
/// once for writing.
pub open spec fn events_upto(r: FDSet, w: FDSet, open_fds: Seq<u32>, max: int) -> int
    decreases max,
{
    if max <= 0 {
        0
    } else {
        let fd = (max - 1) as u32;
        events_upto(r, w, open_fds, max - 1) + if open_fds.contains(fd) {
            (if r.is_set_spec(fd) {
                1int
            } else {
                0int
            }) + (if w.is_set_spec(fd) {
                1int
            } else {
                0int
            })
        } else {
            0int
        }
    }
}

/// One scan of the three sets over the descriptors below `nfds`: every
/// open descriptor asked about is reported readable and writable and
/// counts as one event each; exception reports are cleared. Fails with
/// `BadFile` if and only if some set asks about a descriptor that is not
/// open. The surrounding timeout loop re-runs the scan until an event or
/// the deadline.
#[verifier::rlimit(60)]
pub fn do_select(
    nfds: u32,
    readfds: &mut FDSet,
    writefds: &mut FDSet,
    exceptfds: &mut FDSet,
    open_fds: &Vec<u32>,
) -> (r: Result<i32, Errno>)
    requires
        old(readfds).wf(),
        old(writefds).wf(),
        old(exceptfds).wf(),
    ensures
        final(readfds).wf(),
        final(writefds).wf(),
        final(exceptfds).wf(),
        r is Err ==> r == Result::<i32, Errno>::Err(Errno::BadFile),
        (r is Err) <==> (exists|fd: u32|
            fd < nfds && fd < FD_SETSIZE && !open_fds@.contains(fd)
            && ((#[trigger] old(readfds).is_set_spec(fd)) || old(writefds).is_set_spec(fd)
                || old(exceptfds).is_set_spec(fd))),
        r matches Ok(c) ==> 0 <= c && c == events_upto(
            *old(readfds),
            *old(writefds),
            open_fds@,
            vstd::math::min(nfds as int, FD_SETSIZE as int),
        ),
{
    let max = if nfds < FD_SETSIZE {
        nfds
    } else {
        FD_SETSIZE
    };
    let mut events_count: i32 = 0;
    let mut fd: u32 = 0;
    while fd < max
        invariant
            fd <= max,
            max == (if nfds < FD_SETSIZE { nfds } else { FD_SETSIZE }),
            readfds.wf(),
            writefds.wf(),
            exceptfds.wf(),
            *readfds == *old(readfds),
            *writefds == *old(writefds),
            0 <= events_count <= 2 * fd,
            events_count == events_upto(*old(readfds), *old(writefds), open_fds@, fd as int),
            forall|f: u32| f < fd && !open_fds@.contains(f)
                ==> !(#[trigger] old(readfds).is_set_spec(f)),
            forall|f: u32| f < fd && !open_fds@.contains(f)
                ==> !(#[trigger] old(writefds).is_set_spec(f)),
            forall|f: u32| f < fd && !open_fds@.contains(f)
                ==> !(#[trigger] old(exceptfds).is_set_spec(f)),
            forall|f: u32| fd <= f < FD_SETSIZE
                ==> exceptfds.is_set_spec(f) == old(exceptfds).is_set_spec(f),
        decreases max - fd,
    {
        proof {
            assert(events_upto(*old(readfds), *old(writefds), open_fds@, fd as int + 1)
                == events_upto(*old(readfds), *old(writefds), open_fds@, fd as int)
                    + (if open_fds@.contains(fd) {
                    (if old(readfds).is_set_spec(fd) {
                        1int
                    } else {
                        0int
                    }) + (if old(writefds).is_set_spec(fd) {
                        1int
                    } else {
                        0int
                    })
                } else {
                    0int
                }));
        }
        if fd_open(open_fds, fd) {
            // Every open descriptor is currently reported ready for
            // reading and writing; exception conditions never fire.
            if readfds.is_set(fd) {
                events_count = events_count + 1;
            }
            if writefds.is_set(fd) {
                events_count = events_count + 1;
            }
            if exceptfds.is_set(fd) {
                let ghost before = *exceptfds;
                exceptfds.clear(fd);
                proof {
                    lemma_clear_above(before, *exceptfds, fd);
                }
            }
        } else {
            let rs = readfds.is_set(fd);
            let ws = writefds.is_set(fd);
            let es = exceptfds.is_set(fd);
            if rs || ws || es {
                return Err(Errno::BadFile);
            }
            proof {
                assert(!old(readfds).is_set_spec(fd));
                assert(!old(writefds).is_set_spec(fd));
                assert(!old(exceptfds).is_set_spec(fd));
            }
        }
        fd += 1;
    }
    Ok(events_count)
}

/// Clearing one descriptor's bit does not change what `is_set` answers
/// for the descriptors above it.
proof fn lemma_clear_above(before: FDSet, after: FDSet, fd: u32)
    requires
        before.wf(),
        fd < FD_SETSIZE,
        after.fds_bits@ == before.fds_bits@.update(
            fd as int / 32,
            before.fds_bits[fd as int / 32] & !(1u32 << (fd % 32)),
        ),
    ensures
        forall|f: u32| fd < f < FD_SETSIZE
            ==> after.is_set_spec(f) == before.is_set_spec(f),
{
    assert forall|f: u32| fd < f < FD_SETSIZE
        implies after.is_set_spec(f) == before.is_set_spec(f) by {
        if f as int / 32 == fd as int / 32 {
            let w = before.fds_bits[fd as int / 32];
            let bl = fd % 32;
            let bh = f % 32;
            assert(fd as int % 32 == fd % 32 && f as int % 32 == f % 32);
            assert(bl < bh <= 31) by {
                vstd::arithmetic::div_mod::lemma_fundamental_div_mod(fd as int, 32);
                vstd::arithmetic::div_mod::lemma_fundamental_div_mod(f as int, 32);
            }
            assert(bl < bh <= 31 ==> ((w & !(1u32 << bl)) >> bh) == (w >> bh)) by (bit_vector);
        } else {
            assert(after.fds_bits[f as int / 32] == before.fds_bits[f as int / 32]);
        }
    }
}

/// The `select` syscall entry: performs one scan of the sets.
pub fn select(
    nfds: u32,
    readfds: &mut FDSet,
    writefds: &mut FDSet,
    exceptfds: &mut FDSet,
    open_fds: &Vec<u32>,
) -> (r: Result<i32, Errno>)
    requires
        old(readfds).wf(),
        old(writefds).wf(),
        old(exceptfds).wf(),
    ensures
        final(readfds).wf(),
        final(writefds).wf(),
        final(exceptfds).wf(),
        r is Err ==> r == Result::<i32, Errno>::Err(Errno::BadFile),
        r matches Ok(c) ==> 0 <= c,
{
    do_select(nfds, readfds, writefds, exceptfds, open_fds)
}

} // verus!
