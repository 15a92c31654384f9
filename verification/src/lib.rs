//! Verified model of the core of a Unix-like kernel for 32-bit x86:
//! register snapshots and context switching, priority-ordered interrupt
//! callback dispatch, a quantum-based preemptive scheduler, POSIX signal
//! delivery, and an ext2 inode storage engine over a block device.

pub mod clock;
pub mod errno;
pub mod event;
pub mod ext2;
pub mod fd;
pub mod pipe2;
pub mod process;
pub mod regs;
pub mod sched;
pub mod select;
pub mod signal;
pub mod tty;
pub mod writev;
