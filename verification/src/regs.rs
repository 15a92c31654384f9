//! Register snapshots and context switching.
//!
//! A snapshot holds every architecturally visible register needed to resume
//! execution at an arbitrary privilege ring. `capture` models the trap entry
//! writing the interrupted state into a snapshot; `switch` models resuming
//! from a snapshot, optionally performing the transition to ring 3.

use vstd::prelude::*;

verus! {

/// The values of every architecturally visible register of the interrupted
/// context. The instruction and stack pointers are consistent with the
/// recorded state: restoring the snapshot resumes exactly where it was taken.
#[derive(Clone, Copy, Debug, PartialEq, Eq, Structural)]
pub struct Regs {
    pub ebp: u32,
    pub esp: u32,
    pub eip: u32,
    pub eflags: u32,
    pub eax: u32,
    pub ebx: u32,
    pub ecx: u32,
    pub edx: u32,
    pub esi: u32,
    pub edi: u32,
    pub gs: u32,
    pub fs: u32,
}

/// The architecturally visible CPU state of a running context: its registers
/// and the privilege ring it executes in.
#[derive(Clone, Copy, Debug, PartialEq, Eq, Structural)]
pub struct CpuState {
    pub regs: Regs,
    /// The privilege ring: 0 for the kernel, 3 for user space.
    pub ring: u32,
}

impl Regs {
    /// The same register values with the instruction pointer moved forward by
    /// `n` bytes.
    pub open spec fn with_eip_advanced(self, n: u32) -> Regs {
        Regs { eip: (self.eip + n) as u32, ..self }
    }
}

/// Captures the state of an interrupted context into a snapshot, as the
/// low-level trap entry does. The trap instruction itself is `trap_len`
/// bytes long, so the recorded instruction pointer is the address of the
/// instruction following the one that trapped.
pub fn capture(machine: &CpuState, trap_len: u32) -> (snap: CpuState)
    requires
        machine.regs.eip + trap_len <= u32::MAX,
    ensures
        snap.regs == machine.regs.with_eip_advanced(trap_len),
        snap.ring == machine.ring,
{
    CpuState {
        regs: Regs { eip: machine.regs.eip + trap_len, ..machine.regs },
        ring: machine.ring,
    }
}

/// Resumes execution from the snapshot `snap`. If `to_user` is true, the
/// transition to ring 3 is performed and user segment selectors are
/// reloaded; otherwise execution returns to the kernel ring. The resumed
/// context is fully determined by the snapshot.
pub fn switch(snap: &Regs, to_user: bool) -> (machine: CpuState)
    ensures
        machine.regs == *snap,
        machine.ring == if to_user { 3u32 } else { 0u32 },
{
    CpuState {
        regs: *snap,
        ring: if to_user { 3 } else { 0 },
    }
}

/// Capturing a context and then switching to the captured snapshot is the
/// identity on every register, except that the instruction pointer has
/// advanced past the trap instruction. `snap` is what `capture` returns for
/// `machine` and `resumed` is what `switch` returns for `snap`, as their
/// contracts state.
pub proof fn lemma_capture_switch_round_trip(
    machine: CpuState,
    snap: CpuState,
    resumed: CpuState,
    trap_len: u32,
)
    requires
        machine.regs.eip + trap_len <= u32::MAX,
        snap.regs == machine.regs.with_eip_advanced(trap_len),
        resumed.regs == snap.regs,
    ensures
        resumed.regs == machine.regs.with_eip_advanced(trap_len),
        resumed.regs.eip == machine.regs.eip + trap_len,
        (Regs { eip: machine.regs.eip, ..resumed.regs }) == machine.regs,
{
}

} // verus!
