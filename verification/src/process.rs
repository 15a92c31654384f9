//! Processes and the delivery of signals to them.

use vstd::prelude::*;
use crate::regs::Regs;
use crate::signal::{Signal, SignalAction, SignalHandler, SIGNALS_COUNT};

verus! {

/// The execution state of a process.
#[derive(Clone, Copy, Debug, PartialEq, Eq, Structural)]
pub enum State {
    /// The process can be scheduled.
    Running,
    /// The process is waiting for an event.
    Sleeping,
    /// The process was stopped by a signal.
    Stopped,
    /// The process terminated and waits to be reaped by its parent.
    Zombie,
}

/// The two machine words the kernel writes on the user stack before routing
/// execution through the signal trampoline: at address `addr`, the signal
/// number, then the handler address.
#[derive(Clone, Copy, Debug, PartialEq, Eq, Structural)]
pub struct SignalFrame {
    /// The address the words are written at; the stack pointer of the
    /// resumed context.
    pub addr: u32,
    /// The number of the delivered signal, at `addr`.
    pub signo: u32,
    /// The address of the user handler, at `addr + 4`.
    pub handler: u32,
}

/// A process: a unique positive identifier, a scheduling state, and the
/// saved execution context it resumes from.
pub struct Process {
    /// The process identifier, a unique positive integer.
    pub pid: u32,
    /// The execution state.
    pub state: State,
    /// The scheduling priority, a non-negative integer.
    pub priority: u32,
    /// Ticks consumed in the current scheduling round.
    pub quantum_count: u32,
    /// The last saved register snapshot.
    pub regs: Regs,
    /// Whether the process was preempted while in a kernel syscall.
    pub syscalling: bool,
    /// The signal handler table, indexed by signal number; slot 0 is unused.
    pub handlers: Vec<SignalHandler>,
    /// The pending signal set: bit `n` stands for signal number `n`.
    pub pending: u32,
    /// The register snapshot saved before entering a signal handler.
    /// Present if and only if the process is executing a handler.
    pub saved_regs: Option<Regs>,
    /// The exit status, meaningful once the process is a zombie.
    pub exit_code: u32,
    /// The number of the signal that last made the process waitable.
    pub waitable: Option<u8>,
    /// The parent process, as a non-owning back-reference.
    pub parent: Option<u32>,
    /// The children of the process, by identifier.
    pub children: Vec<u32>,
    /// The top of the user stack signal handler frames are pushed on.
    pub signal_stack: u32,
    /// The user address of the signal trampoline page.
    pub trampoline: u32,
}

impl Process {
    /// The structural invariant of a process: a full handler table, a
    /// positive identifier and room on the signal stack for a handler frame.
    pub open spec fn wf(self) -> bool {
        &&& self.handlers.len() == SIGNALS_COUNT
        &&& self.pid >= 1
        &&& self.signal_stack >= 8
    }

    /// Whether the process is currently executing a signal handler.
    pub open spec fn is_handling_spec(self) -> bool {
        self.saved_regs is Some
    }

    /// Whether signal number `id` is pending.
    pub open spec fn sig_pending(self, id: u32) -> bool {
        self.pending & (1u32 << id) != 0
    }

    /// Creates a process in the `Running` state with every signal handler
    /// set to the default action and no signal pending.
    pub fn new(pid: u32, priority: u32, regs: Regs, signal_stack: u32, trampoline: u32)
        -> (p: Process)
        requires
            pid >= 1,
            signal_stack >= 8,
        ensures
            p.wf(),
            p.pid == pid,
            p.priority == priority,
            p.state == State::Running,
            p.quantum_count == 0,
            p.regs == regs,
            !p.syscalling,
            p.pending == 0,
            p.saved_regs is None,
            p.waitable is None,
            forall|i: int| 0 <= i < SIGNALS_COUNT ==> p.handlers[i] == SignalHandler::Default,
            p.signal_stack == signal_stack,
            p.trampoline == trampoline,
            p.parent is None,
            p.children@.len() == 0,
    {
        let mut handlers: Vec<SignalHandler> = Vec::new();
        let mut i: usize = 0;
        while i < SIGNALS_COUNT
            invariant
                i <= SIGNALS_COUNT,
                handlers.len() == i,
                forall|j: int| 0 <= j < i ==> handlers[j] == SignalHandler::Default,
            decreases SIGNALS_COUNT - i,
        {
            handlers.push(SignalHandler::Default);
            i += 1;
        }
        Process {
            pid,
            state: State::Running,
            priority,
            quantum_count: 0,
            regs,
            syscalling: false,
            handlers,
            pending: 0,
            saved_regs: None,
            exit_code: 0,
            waitable: None,
            parent: None,
            children: Vec::new(),
            signal_stack,
            trampoline,
        }
    }

    /// Returns the process identifier.
    pub fn get_pid(&self) -> (r: u32)
        ensures
            r == self.pid,
    {
        self.pid
    }

    /// Returns the scheduling priority.
    pub fn get_priority(&self) -> (r: u32)
        ensures
            r == self.priority,
    {
        self.priority
    }

    /// Returns the execution state.
    pub fn get_state(&self) -> (r: State)
        ensures
            r == self.state,
    {
        self.state
    }

    /// Sets the execution state.
    pub fn set_state(&mut self, state: State)
        ensures
            *final(self) == (Process { state, ..*old(self) }),
    {
        self.state = state;
    }

    /// Returns the last saved register snapshot.
    pub fn get_regs(&self) -> (r: Regs)
        ensures
            r == self.regs,
    {
        self.regs
    }

    /// Sets the register snapshot the process resumes from.
    pub fn set_regs(&mut self, regs: Regs)
        ensures
            *final(self) == (Process { regs, ..*old(self) }),
    {
        self.regs = regs;
    }

    /// Tells whether the process was preempted inside a kernel syscall.
    pub fn is_syscalling(&self) -> (r: bool)
        ensures
            r == self.syscalling,
    {
        self.syscalling
    }

    /// Tells whether the process is the init process.
    pub fn is_init(&self) -> (r: bool)
        ensures
            r == (self.pid == 1),
    {
        self.pid == 1
    }

    /// Tells whether the scheduler may pick the process: only `Running`
    /// processes are eligible.
    pub fn can_run(&self) -> (r: bool)
        ensures
            r == (self.state == State::Running),
    {
        matches!(self.state, State::Running)
    }

    /// Tells whether the process is currently executing a signal handler.
    pub fn is_handling_signal(&self) -> (r: bool)
        ensures
            r == self.is_handling_spec(),
    {
        self.saved_regs.is_some()
    }

    /// Returns how the process handles signal `sig`.
    pub fn get_signal_handler(&self, sig: &Signal) -> (r: SignalHandler)
        requires
            self.wf(),
        ensures
            r == self.handlers[sig.id_spec() as int],
    {
        self.handlers[sig.get_id() as usize]
    }

    /// Installs `handler` for signal `sig`.
    pub fn set_signal_handler(&mut self, sig: &Signal, handler: SignalHandler)
        requires
            old(self).wf(),
        ensures
            final(self).wf(),
            final(self).handlers@ == old(self).handlers@.update(sig.id_spec() as int, handler),
            *final(self) == (Process { handlers: final(self).handlers, ..*old(self) }),
    {
        let id = sig.get_id() as usize;
        self.handlers.set(id, handler);
    }

    /// Marks signal `sig` pending for the process.
    pub fn kill(&mut self, sig: &Signal)
        ensures
            final(self).pending == old(self).pending | (1u32 << sig.id_spec()),
            *final(self) == (Process { pending: final(self).pending, ..*old(self) }),
            final(self).sig_pending(sig.id_spec()),
    {
        let id: u32 = sig.get_id() as u32;
        self.pending = self.pending | (1u32 << id);
        proof {
            let i = sig.id_spec();
            let prev = old(self).pending;
            assert(i <= 29 ==> (prev | (1u32 << i)) & (1u32 << i) != 0) by (bit_vector);
            assert(i <= 29);
        }
    }

    /// Clears the pending bit of signal `sig`.
    pub fn signal_clear(&mut self, sig: &Signal)
        ensures
            final(self).pending == old(self).pending & !(1u32 << sig.id_spec()),
            *final(self) == (Process { pending: final(self).pending, ..*old(self) }),
    {
        let id: u32 = sig.get_id() as u32;
        self.pending = self.pending & !(1u32 << id);
    }

    /// Returns the lowest-numbered pending signal, if any.
    pub fn next_pending_signal(&self) -> (r: Option<Signal>)
        ensures
            r matches Some(s) ==> self.sig_pending(s.id_spec())
                && (forall|j: u32| 1 <= j < s.id_spec() ==> !self.sig_pending(j)),
            r is None ==> (forall|j: u32| 1 <= j <= 29 ==> !self.sig_pending(j)),
    {
        let mut id: u32 = 1;
        while id <= 29
            invariant
                1 <= id <= 30,
                forall|j: u32| 1 <= j < id ==> !self.sig_pending(j),
            decreases 30 - id,
        {
            if self.pending & (1u32 << id) != 0 {
                let s = Signal::from_id(id);
                match s {
                    Ok(s) => {
                        return Some(s);
                    },
                    Err(_) => {
                        return None;
                    },
                }
            }
            id += 1;
        }
        None
    }

    /// Terminates the process: records the exit status and turns it into a
    /// zombie, to be reaped by its parent.
    pub fn exit(&mut self, status: u32)
        ensures
            *final(self) == (Process { state: State::Zombie, exit_code: status, ..*old(self) }),
    {
        self.exit_code = status;
        self.state = State::Zombie;
    }

    /// Records that the delivery of signal `sig` is observable by the
    /// parent through `waitpid`.
    pub fn set_waitable(&mut self, sig_id: u8)
        ensures
            *final(self) == (Process { waitable: Some(sig_id), ..*old(self) }),
    {
        self.waitable = Some(sig_id);
    }

    /// Saves the current register snapshot before a handler for `sig` runs;
    /// it is restored by `signal_restore` when the handler returns.
    pub fn signal_save(&mut self, _sig: &Signal)
        ensures
            *final(self) == (Process { saved_regs: Some(old(self).regs), ..*old(self) }),
    {
        self.saved_regs = Some(self.regs);
    }

    /// Reverses a handler invocation, as the `sigreturn` syscall does: the
    /// pre-handler snapshot becomes the current one again, restoring every
    /// register exactly, and the process is no longer handling a signal.
    /// Without a saved snapshot the call does nothing.
    pub fn signal_restore(&mut self)
        ensures
            old(self).saved_regs matches Some(r) ==> *final(self) == (Process {
                regs: r,
                saved_regs: None,
                ..*old(self)
            }),
            old(self).saved_regs is None ==> *final(self) == *old(self),
            !final(self).is_handling_spec(),
    {
        match self.saved_regs {
            Some(r) => {
                self.regs = r;
                self.saved_regs = None;
            },
            None => {},
        }
    }
}

impl Signal {
    /// The process value and the optional handler frame that delivering the
    /// signal to `p` produces, as `execute_action` computes them.
    pub open spec fn execute_action_spec(self, p: Process, no_handler: bool)
        -> (Process, Option<SignalFrame>) {
        let id = self.id_spec();
        let cleared = Process { pending: p.pending & !(1u32 << id), ..p };
        if p.state == State::Zombie {
            (cleared, None)
        } else {
            let handler = if !self.can_catch_spec() || no_handler {
                SignalHandler::Default
            } else {
                p.handlers[id as int]
            };
            let action = self.default_action_spec();
            let marked = if handler != SignalHandler::Ignore
                && (action == SignalAction::Stop || action == SignalAction::Continue) {
                Process { waitable: Some(id as u8), ..cleared }
            } else {
                cleared
            };
            match handler {
                SignalHandler::Ignore => (marked, None),
                SignalHandler::Default => if self.can_catch_spec() && p.pid == 1 {
                    (marked, None)
                } else {
                    match action {
                        SignalAction::Terminate | SignalAction::Abort => (
                            Process {
                                state: State::Zombie,
                                exit_code: (128 + id) as u32,
                                waitable: Some(id as u8),
                                ..marked
                            },
                            None,
                        ),
                        SignalAction::Ignore => (marked, None),
                        SignalAction::Stop => (
                            if p.state == State::Running {
                                Process { state: State::Stopped, ..marked }
                            } else {
                                marked
                            },
                            None,
                        ),
                        SignalAction::Continue => (
                            if p.state == State::Stopped {
                                Process { state: State::Running, ..marked }
                            } else {
                                marked
                            },
                            None,
                        ),
                    }
                },
                SignalHandler::Handler(act) => if p.saved_regs is Some {
                    (marked, None)
                } else {
                    let sp = (p.signal_stack - 8) as u32;
                    (
                        Process {
                            saved_regs: Some(p.regs),
                            regs: Regs { esp: sp, eip: p.trampoline, ..p.regs },
                            ..marked
                        },
                        Some(SignalFrame { addr: sp, signo: id, handler: act.sa_handler }),
                    )
                },
            }
        }
    }

    /// Delivers the signal to `process`: clears its pending bit, then either
    /// drops it (zombie), ignores it, executes its default action, or
    /// prepares the user handler invocation. In the last case the returned
    /// frame holds the two words to write on the user stack, and the process
    /// resumes in the signal trampoline with the pre-handler snapshot saved.
    /// If `no_handler` is true, the default action is executed regardless of
    /// the handler table.
    pub fn execute_action(&self, process: &mut Process, no_handler: bool)
        -> (frame: Option<SignalFrame>)
        requires
            old(process).wf(),
        ensures
            final(process).wf(),
            (*final(process), frame) == self.execute_action_spec(*old(process), no_handler),
    {
        process.signal_clear(self);

        let process_state = process.get_state();
        if process_state == State::Zombie {
            return None;
        }

        let handler = if !self.can_catch() || no_handler {
            SignalHandler::Default
        } else {
            process.get_signal_handler(self)
        };

        if handler != SignalHandler::Ignore {
            let action = self.get_default_action();
            if action == SignalAction::Stop || action == SignalAction::Continue {
                process.set_waitable(self.get_id());
            }
        }

        match handler {
            SignalHandler::Ignore => None,
            SignalHandler::Default => {
                // On the init process, catchable signals are no-ops.
                if self.can_catch() && process.is_init() {
                    return None;
                }

                let default_action = self.get_default_action();
                let exit_code = 128 + self.get_id() as u32;

                match default_action {
                    SignalAction::Terminate | SignalAction::Abort => {
                        // The exiting process becomes observable to its
                        // parent, which wakes in `waitpid`.
                        process.set_waitable(self.get_id());
                        process.exit(exit_code);
                        None
                    },
                    SignalAction::Ignore => None,
                    SignalAction::Stop => {
                        if process_state == State::Running {
                            process.set_state(State::Stopped);
                        }
                        None
                    },
                    SignalAction::Continue => {
                        if process_state == State::Stopped {
                            process.set_state(State::Running);
                        }
                        None
                    },
                }
            },
            SignalHandler::Handler(action) => {
                if !process.is_handling_signal() {
                    // The handler frame goes right below the signal stack top.
                    let signal_esp = process.signal_stack - 8;
                    let mut regs = process.get_regs();
                    regs.esp = signal_esp;
                    regs.eip = process.trampoline;

                    let frame = SignalFrame {
                        addr: signal_esp,
                        signo: self.get_id() as u32,
                        handler: action.sa_handler,
                    };

                    process.signal_save(self);
                    process.set_regs(regs);
                    Some(frame)
                } else {
                    None
                }
            },
        }
    }
}

/// Delivers one pending signal to a process about to be resumed, as the
/// scheduler's resume path does: while a handler runs nothing is
/// delivered; otherwise the lowest-numbered pending signal is taken and
/// its action executed, yielding the handler frame to install, if any.
pub fn deliver_pending(process: &mut Process) -> (r: Option<SignalFrame>)
    requires
        old(process).wf(),
    ensures
        final(process).wf(),
        old(process).is_handling_spec() ==> *final(process) == *old(process) && r is None,
        (!old(process).is_handling_spec() && (forall|j: u32|
            1 <= j <= 29 ==> !old(process).sig_pending(j)))
            ==> *final(process) == *old(process) && r is None,
        !old(process).is_handling_spec() ==> ((exists|j: u32|
            1 <= j <= 29 && #[trigger] old(process).sig_pending(j)) ==> exists|s: Signal|
            {
                &&& old(process).sig_pending(#[trigger] s.id_spec())
                &&& forall|j: u32| 1 <= j < s.id_spec() ==> !old(process).sig_pending(j)
                &&& (*final(process), r) == s.execute_action_spec(*old(process), false)
            }),
{
    if process.is_handling_signal() {
        return None;
    }
    match process.next_pending_signal() {
        Some(sig) => {
            let ghost s = sig;
            let r = sig.execute_action(process, false);
            proof {
                assert(old(process).sig_pending(s.id_spec()));
            }
            r
        },
        None => None,
    }
}

/// Saving a snapshot for a handler and restoring it through `sigreturn`
/// brings every register back exactly, whatever the handler did to the
/// current registers in between.
pub proof fn lemma_signal_save_restore_round_trip(p0: Process, p1: Process, p2: Process, p3: Process)
    requires
        // `p1` is the process right after `signal_save`, as its contract states
        p1 == (Process { saved_regs: Some(p0.regs), ..p0 }),
        // the handler may change the running registers but not the saved slot
        p2.saved_regs == p1.saved_regs,
        // `p3` is `p2` after `signal_restore`, as its contract states
        (p2.saved_regs matches Some(r)
            ==> p3 == (Process { regs: r, saved_regs: None, ..p2 })),
    ensures
        p3.regs == p0.regs,
        !p3.is_handling_spec(),
{
}

} // verus!
