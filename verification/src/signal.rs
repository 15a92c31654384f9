//! Process signals: numbering, default actions and handler descriptions.

use vstd::prelude::*;
use crate::errno::Errno;

verus! {

/// Sentinel handler address requesting that the signal be ignored.
pub const SIG_IGN: u32 = 0;
/// Sentinel handler address requesting the default action for the signal.
pub const SIG_DFL: u32 = 1;

/// The size of the signal handler table: the number of signals plus one,
/// since signal numbering begins at 1.
pub const SIGNALS_COUNT: usize = 30;

/// The action to perform when a signal is delivered and no user handler
/// takes precedence.
#[derive(Copy, Clone, Debug, PartialEq, Eq, Structural)]
pub enum SignalAction {
    /// Abnormal termination of the process.
    Terminate,
    /// Abnormal termination of the process with additional actions.
    Abort,
    /// Ignore the signal.
    Ignore,
    /// Stop the process.
    Stop,
    /// Continue the process if it is stopped; otherwise ignore the signal.
    Continue,
}

/// An action registered for a signal: the handler address and its settings.
#[derive(Clone, Copy, Debug, Eq, PartialEq, Structural)]
pub struct SigAction {
    /// The address of the handler function, or a sentinel value.
    pub sa_handler: u32,
    /// Signals masked while the handler executes.
    pub sa_mask: u32,
    /// Flags modifying the behaviour of the signal.
    pub sa_flags: u32,
}

/// How a process handles one signal.
#[derive(Clone, Copy, Debug, Eq, PartialEq, Structural)]
pub enum SignalHandler {
    /// The signal is ignored.
    Ignore,
    /// The default action of the signal is executed.
    Default,
    /// A user handler is called.
    Handler(SigAction),
}

impl SignalHandler {
    /// Returns the `SigAction` equivalent of the handler, with the sentinel
    /// handler addresses standing for `Ignore` and `Default`.
    pub fn get_action(&self) -> (r: SigAction)
        ensures
            r == (match self {
                SignalHandler::Ignore => SigAction { sa_handler: SIG_IGN, sa_mask: 0, sa_flags: 0 },
                SignalHandler::Default => SigAction { sa_handler: SIG_DFL, sa_mask: 0, sa_flags: 0 },
                SignalHandler::Handler(action) => *action,
            }),
    {
        match self {
            Self::Ignore => SigAction { sa_handler: SIG_IGN, sa_mask: 0, sa_flags: 0 },
            Self::Default => SigAction { sa_handler: SIG_DFL, sa_mask: 0, sa_flags: 0 },
            Self::Handler(action) => *action,
        }
    }
}

/// A signal, identified by a number in `1..=29`.
#[derive(Clone, Copy, Debug, Eq, PartialEq, Structural)]
pub enum Signal {
    /// Process abort.
    SIGABRT,
    /// Alarm clock.
    SIGALRM,
    /// Access to an undefined portion of a memory object.
    SIGBUS,
    /// Child process terminated.
    SIGCHLD,
    /// Continue executing.
    SIGCONT,
    /// Erroneous arithmetic operation.
    SIGFPE,
    /// Hangup.
    SIGHUP,
    /// Illegal instruction.
    SIGILL,
    /// Terminal interrupt.
    SIGINT,
    /// Kill.
    SIGKILL,
    /// Write on a pipe with no one to read it.
    SIGPIPE,
    /// Terminal quit.
    SIGQUIT,
    /// Invalid memory reference.
    SIGSEGV,
    /// Stop executing.
    SIGSTOP,
    /// Termination.
    SIGTERM,
    /// Terminal stop.
    SIGTSTP,
    /// Background process attempting read.
    SIGTTIN,
    /// Background process attempting write.
    SIGTTOU,
    /// User-defined signal 1.
    SIGUSR1,
    /// User-defined signal 2.
    SIGUSR2,
    /// Pollable event.
    SIGPOLL,
    /// Profiling timer expired.
    SIGPROF,
    /// Bad system call.
    SIGSYS,
    /// Trace/breakpoint trap.
    SIGTRAP,
    /// High bandwidth data is available at a socket.
    SIGURG,
    /// Virtual timer expired.
    SIGVTALRM,
    /// CPU time limit exceeded.
    SIGXCPU,
    /// File size limit exceeded.
    SIGXFSZ,
    /// Window resize.
    SIGWINCH,
}

impl Signal {
    /// The number of the signal.
    pub open spec fn id_spec(self) -> u32 {
        match self {
            Signal::SIGABRT => 1,
            Signal::SIGALRM => 2,
            Signal::SIGBUS => 3,
            Signal::SIGCHLD => 4,
            Signal::SIGCONT => 5,
            Signal::SIGFPE => 6,
            Signal::SIGHUP => 7,
            Signal::SIGILL => 8,
            Signal::SIGINT => 9,
            Signal::SIGKILL => 10,
            Signal::SIGPIPE => 11,
            Signal::SIGQUIT => 12,
            Signal::SIGSEGV => 13,
            Signal::SIGSTOP => 14,
            Signal::SIGTERM => 15,
            Signal::SIGTSTP => 16,
            Signal::SIGTTIN => 17,
            Signal::SIGTTOU => 18,
            Signal::SIGUSR1 => 19,
            Signal::SIGUSR2 => 20,
            Signal::SIGPOLL => 21,
            Signal::SIGPROF => 22,
            Signal::SIGSYS => 23,
            Signal::SIGTRAP => 24,
            Signal::SIGURG => 25,
            Signal::SIGVTALRM => 26,
            Signal::SIGXCPU => 27,
            Signal::SIGXFSZ => 28,
            Signal::SIGWINCH => 29,
        }
    }

    /// The signal whose number is `id`, if `id` is a valid signal number.
    pub open spec fn from_id_spec(id: u32) -> Option<Signal> {
        match id {
            1 => Some(Signal::SIGABRT),
            2 => Some(Signal::SIGALRM),
            3 => Some(Signal::SIGBUS),
            4 => Some(Signal::SIGCHLD),
            5 => Some(Signal::SIGCONT),
            6 => Some(Signal::SIGFPE),
            7 => Some(Signal::SIGHUP),
            8 => Some(Signal::SIGILL),
            9 => Some(Signal::SIGINT),
            10 => Some(Signal::SIGKILL),
            11 => Some(Signal::SIGPIPE),
            12 => Some(Signal::SIGQUIT),
            13 => Some(Signal::SIGSEGV),
            14 => Some(Signal::SIGSTOP),
            15 => Some(Signal::SIGTERM),
            16 => Some(Signal::SIGTSTP),
            17 => Some(Signal::SIGTTIN),
            18 => Some(Signal::SIGTTOU),
            19 => Some(Signal::SIGUSR1),
            20 => Some(Signal::SIGUSR2),
            21 => Some(Signal::SIGPOLL),
            22 => Some(Signal::SIGPROF),
            23 => Some(Signal::SIGSYS),
            24 => Some(Signal::SIGTRAP),
            25 => Some(Signal::SIGURG),
            26 => Some(Signal::SIGVTALRM),
            27 => Some(Signal::SIGXCPU),
            28 => Some(Signal::SIGXFSZ),
            29 => Some(Signal::SIGWINCH),
            _ => None,
        }
    }

    /// The fixed default action of the signal.
    pub open spec fn default_action_spec(self) -> SignalAction {
        match self {
            Signal::SIGABRT => SignalAction::Abort,
            Signal::SIGALRM => SignalAction::Terminate,
            Signal::SIGBUS => SignalAction::Abort,
            Signal::SIGCHLD => SignalAction::Ignore,
            Signal::SIGCONT => SignalAction::Continue,
            Signal::SIGFPE => SignalAction::Abort,
            Signal::SIGHUP => SignalAction::Terminate,
            Signal::SIGILL => SignalAction::Abort,
            Signal::SIGINT => SignalAction::Terminate,
            Signal::SIGKILL => SignalAction::Terminate,
            Signal::SIGPIPE => SignalAction::Terminate,
            Signal::SIGQUIT => SignalAction::Abort,
            Signal::SIGSEGV => SignalAction::Abort,
            Signal::SIGSTOP => SignalAction::Stop,
            Signal::SIGTERM => SignalAction::Terminate,
            Signal::SIGTSTP => SignalAction::Stop,
            Signal::SIGTTIN => SignalAction::Stop,
            Signal::SIGTTOU => SignalAction::Stop,
            Signal::SIGUSR1 => SignalAction::Terminate,
            Signal::SIGUSR2 => SignalAction::Terminate,
            Signal::SIGPOLL => SignalAction::Terminate,
            Signal::SIGPROF => SignalAction::Terminate,
            Signal::SIGSYS => SignalAction::Abort,
            Signal::SIGTRAP => SignalAction::Abort,
            Signal::SIGURG => SignalAction::Ignore,
            Signal::SIGVTALRM => SignalAction::Terminate,
            Signal::SIGXCPU => SignalAction::Abort,
            Signal::SIGXFSZ => SignalAction::Abort,
            Signal::SIGWINCH => SignalAction::Ignore,
        }
    }

    /// Whether a user handler may be installed for the signal.
    pub open spec fn can_catch_spec(self) -> bool {
        !(self == Signal::SIGKILL || self == Signal::SIGSEGV || self == Signal::SIGSTOP
            || self == Signal::SIGSYS)
    }

    /// Returns the signal with number `id`. Fails with `InvalidArgument` if
    /// and only if `id` is not a valid signal number.
    pub fn from_id(id: u32) -> (r: Result<Self, Errno>)
        ensures
            r matches Ok(s) ==> Signal::from_id_spec(id) == Some(s) && s.id_spec() == id,
            r is Ok <==> 1 <= id <= 29,
            r is Err ==> r == Result::<Signal, Errno>::Err(Errno::InvalidArgument),
    {
        match id {
            1 => Ok(Self::SIGABRT),
            2 => Ok(Self::SIGALRM),
            3 => Ok(Self::SIGBUS),
            4 => Ok(Self::SIGCHLD),
            5 => Ok(Self::SIGCONT),
            6 => Ok(Self::SIGFPE),
            7 => Ok(Self::SIGHUP),
            8 => Ok(Self::SIGILL),
            9 => Ok(Self::SIGINT),
            10 => Ok(Self::SIGKILL),
            11 => Ok(Self::SIGPIPE),
            12 => Ok(Self::SIGQUIT),
            13 => Ok(Self::SIGSEGV),
            14 => Ok(Self::SIGSTOP),
            15 => Ok(Self::SIGTERM),
            16 => Ok(Self::SIGTSTP),
            17 => Ok(Self::SIGTTIN),
            18 => Ok(Self::SIGTTOU),
            19 => Ok(Self::SIGUSR1),
            20 => Ok(Self::SIGUSR2),
            21 => Ok(Self::SIGPOLL),
            22 => Ok(Self::SIGPROF),
            23 => Ok(Self::SIGSYS),
            24 => Ok(Self::SIGTRAP),
            25 => Ok(Self::SIGURG),
            26 => Ok(Self::SIGVTALRM),
            27 => Ok(Self::SIGXCPU),
            28 => Ok(Self::SIGXFSZ),
            29 => Ok(Self::SIGWINCH),
            _ => Err(Errno::InvalidArgument),
        }
    }

    /// Returns the signal's number.
    pub fn get_id(&self) -> (r: u8)
        ensures
            r == self.id_spec(),
            1 <= r <= 29,
    {
        match self {
            Self::SIGABRT => 1,
            Self::SIGALRM => 2,
            Self::SIGBUS => 3,
            Self::SIGCHLD => 4,
            Self::SIGCONT => 5,
            Self::SIGFPE => 6,
            Self::SIGHUP => 7,
            Self::SIGILL => 8,
            Self::SIGINT => 9,
            Self::SIGKILL => 10,
            Self::SIGPIPE => 11,
            Self::SIGQUIT => 12,
            Self::SIGSEGV => 13,
            Self::SIGSTOP => 14,
            Self::SIGTERM => 15,
            Self::SIGTSTP => 16,
            Self::SIGTTIN => 17,
            Self::SIGTTOU => 18,
            Self::SIGUSR1 => 19,
            Self::SIGUSR2 => 20,
            Self::SIGPOLL => 21,
            Self::SIGPROF => 22,
            Self::SIGSYS => 23,
            Self::SIGTRAP => 24,
            Self::SIGURG => 25,
            Self::SIGVTALRM => 26,
            Self::SIGXCPU => 27,
            Self::SIGXFSZ => 28,
            Self::SIGWINCH => 29,
        }
    }

    /// Returns the default action for the signal.
    pub fn get_default_action(&self) -> (r: SignalAction)
        ensures
            r == self.default_action_spec(),
    {
        match self {
            Self::SIGABRT => SignalAction::Abort,
            Self::SIGALRM => SignalAction::Terminate,
            Self::SIGBUS => SignalAction::Abort,
            Self::SIGCHLD => SignalAction::Ignore,
            Self::SIGCONT => SignalAction::Continue,
            Self::SIGFPE => SignalAction::Abort,
            Self::SIGHUP => SignalAction::Terminate,
            Self::SIGILL => SignalAction::Abort,
            Self::SIGINT => SignalAction::Terminate,
            Self::SIGKILL => SignalAction::Terminate,
            Self::SIGPIPE => SignalAction::Terminate,
            Self::SIGQUIT => SignalAction::Abort,
            Self::SIGSEGV => SignalAction::Abort,
            Self::SIGSTOP => SignalAction::Stop,
            Self::SIGTERM => SignalAction::Terminate,
            Self::SIGTSTP => SignalAction::Stop,
            Self::SIGTTIN => SignalAction::Stop,
            Self::SIGTTOU => SignalAction::Stop,
            Self::SIGUSR1 => SignalAction::Terminate,
            Self::SIGUSR2 => SignalAction::Terminate,
            Self::SIGPOLL => SignalAction::Terminate,
            Self::SIGPROF => SignalAction::Terminate,
            Self::SIGSYS => SignalAction::Abort,
            Self::SIGTRAP => SignalAction::Abort,
            Self::SIGURG => SignalAction::Ignore,
            Self::SIGVTALRM => SignalAction::Terminate,
            Self::SIGXCPU => SignalAction::Abort,
            Self::SIGXFSZ => SignalAction::Abort,
            Self::SIGWINCH => SignalAction::Ignore,
        }
    }

    /// Tells whether the signal can be caught by a user handler.
    pub fn can_catch(&self) -> (r: bool)
        ensures
            r == self.can_catch_spec(),
    {
        !matches!(self, Self::SIGKILL | Self::SIGSEGV | Self::SIGSTOP | Self::SIGSYS)
    }
}

/// Decodes the handler word of the `signal` syscall into a handler: the
/// two sentinel values stand for ignoring the signal and for its default
/// action; any other value is the address of a user handler.
pub fn handler_from_sentinel(handler: u32) -> (r: SignalHandler)
    ensures
        r == (if handler == SIG_IGN {
            SignalHandler::Ignore
        } else if handler == SIG_DFL {
            SignalHandler::Default
        } else {
            SignalHandler::Handler(SigAction { sa_handler: handler, sa_mask: 0, sa_flags: 0 })
        }),
{
    if handler == SIG_IGN {
        SignalHandler::Ignore
    } else if handler == SIG_DFL {
        SignalHandler::Default
    } else {
        SignalHandler::Handler(SigAction { sa_handler: handler, sa_mask: 0, sa_flags: 0 })
    }
}

/// Numbering and the signal it names are mutually inverse: every signal's
/// number maps back to the signal, and every valid number maps to a signal
/// carrying that number.
pub proof fn lemma_signal_id_round_trip(s: Signal, id: u32)
    ensures
        Signal::from_id_spec(s.id_spec()) == Some(s),
        1 <= id <= 29 ==> ((#[trigger] Signal::from_id_spec(id)) matches Some(t)
            && t.id_spec() == id),
{
}

} // verus!
