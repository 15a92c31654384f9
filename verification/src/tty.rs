//! The TTY device handle: terminal settings and the `ioctl` requests the
//! handle forwards to its terminal.

use vstd::prelude::*;
use crate::errno::Errno;

verus! {

/// The number of control characters of a terminal.
pub const NCCS: usize = 19;

/// Control character index: interrupt.
pub const VINTR: usize = 0;
/// Control character index: quit.
pub const VQUIT: usize = 1;
/// Control character index: erase.
pub const VERASE: usize = 2;
/// Control character index: kill line.
pub const VKILL: usize = 3;
/// Control character index: end of file.
pub const VEOF: usize = 4;
/// Control character index: read timeout.
pub const VTIME: usize = 5;
/// Control character index: minimum read count.
pub const VMIN: usize = 6;
/// Control character index: switch.
pub const VSWTC: usize = 7;
/// Control character index: start output.
pub const VSTART: usize = 8;
/// Control character index: stop output.
pub const VSTOP: usize = 9;
/// Control character index: suspend.
pub const VSUSP: usize = 10;
/// Control character index: end of line.
pub const VEOL: usize = 11;
/// Control character index: reprint line.
pub const VREPRINT: usize = 12;
/// Control character index: discard output.
pub const VDISCARD: usize = 13;
/// Control character index: erase word.
pub const VWERASE: usize = 14;
/// Control character index: literal next.
pub const VLNEXT: usize = 15;
/// Control character index: alternate end of line.
pub const VEOL2: usize = 16;

/// Input mode: signal interrupt on break.
pub const BRKINT: u32 = 0o000002;
/// Control mode: 8 bits per character.
pub const CS8: u32 = 0o000060;
/// Local mode: enable signals.
pub const ISIG: u32 = 0o000001;
/// Local mode: canonical input.
pub const ICANON: u32 = 0o000002;
/// Local mode: echo input characters.
pub const ECHO: u32 = 0o000010;
/// Local mode: echo erase as backspace.
pub const ECHOE: u32 = 0o000020;
/// Local mode: echo the kill character.
pub const ECHOK: u32 = 0o000040;

/// `ioctl` request: get the terminal settings.
pub const TCGETS: u32 = 0x5401;
/// `ioctl` request: set the terminal settings immediately.
pub const TCSETS: u32 = 0x5402;
/// `ioctl` request: set the terminal settings after draining output.
pub const TCSETSW: u32 = 0x5403;
/// `ioctl` request: set the terminal settings after flushing.
pub const TCSETSF: u32 = 0x5404;
/// `ioctl` request: get the foreground process group.
pub const TIOCGPGRP: u32 = 0x540F;
/// `ioctl` request: set the foreground process group.
pub const TIOCSPGRP: u32 = 0x5410;
/// `ioctl` request: get the window size.
pub const TIOCGWINSZ: u32 = 0x5413;
/// `ioctl` request: set the window size.
pub const TIOCSWINSZ: u32 = 0x5414;

/// Terminal input and output settings.
#[derive(Debug, PartialEq, Eq)]
pub struct Termios {
    /// Input modes.
    pub c_iflag: u32,
    /// Output modes.
    pub c_oflag: u32,
    /// Control modes.
    pub c_cflag: u32,
    /// Local modes.
    pub c_lflag: u32,
    /// Special characters.
    pub c_cc: Vec<u8>,
}

impl Termios {
    /// A full table of control characters.
    pub open spec fn wf(self) -> bool {
        self.c_cc.len() == NCCS
    }

    /// Copies the settings.
    pub fn duplicate(&self) -> (r: Termios)
        ensures
            r.c_iflag == self.c_iflag,
            r.c_oflag == self.c_oflag,
            r.c_cflag == self.c_cflag,
            r.c_lflag == self.c_lflag,
            r.c_cc@ == self.c_cc@,
    {
        let mut cc: Vec<u8> = Vec::new();
        let mut i: usize = 0;
        while i < self.c_cc.len()
            invariant
                i <= self.c_cc.len(),
                cc.len() == i,
                forall|j: int| 0 <= j < i ==> cc[j] == self.c_cc[j],
            decreases self.c_cc.len() - i,
        {
            cc.push(self.c_cc[i]);
            i += 1;
        }
        proof {
            assert(cc@ =~= self.c_cc@);
        }
        Termios {
            c_iflag: self.c_iflag,
            c_oflag: self.c_oflag,
            c_cflag: self.c_cflag,
            c_lflag: self.c_lflag,
            c_cc: cc,
        }
    }
}

impl Default for Termios {
    /// The settings a fresh terminal starts with: break raises the
    /// interrupt signal, 8-bit characters, canonical echoing input with
    /// signals enabled, and the standard control characters.
    fn default() -> (r: Termios)
        ensures
            r.wf(),
            r.c_iflag == BRKINT,
            r.c_oflag == 0,
            r.c_cflag == CS8,
            r.c_lflag == (ISIG | ICANON | ECHO | ECHOE | ECHOK),
            r.c_cc[VINTR as int] == 0o03,
            r.c_cc[VQUIT as int] == 0o34,
            r.c_cc[VERASE as int] == 0o177,
            r.c_cc[VKILL as int] == 0o25,
            r.c_cc[VEOF as int] == 0o4,
            r.c_cc[VTIME as int] == 0,
            r.c_cc[VMIN as int] == 1,
            r.c_cc[VSTART as int] == 0o21,
            r.c_cc[VSTOP as int] == 0o23,
            r.c_cc[VSUSP as int] == 0o32,
            r.c_cc[VREPRINT as int] == 0o22,
            r.c_cc[VDISCARD as int] == 0o17,
            r.c_cc[VWERASE as int] == 0o27,
            r.c_cc[VLNEXT as int] == 0o26,
    {
        let mut cc: Vec<u8> = Vec::new();
        let mut i: usize = 0;
        while i < NCCS
            invariant
                i <= NCCS,
                cc.len() == i,
                forall|j: int| 0 <= j < i ==> cc[j] == 0u8,
            decreases NCCS - i,
        {
            cc.push(0u8);
            i += 1;
        }
        cc.set(VINTR, 0o03);
        cc.set(VQUIT, 0o34);
        cc.set(VERASE, 0o177);
        cc.set(VKILL, 0o25);
        cc.set(VEOF, 0o4);
        cc.set(VMIN, 1);
        cc.set(VSTART, 0o21);
        cc.set(VSTOP, 0o23);
        cc.set(VSUSP, 0o32);
        cc.set(VREPRINT, 0o22);
        cc.set(VDISCARD, 0o17);
        cc.set(VWERASE, 0o27);
        cc.set(VLNEXT, 0o26);
        Termios {
            c_iflag: BRKINT,
            c_oflag: 0,
            c_cflag: CS8,
            c_lflag: ISIG | ICANON | ECHO | ECHOE | ECHOK,
            c_cc: cc,
        }
    }
}

/// The size of a terminal window.
#[derive(Clone, Copy, Debug, PartialEq, Eq, Structural)]
pub struct WinSize {
    /// Rows, in characters.
    pub ws_row: u16,
    /// Columns, in characters.
    pub ws_col: u16,
    /// Width, in pixels.
    pub ws_xpixel: u16,
    /// Height, in pixels.
    pub ws_ypixel: u16,
}

/// A terminal: its settings, window size and foreground process group.
#[derive(Debug, PartialEq, Eq)]
pub struct TTY {
    /// The terminal settings.
    pub termios: Termios,
    /// The window size.
    pub winsize: WinSize,
    /// The foreground process group.
    pub pgrp: u32,
}

/// The argument an `ioctl` request carries, read from the caller's memory.
#[derive(Debug, PartialEq, Eq)]
pub enum IoctlArg {
    /// A terminal settings structure.
    Termios(Termios),
    /// A process group identifier.
    Pgrp(u32),
    /// A window size structure.
    WinSize(WinSize),
    /// No argument.
    Empty,
}

/// What an `ioctl` request writes back to the caller's memory.
#[derive(Debug, PartialEq, Eq)]
pub enum IoctlReply {
    /// A terminal settings structure.
    Termios(Termios),
    /// A process group identifier.
    Pgrp(u32),
    /// A window size structure.
    WinSize(WinSize),
    /// Nothing: the request only changed terminal state.
    Done,
}

/// A TTY device's handle. With no terminal attached the handle answers
/// every request with `NotATTY`.
pub struct TTYDeviceHandle {
    /// The device's terminal, if one is attached.
    pub tty: Option<TTY>,
}

impl TTYDeviceHandle {
    /// Creates a handle for the given terminal, or a detached one.
    pub fn new(tty: Option<TTY>) -> (r: TTYDeviceHandle)
        ensures
            r.tty == tty,
    {
        TTYDeviceHandle { tty }
    }

    /// Returns the handle's terminal, if one is attached.
    pub fn get_tty(&self) -> (r: Option<&TTY>)
        ensures
            match r {
                Some(t) => self.tty matches Some(t2) && *t == t2,
                None => self.tty is None,
            },
    {
        match &self.tty {
            Some(t) => Some(t),
            None => None,
        }
    }

    /// Forwards an `ioctl` request to the terminal: the get requests reply
    /// with the terminal's settings, process group or window size; the set
    /// requests replace them with the argument. Fails with `NotATTY` when
    /// no terminal is attached; with `InvalidArgument` when the request is
    /// not one the handle forwards, or names an argument of the wrong
    /// shape.
    pub fn ioctl(&mut self, request: u32, arg: &IoctlArg) -> (r: Result<IoctlReply, Errno>)
        ensures
            old(self).tty is None ==> r == Result::<IoctlReply, Errno>::Err(Errno::NotATTY)
                && *final(self) == *old(self),
            old(self).tty matches Some(t) ==> {
                &&& !(request == TCGETS || request == TCSETS || request == TCSETSW
                    || request == TCSETSF || request == TIOCGPGRP || request == TIOCSPGRP
                    || request == TIOCGWINSZ || request == TIOCSWINSZ)
                    ==> r == Result::<IoctlReply, Errno>::Err(Errno::InvalidArgument)
                        && *final(self) == *old(self)
                &&& request == TCGETS ==> *final(self) == *old(self)
                    && (r matches Ok(reply) && reply matches IoctlReply::Termios(t2)
                        && t2.c_iflag == t.termios.c_iflag
                        && t2.c_oflag == t.termios.c_oflag
                        && t2.c_cflag == t.termios.c_cflag
                        && t2.c_lflag == t.termios.c_lflag
                        && t2.c_cc@ == t.termios.c_cc@)
                &&& (request == TCSETS || request == TCSETSW || request == TCSETSF)
                    ==> (match arg {
                        IoctlArg::Termios(nt) => (final(self).tty matches Some(t2)
                            && t2.termios.c_iflag == nt.c_iflag
                            && t2.termios.c_oflag == nt.c_oflag
                            && t2.termios.c_cflag == nt.c_cflag
                            && t2.termios.c_lflag == nt.c_lflag
                            && t2.termios.c_cc@ == nt.c_cc@
                            && t2.winsize == t.winsize && t2.pgrp == t.pgrp)
                            && r == Result::<IoctlReply, Errno>::Ok(IoctlReply::Done),
                        _ => r == Result::<IoctlReply, Errno>::Err(Errno::InvalidArgument)
                            && *final(self) == *old(self),
                    })
                &&& request == TIOCGPGRP ==> *final(self) == *old(self)
                    && r == Result::<IoctlReply, Errno>::Ok(IoctlReply::Pgrp(t.pgrp))
                &&& request == TIOCSPGRP ==> (match arg {
                    IoctlArg::Pgrp(pgid) => (final(self).tty matches Some(t2)
                        && t2.pgrp == pgid && t2.winsize == t.winsize
                        && t2.termios == t.termios)
                        && r == Result::<IoctlReply, Errno>::Ok(IoctlReply::Done),
                    _ => r == Result::<IoctlReply, Errno>::Err(Errno::InvalidArgument)
                        && *final(self) == *old(self),
                })
                &&& request == TIOCGWINSZ ==> *final(self) == *old(self)
                    && r == Result::<IoctlReply, Errno>::Ok(IoctlReply::WinSize(t.winsize))
                &&& request == TIOCSWINSZ ==> (match arg {
                    IoctlArg::WinSize(ws) => (final(self).tty matches Some(t2)
                        && t2.winsize == ws && t2.pgrp == t.pgrp
                        && t2.termios == t.termios)
                        && r == Result::<IoctlReply, Errno>::Ok(IoctlReply::Done),
                    _ => r == Result::<IoctlReply, Errno>::Err(Errno::InvalidArgument)
                        && *final(self) == *old(self),
                })
            },
    {
        match &mut self.tty {
            None => Err(Errno::NotATTY),
            Some(tty) => {
                if request == TCGETS {
                    Ok(IoctlReply::Termios(tty.termios.duplicate()))
                } else if request == TCSETS || request == TCSETSW || request == TCSETSF {
                    match arg {
                        IoctlArg::Termios(nt) => {
                            tty.termios = nt.duplicate();
                            Ok(IoctlReply::Done)
                        },
                        _ => Err(Errno::InvalidArgument),
                    }
                } else if request == TIOCGPGRP {
                    Ok(IoctlReply::Pgrp(tty.pgrp))
                } else if request == TIOCSPGRP {
                    match arg {
                        IoctlArg::Pgrp(pgid) => {
                            tty.pgrp = *pgid;
                            Ok(IoctlReply::Done)
                        },
                        _ => Err(Errno::InvalidArgument),
                    }
                } else if request == TIOCGWINSZ {
                    Ok(IoctlReply::WinSize(tty.winsize))
                } else if request == TIOCSWINSZ {
                    match arg {
                        IoctlArg::WinSize(ws) => {
                            tty.winsize = *ws;
                            Ok(IoctlReply::Done)
                        },
                        _ => Err(Errno::InvalidArgument),
                    }
                } else {
                    Err(Errno::InvalidArgument)
                }
            },
        }
    }
}

} // verus!
