use maestro_core::clock;
use maestro_core::errno::Errno;
use maestro_core::event::{
    dispatch, get_error_message, CallbackRegistry, InterruptResult, InterruptResultAction,
};
use maestro_core::fd::{decrement_total, increment_total, FdCounter, FileDescriptor};
use maestro_core::pipe2::{pipe2, O_CLOEXEC, O_NONBLOCK, O_RDONLY, O_WRONLY};
use maestro_core::regs::{capture, switch, CpuState, Regs};
use maestro_core::select::{do_select, FDSet};
use maestro_core::tty::{
    IoctlArg, IoctlReply, Termios, TTYDeviceHandle, WinSize, TCGETS, TCSETS, TIOCGPGRP,
    TIOCGWINSZ, TIOCSPGRP, TIOCSWINSZ, TTY, VINTR, VMIN,
};
use maestro_core::writev::{do_writev, writev, IOVec};

fn regs_filled() -> Regs {
    Regs {
        ebp: 1,
        esp: 2,
        eip: 0x100,
        eflags: 0x202,
        eax: 5,
        ebx: 6,
        ecx: 7,
        edx: 8,
        esi: 9,
        edi: 10,
        gs: 11,
        fs: 12,
    }
}

#[test]
fn capture_then_switch_is_identity_modulo_pc() {
    let machine = CpuState { regs: regs_filled(), ring: 3 };
    let snap = capture(&machine, 2);
    let resumed = switch(&snap.regs, true);
    // Every register survives; only the program counter moved past the
    // trap instruction.
    assert_eq!(resumed.regs.eip, machine.regs.eip + 2);
    let mut rewound = resumed.regs;
    rewound.eip = machine.regs.eip;
    assert_eq!(rewound, machine.regs);
    assert_eq!(resumed.ring, 3);
    assert_eq!(switch(&snap.regs, false).ring, 0);
}

#[test]
fn dispatch_decision_model() {
    // A CPU exception with no handler panics; a device interrupt resumes.
    assert_eq!(dispatch(14, &Vec::new()), InterruptResultAction::Panic);
    assert_eq!(dispatch(0x20, &Vec::new()), InterruptResultAction::Resume);
    // The last handler decides.
    let chain = vec![
        InterruptResult::new(false, InterruptResultAction::Loop),
        InterruptResult::new(false, InterruptResultAction::Resume),
    ];
    assert_eq!(dispatch(14, &chain), InterruptResultAction::Resume);
    // `skip_next` ends the chain early.
    let chain2 = vec![
        InterruptResult::new(true, InterruptResultAction::Loop),
        InterruptResult::new(false, InterruptResultAction::Resume),
    ];
    assert_eq!(dispatch(0x20, &chain2), InterruptResultAction::Loop);
}

#[test]
fn callbacks_ordered_by_priority_then_registration() {
    let mut reg = CallbackRegistry::new();
    let a = reg.register_callback(0x20, 5).unwrap();
    let b = reg.register_callback(0x20, 9).unwrap();
    let c = reg.register_callback(0x20, 5).unwrap();
    assert!(reg.register_callback(600, 1).is_err());
    let chain = &reg.vectors[0x20];
    assert_eq!(chain.len(), 3);
    // Highest priority first; the two priority-5 registrations keep their
    // registration order.
    assert_eq!(chain[0], (9, b.id));
    assert_eq!(chain[1], (5, a.id));
    assert_eq!(chain[2], (5, c.id));

    reg.unregister(&a);
    let chain = &reg.vectors[0x20];
    assert_eq!(chain.len(), 2);
    assert_eq!(chain[0], (9, b.id));
    assert_eq!(chain[1], (5, c.id));
}

#[test]
fn fdset_bits() {
    let mut s = FDSet::new();
    assert!(!s.is_set(3));
    s.set(3);
    assert!(s.is_set(3));
    assert!(!s.is_set(4));
    s.clear(3);
    assert!(!s.is_set(3));
    // Beyond the set nothing is ever reported.
    assert!(!s.is_set(5000));
}

#[test]
fn select_reports_ready_and_bad_descriptors() {
    let open_fds = vec![0u32, 1, 4];
    let mut r = FDSet::new();
    let mut w = FDSet::new();
    let mut e = FDSet::new();
    r.set(0);
    w.set(1);
    e.set(4);
    // Open descriptors report readable and writable; exception requests
    // are cleared, not counted.
    let n = do_select(8, &mut r, &mut w, &mut e, &open_fds).unwrap();
    assert_eq!(n, 2);
    assert!(!e.is_set(4));

    // Asking about a descriptor that is not open fails with BadFile.
    let mut r2 = FDSet::new();
    r2.set(5);
    let mut w2 = FDSet::new();
    let mut e2 = FDSet::new();
    assert_eq!(
        do_select(8, &mut r2, &mut w2, &mut e2, &open_fds),
        Err(Errno::BadFile)
    );
}

#[test]
fn tty_ioctl_requests() {
    let tty = TTY {
        termios: Termios::default(),
        winsize: WinSize { ws_row: 25, ws_col: 80, ws_xpixel: 0, ws_ypixel: 0 },
        pgrp: 42,
    };
    let mut h = TTYDeviceHandle::new(Some(tty));

    match h.ioctl(TCGETS, &IoctlArg::Empty).unwrap() {
        IoctlReply::Termios(t) => assert_eq!(t.c_cc[VMIN], 1),
        _ => panic!("TCGETS replies with the settings"),
    }
    let mut nt = Termios::default();
    nt.c_cc[VINTR] = 0o177;
    h.ioctl(TCSETS, &IoctlArg::Termios(nt)).unwrap();
    match h.ioctl(TCGETS, &IoctlArg::Empty).unwrap() {
        IoctlReply::Termios(t) => assert_eq!(t.c_cc[VINTR], 0o177),
        _ => panic!(),
    }
    match h.ioctl(TIOCGPGRP, &IoctlArg::Empty).unwrap() {
        IoctlReply::Pgrp(p) => assert_eq!(p, 42),
        _ => panic!(),
    }
    h.ioctl(TIOCSPGRP, &IoctlArg::Pgrp(7)).unwrap();
    match h.ioctl(TIOCGPGRP, &IoctlArg::Empty).unwrap() {
        IoctlReply::Pgrp(p) => assert_eq!(p, 7),
        _ => panic!(),
    }
    let ws = WinSize { ws_row: 50, ws_col: 132, ws_xpixel: 1, ws_ypixel: 2 };
    h.ioctl(TIOCSWINSZ, &IoctlArg::WinSize(ws)).unwrap();
    match h.ioctl(TIOCGWINSZ, &IoctlArg::Empty).unwrap() {
        IoctlReply::WinSize(got) => assert_eq!(got, ws),
        _ => panic!(),
    }
    // Any other request is refused.
    assert_eq!(h.ioctl(0x5499, &IoctlArg::Empty), Err(Errno::InvalidArgument));
    // A wrongly shaped argument is refused.
    assert_eq!(h.ioctl(TIOCSPGRP, &IoctlArg::Empty), Err(Errno::InvalidArgument));

    // Without a terminal the handle answers NotATTY.
    let mut detached = TTYDeviceHandle::new(None);
    assert_eq!(detached.ioctl(TCGETS, &IoctlArg::Empty), Err(Errno::NotATTY));
}

#[test]
fn termios_defaults() {
    let t = Termios::default();
    assert_eq!(t.c_iflag, 0o2);
    assert_eq!(t.c_oflag, 0);
    assert_eq!(t.c_cflag, 0o60);
    assert_eq!(t.c_lflag, 0o1 | 0o2 | 0o10 | 0o20 | 0o40);
    assert_eq!(t.c_cc.len(), 19);
    assert_eq!(t.c_cc[VINTR], 0o3);
    assert_eq!(t.c_cc[VMIN], 1);
}

#[test]
fn writev_totals() {
    let iovs = vec![
        IOVec { iov_base: 0x1000, iov_len: 3 },
        IOVec { iov_base: 0x2000, iov_len: 0 },
        IOVec { iov_base: 0x3000, iov_len: 5 },
    ];
    assert_eq!(writev(&iovs, 3).unwrap(), 8);
    // A count that does not match the buffers is invalid.
    assert_eq!(writev(&iovs, 2), Err(Errno::InvalidArgument));
    assert_eq!(writev(&iovs, -1), Err(Errno::InvalidArgument));
    // An offset below -1 is invalid too.
    assert_eq!(do_writev(&iovs, 3, Some(-2)), Err(Errno::InvalidArgument));
    assert_eq!(do_writev(&iovs, 3, Some(-1)).unwrap(), 8);
    // The total is capped at i32::MAX instead of overflowing.
    let big = vec![
        IOVec { iov_base: 0, iov_len: i32::MAX as usize },
        IOVec { iov_base: 0, iov_len: 10 },
    ];
    assert_eq!(writev(&big, 2).unwrap(), i32::MAX);
}

#[test]
fn pipe2_flags() {
    let (r, w) = pipe2(O_CLOEXEC | O_NONBLOCK).unwrap();
    assert_eq!(r, O_RDONLY | O_CLOEXEC | O_NONBLOCK);
    assert_eq!(w, O_WRONLY | O_CLOEXEC | O_NONBLOCK);
    // Any flag outside the accepted set is refused.
    assert_eq!(pipe2(0o100), Err(Errno::InvalidArgument));
}

#[test]
fn time_reports_and_stores() {
    let mut loc = Some(0u32);
    assert_eq!(clock::time(&mut loc, 1234), 1234);
    assert_eq!(loc, Some(1234));
    let mut none = None;
    assert_eq!(clock::time(&mut none, 99), 99);
    assert_eq!(none, None);
}

#[test]
fn descriptor_accounting_and_getters() {
    let mut c = FdCounter { count: 0 };
    increment_total(&mut c).unwrap();
    increment_total(&mut c).unwrap();
    assert_eq!(c.count, 2);
    decrement_total(&mut c);
    assert_eq!(c.count, 1);
    let mut full = FdCounter { count: 4294967295 };
    assert_eq!(increment_total(&mut full), Err(Errno::NoMemory));
    assert_eq!(full.count, 4294967295);

    let fd = FileDescriptor::new(3, 1, 17);
    assert_eq!(fd.get_id(), 3);
    assert_eq!(fd.get_flags(), 1);
    assert_eq!(fd.get_open_file(), 17);
}

#[test]
fn exception_vector_names() {
    assert_eq!(get_error_message(0), "Divide-by-zero Error");
    assert_eq!(get_error_message(14), "Page Fault");
    assert_eq!(get_error_message(15), "Unknown");
    assert_eq!(get_error_message(99), "Unknown");
}
