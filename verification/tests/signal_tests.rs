use maestro_core::process::{deliver_pending, Process, State};
use maestro_core::regs::Regs;
use maestro_core::signal::{
    handler_from_sentinel, SigAction, Signal, SignalAction, SignalHandler, SIG_DFL, SIG_IGN,
};

fn regs_with_eip(eip: u32) -> Regs {
    Regs {
        ebp: 1,
        esp: 0x8000,
        eip,
        eflags: 0x202,
        eax: 2,
        ebx: 3,
        ecx: 4,
        edx: 5,
        esi: 6,
        edi: 7,
        gs: 8,
        fs: 9,
    }
}

#[test]
fn signal_id_round_trip() {
    for id in 1..=29u32 {
        let s = Signal::from_id(id).unwrap();
        assert_eq!(s.get_id() as u32, id);
    }
    assert!(Signal::from_id(0).is_err());
    assert!(Signal::from_id(30).is_err());
}

#[test]
fn default_actions() {
    assert_eq!(Signal::SIGTERM.get_default_action(), SignalAction::Terminate);
    assert_eq!(Signal::SIGABRT.get_default_action(), SignalAction::Abort);
    assert_eq!(Signal::SIGCHLD.get_default_action(), SignalAction::Ignore);
    assert_eq!(Signal::SIGSTOP.get_default_action(), SignalAction::Stop);
    assert_eq!(Signal::SIGCONT.get_default_action(), SignalAction::Continue);
}

#[test]
fn uncatchable_signals() {
    assert!(!Signal::SIGKILL.can_catch());
    assert!(!Signal::SIGSEGV.can_catch());
    assert!(!Signal::SIGSTOP.can_catch());
    assert!(!Signal::SIGSYS.can_catch());
    assert!(Signal::SIGTERM.can_catch());
    assert!(Signal::SIGUSR1.can_catch());
}

#[test]
fn sigterm_default_action_makes_zombie() {
    // A process sends itself SIGTERM with the default handler installed:
    // it becomes a zombie with exit code 128 + 15 = 143.
    let mut p = Process::new(2, 10, regs_with_eip(0x100), 0x8000, 0x3000);
    p.kill(&Signal::SIGTERM);
    let sig = p.next_pending_signal().unwrap();
    assert_eq!(sig.get_id(), 15);
    let frame = sig.execute_action(&mut p, false);
    assert!(frame.is_none());
    assert_eq!(p.get_state(), State::Zombie);
    assert_eq!(p.exit_code, 143);
    // The parent is woken: the exit is observable through waitpid.
    assert_eq!(p.waitable, Some(15));
}

#[test]
fn init_ignores_catchable_default() {
    let mut p = Process::new(1, 10, regs_with_eip(0x100), 0x8000, 0x3000);
    p.kill(&Signal::SIGTERM);
    let frame = Signal::SIGTERM.execute_action(&mut p, false);
    assert!(frame.is_none());
    assert_eq!(p.get_state(), State::Running);
}

#[test]
fn stop_and_continue() {
    let mut p = Process::new(3, 10, regs_with_eip(0x100), 0x8000, 0x3000);
    Signal::SIGSTOP.execute_action(&mut p, false);
    assert_eq!(p.get_state(), State::Stopped);
    assert_eq!(p.waitable, Some(14));
    Signal::SIGCONT.execute_action(&mut p, false);
    assert_eq!(p.get_state(), State::Running);
}

#[test]
fn signal_trampoline_frame() {
    // Installing a handler and raising the signal routes the process
    // through the trampoline with [signo, handler] pushed on its stack,
    // and sigreturn restores every register exactly.
    let before = regs_with_eip(0x4242);
    let mut p = Process::new(5, 10, before, 0x9000, 0x3000);
    let action = SigAction { sa_handler: 0x1234, sa_mask: 0, sa_flags: 0 };
    p.set_signal_handler(&Signal::SIGUSR1, SignalHandler::Handler(action));
    p.kill(&Signal::SIGUSR1);
    let sig = p.next_pending_signal().unwrap();
    assert_eq!(sig.get_id(), 19);

    let frame = sig.execute_action(&mut p, false).unwrap();
    assert_eq!(frame.addr, 0x9000 - 8);
    assert_eq!(frame.signo, 19);
    assert_eq!(frame.handler, 0x1234);
    // The process resumes in the trampoline on the signal stack.
    assert_eq!(p.regs.eip, 0x3000);
    assert_eq!(p.regs.esp, 0x9000 - 8);
    assert!(p.is_handling_signal());
    // The pending bit is consumed.
    assert!(p.next_pending_signal().is_none());

    // The handler returns through sigreturn: the pre-handler snapshot
    // comes back exactly, flags included.
    p.signal_restore();
    assert!(!p.is_handling_signal());
    assert_eq!(p.regs, before);
}

#[test]
fn handler_not_reentered() {
    let mut p = Process::new(6, 10, regs_with_eip(0x4242), 0x9000, 0x3000);
    let action = SigAction { sa_handler: 0x1234, sa_mask: 0, sa_flags: 0 };
    p.set_signal_handler(&Signal::SIGUSR1, SignalHandler::Handler(action));
    assert!(Signal::SIGUSR1.execute_action(&mut p, false).is_some());
    // While a handler runs, delivering the signal again installs no
    // second frame.
    assert!(Signal::SIGUSR1.execute_action(&mut p, false).is_none());
}

#[test]
fn ignored_signal_changes_nothing() {
    let mut p = Process::new(7, 10, regs_with_eip(0x1), 0x9000, 0x3000);
    p.set_signal_handler(&Signal::SIGUSR2, SignalHandler::Ignore);
    p.kill(&Signal::SIGUSR2);
    let frame = Signal::SIGUSR2.execute_action(&mut p, false);
    assert!(frame.is_none());
    assert_eq!(p.get_state(), State::Running);
    assert!(!p.is_handling_signal());
}

#[test]
fn zombie_drops_signals() {
    let mut p = Process::new(8, 10, regs_with_eip(0x1), 0x9000, 0x3000);
    p.exit(0);
    p.kill(&Signal::SIGKILL);
    let frame = Signal::SIGKILL.execute_action(&mut p, false);
    assert!(frame.is_none());
    assert_eq!(p.get_state(), State::Zombie);
    assert_eq!(p.exit_code, 0);
}

#[test]
fn handler_to_action_sentinels() {
    let ignore = SignalHandler::Ignore.get_action();
    assert_eq!(ignore.sa_handler, maestro_core::signal::SIG_IGN);
    let default = SignalHandler::Default.get_action();
    assert_eq!(default.sa_handler, maestro_core::signal::SIG_DFL);
    let action = SigAction { sa_handler: 0x77, sa_mask: 1, sa_flags: 2 };
    assert_eq!(SignalHandler::Handler(action).get_action(), action);
}


#[test]
fn sentinel_decoding() {
    assert_eq!(handler_from_sentinel(SIG_IGN), SignalHandler::Ignore);
    assert_eq!(handler_from_sentinel(SIG_DFL), SignalHandler::Default);
    match handler_from_sentinel(0x1234) {
        SignalHandler::Handler(a) => assert_eq!(a.sa_handler, 0x1234),
        _ => panic!("an address decodes to a user handler"),
    }
    // Decoding is the inverse of `get_action` on each shape.
    assert_eq!(
        handler_from_sentinel(SignalHandler::Ignore.get_action().sa_handler),
        SignalHandler::Ignore
    );
}

#[test]
fn deliver_pending_takes_lowest_signal_first() {
    let mut p = Process::new(4, 10, regs_with_eip(0x50), 0x9000, 0x3000);
    // Nothing pending: nothing happens.
    assert!(deliver_pending(&mut p).is_none());
    assert_eq!(p.get_state(), State::Running);

    // SIGHUP (7) outranks SIGTERM (15): it is delivered first.
    p.set_signal_handler(
        &Signal::SIGHUP,
        SignalHandler::Handler(SigAction { sa_handler: 0x42, sa_mask: 0, sa_flags: 0 }),
    );
    p.kill(&Signal::SIGTERM);
    p.kill(&Signal::SIGHUP);
    let frame = deliver_pending(&mut p).unwrap();
    assert_eq!(frame.signo, 7);
    // While its handler runs, nothing further is delivered.
    assert!(deliver_pending(&mut p).is_none());
    // After sigreturn the remaining SIGTERM terminates the process.
    p.signal_restore();
    assert!(deliver_pending(&mut p).is_none());
    assert_eq!(p.get_state(), State::Zombie);
    assert_eq!(p.exit_code, 143);
}
