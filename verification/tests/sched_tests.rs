use maestro_core::process::{Process, State};
use maestro_core::regs::Regs;
use maestro_core::sched::{Scheduler, TickDecision, AVERAGE_PRIORITY_QUANTA, MAX_PRIORITY_QUANTA};

fn regs_zero() -> Regs {
    Regs {
        ebp: 0,
        esp: 0,
        eip: 0,
        eflags: 0,
        eax: 0,
        ebx: 0,
        ecx: 0,
        edx: 0,
        esi: 0,
        edi: 0,
        gs: 0,
        fs: 0,
    }
}

fn proc_with(pid: u32, priority: u32) -> Process {
    Process::new(pid, priority, regs_zero(), 0x1000, 0x2000)
}

#[test]
fn round_robin() {
    let mut s = Scheduler::new();
    s.add_process(proc_with(1, 10)).unwrap();
    s.add_process(proc_with(2, 10)).unwrap();
    s.add_process(proc_with(3, 10)).unwrap();

    let mut counts = [0u32; 4];
    let regs = regs_zero();
    for _ in 0..9 {
        match s.tick(&regs, 3) {
            TickDecision::Switch { pid, .. } => {
                counts[pid as usize] += 1;
            }
            TickDecision::Idle => panic!("three running processes cannot idle"),
        }
    }
    // Over 9 timer ticks each of the three equal-priority processes
    // accumulates 3 ticks, give or take one.
    assert_eq!(counts[1] + counts[2] + counts[3], 9);
    for pid in 1..=3 {
        assert!(counts[pid] >= 2 && counts[pid] <= 4, "pid {} got {}", pid, counts[pid]);
    }
}

#[test]
fn quantum_scaling() {
    // Two processes of priorities 10 and 20: the sum is 30 and the maximum
    // 20. At the maximum priority the budget is the full 30 ticks; at the
    // average it is 10; below the average it is clamped to at least 1.
    let budget_max = Scheduler::get_quantum_count(20, 30, 20, 2);
    assert_eq!(budget_max, MAX_PRIORITY_QUANTA);
    let budget_avg = Scheduler::get_quantum_count(15, 30, 20, 2);
    assert_eq!(budget_avg, AVERAGE_PRIORITY_QUANTA);
    let budget_low = Scheduler::get_quantum_count(10, 30, 20, 2);
    assert_eq!(budget_low, 1);
    assert!(budget_low >= 1);
}

#[test]
fn priority_accounting() {
    let mut s = Scheduler::new();
    s.add_process(proc_with(5, 7)).unwrap();
    s.add_process(proc_with(2, 11)).unwrap();
    s.add_process(proc_with(9, 3)).unwrap();
    assert_eq!(s.priority_sum, 21);
    assert_eq!(s.priority_max, 11);
    assert_eq!(s.get_processes_count(), 3);
    assert_eq!(s.foreach_process(), vec![2, 5, 9]);

    // Removing the process holding the maximum recomputes it.
    s.remove_process(2);
    assert_eq!(s.priority_sum, 10);
    assert_eq!(s.priority_max, 7);

    // Updating a priority adjusts the sum and recomputes the maximum.
    s.update_priority(9, 20);
    assert_eq!(s.priority_sum, 27);
    assert_eq!(s.priority_max, 20);
    s.update_priority(9, 1);
    assert_eq!(s.priority_sum, 8);
    assert_eq!(s.priority_max, 7);
}

#[test]
fn duplicate_pid_rejected() {
    let mut s = Scheduler::new();
    s.add_process(proc_with(4, 1)).unwrap();
    assert!(s.add_process(proc_with(4, 2)).is_err());
    assert_eq!(s.get_processes_count(), 1);
}

#[test]
fn lookup_by_pid_and_tid() {
    let mut s = Scheduler::new();
    s.add_process(proc_with(3, 1)).unwrap();
    assert_eq!(s.get_by_pid(3).unwrap().pid, 3);
    assert!(s.get_by_pid(7).is_none());
    assert_eq!(s.get_by_tid(3).unwrap().pid, 3);
}

#[test]
fn zombies_are_never_scheduled() {
    let mut s = Scheduler::new();
    let mut p1 = proc_with(1, 10);
    p1.set_state(State::Zombie);
    s.add_process(p1).unwrap();
    s.add_process(proc_with(2, 10)).unwrap();
    let regs = regs_zero();
    for _ in 0..5 {
        match s.tick(&regs, 3) {
            TickDecision::Switch { pid, .. } => assert_eq!(pid, 2),
            TickDecision::Idle => panic!("process 2 is runnable"),
        }
    }
}

#[test]
fn idle_when_nothing_runs() {
    let mut s = Scheduler::new();
    let mut p = proc_with(1, 10);
    p.set_state(State::Sleeping);
    s.add_process(p).unwrap();
    let regs = regs_zero();
    assert!(matches!(s.tick(&regs, 3), TickDecision::Idle));
    assert_eq!(s.get_total_ticks(), 1);
}

#[test]
fn tick_saves_interrupted_context() {
    let mut s = Scheduler::new();
    s.add_process(proc_with(1, 10)).unwrap();
    let regs = regs_zero();
    // First tick makes process 1 current.
    match s.tick(&regs, 3) {
        TickDecision::Switch { pid, to_user, .. } => {
            assert_eq!(pid, 1);
            assert!(to_user);
        }
        TickDecision::Idle => panic!(),
    }
    // The next tick writes the interrupted snapshot and ring into it.
    let mut regs2 = regs_zero();
    regs2.eip = 0xdead;
    match s.tick(&regs2, 0) {
        TickDecision::Switch { pid, regs: r, to_user } => {
            assert_eq!(pid, 1);
            assert_eq!(r.eip, 0xdead);
            // Ring 0 means the process was preempted inside a syscall.
            assert!(!to_user);
        }
        TickDecision::Idle => panic!(),
    }
    let p = s.get_by_pid(1).unwrap();
    assert_eq!(p.regs.eip, 0xdead);
    assert!(p.syscalling);
}

#[test]
fn priority_update_changes_budgets() {
    let mut s = Scheduler::new();
    s.add_process(proc_with(1, 10)).unwrap();
    s.add_process(proc_with(2, 10)).unwrap();
    // With equal priorities both sit at the average.
    let b = Scheduler::get_quantum_count(10, s.priority_sum, s.priority_max, 2);
    assert_eq!(b, AVERAGE_PRIORITY_QUANTA);
    // Raising one priority to the maximum grants it the full quantum.
    s.update_priority(2, 30);
    let b2 = Scheduler::get_quantum_count(30, s.priority_sum, s.priority_max, 2);
    assert_eq!(b2, MAX_PRIORITY_QUANTA);
}
