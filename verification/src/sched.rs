//! The process scheduler: owns the process set and, on each timer tick,
//! saves the interrupted context, picks the next runnable process within its
//! quantum budget, and hands back the context to resume.

use vstd::prelude::*;
use crate::errno::Errno;
use crate::process::{Process, State};
use crate::regs::Regs;

verus! {

/// The quantum granted to a process whose priority equals the average.
pub const AVERAGE_PRIORITY_QUANTA: u64 = 10;
/// The quantum granted to the process with the maximum priority.
pub const MAX_PRIORITY_QUANTA: u64 = 30;

/// What the scheduler decides on a timer tick.
#[derive(Clone, Copy, Debug, PartialEq, Eq, Structural)]
pub enum TickDecision {
    /// Resume the process `pid` from the snapshot `regs`; the resumption
    /// returns to user space unless the process was preempted inside a
    /// syscall.
    Switch { pid: u32, regs: Regs, to_user: bool },
    /// No process is runnable: acknowledge the timer and idle until the
    /// next interrupt.
    Idle,
}

/// The sum of the priorities of a process sequence.
pub open spec fn sum_pri(s: Seq<Process>) -> int
    decreases s.len(),
{
    if s.len() == 0 {
        0
    } else {
        sum_pri(s.drop_last()) + s.last().priority
    }
}

/// The maximum priority of a process sequence, 0 when empty.
pub open spec fn max_pri(s: Seq<Process>) -> int
    decreases s.len(),
{
    if s.len() == 0 {
        0
    } else if s.last().priority >= max_pri(s.drop_last()) {
        s.last().priority as int
    } else {
        max_pri(s.drop_last())
    }
}

/// The priority sum is unchanged except for the inserted process.
pub proof fn lemma_sum_insert(s: Seq<Process>, i: int, p: Process)
    requires
        0 <= i <= s.len(),
    ensures
        sum_pri(s.insert(i, p)) == sum_pri(s) + p.priority,
    decreases s.len(),
{
    let t = s.insert(i, p);
    if i == s.len() {
        assert(t.drop_last() =~= s);
    } else {
        assert(t.drop_last() =~= s.drop_last().insert(i, p));
        assert(t.last() == s.last());
        lemma_sum_insert(s.drop_last(), i, p);
    }
}

/// Removing a process takes exactly its priority out of the sum.
pub proof fn lemma_sum_remove(s: Seq<Process>, i: int)
    requires
        0 <= i < s.len(),
    ensures
        sum_pri(s.remove(i)) == sum_pri(s) - s[i].priority,
    decreases s.len(),
{
    let t = s.remove(i);
    if i == s.len() - 1 {
        assert(t =~= s.drop_last());
    } else {
        assert(t.drop_last() =~= s.drop_last().remove(i));
        assert(t.last() == s.last());
        lemma_sum_remove(s.drop_last(), i);
    }
}

/// Every priority is nonnegative, so the sum is too.
pub proof fn lemma_sum_nonneg(s: Seq<Process>)
    ensures
        sum_pri(s) >= 0,
    decreases s.len(),
{
    if s.len() > 0 {
        lemma_sum_nonneg(s.drop_last());
    }
}

/// No single priority exceeds the sum of all of them.
pub proof fn lemma_sum_ge_element(s: Seq<Process>, i: int)
    requires
        0 <= i < s.len(),
    ensures
        sum_pri(s) >= s[i].priority,
    decreases s.len(),
{
    if i == s.len() - 1 {
        lemma_sum_nonneg(s.drop_last());
    } else {
        lemma_sum_ge_element(s.drop_last(), i);
    }
}

/// The maximum is unchanged except for the inserted process.
pub proof fn lemma_max_insert(s: Seq<Process>, i: int, p: Process)
    requires
        0 <= i <= s.len(),
    ensures
        max_pri(s.insert(i, p)) == if p.priority >= max_pri(s) {
            p.priority as int
        } else {
            max_pri(s)
        },
    decreases s.len(),
{
    let t = s.insert(i, p);
    if i == s.len() {
        assert(t.drop_last() =~= s);
    } else {
        assert(t.drop_last() =~= s.drop_last().insert(i, p));
        assert(t.last() == s.last());
        lemma_max_insert(s.drop_last(), i, p);
    }
}

/// The maximum bounds every element.
pub proof fn lemma_max_ge_element(s: Seq<Process>, i: int)
    requires
        0 <= i < s.len(),
    ensures
        max_pri(s) >= s[i].priority,
    decreases s.len(),
{
    if i < s.len() - 1 {
        lemma_max_ge_element(s.drop_last(), i);
    }
}

/// The quantum budget of a process of priority `pr`, in ticks: a linear
/// interpolation granting `AVERAGE_PRIORITY_QUANTA` at the average priority
/// and `MAX_PRIORITY_QUANTA` at the maximum, clamped to at least 1.
pub open spec fn quantum_budget_spec(pr: int, priority_sum: int, priority_max: int, count: int) -> int
    recommends
        count > 0,
{
    let avg = priority_sum / count;
    let span = MAX_PRIORITY_QUANTA - AVERAGE_PRIORITY_QUANTA;
    if priority_max <= avg {
        AVERAGE_PRIORITY_QUANTA as int
    } else if pr >= avg {
        AVERAGE_PRIORITY_QUANTA + (pr - avg) * span / (priority_max - avg)
    } else {
        let down = (avg - pr) * span / (priority_max - avg);
        if AVERAGE_PRIORITY_QUANTA - down >= 1 {
            AVERAGE_PRIORITY_QUANTA - down
        } else {
            1
        }
    }
}

/// Two sequences with pointwise equal priorities have the same priority sum
/// and the same maximum priority.
pub proof fn lemma_pri_folds_pointwise(s: Seq<Process>, t: Seq<Process>)
    requires
        s.len() == t.len(),
        forall|i: int| 0 <= i < s.len() ==> s[i].priority == t[i].priority,
    ensures
        sum_pri(s) == sum_pri(t),
        max_pri(s) == max_pri(t),
    decreases s.len(),
{
    if s.len() > 0 {
        assert(forall|i: int| 0 <= i < s.len() - 1
            ==> s.drop_last()[i].priority == t.drop_last()[i].priority);
        lemma_pri_folds_pointwise(s.drop_last(), t.drop_last());
    }
}

/// A budget never exceeds `MAX_PRIORITY_QUANTA` as long as the priority is
/// within the tracked maximum.
pub proof fn lemma_budget_bounded(pr: int, priority_sum: int, priority_max: int, count: int)
    requires
        0 <= pr <= priority_max,
        count > 0,
        priority_sum >= 0,
    ensures
        quantum_budget_spec(pr, priority_sum, priority_max, count)
            <= MAX_PRIORITY_QUANTA,
{
    let avg = priority_sum / count;
    let span = (MAX_PRIORITY_QUANTA - AVERAGE_PRIORITY_QUANTA) as int;
    vstd::arithmetic::div_mod::lemma_div_pos_is_pos(priority_sum, count);
    if priority_max > avg && pr >= avg {
        let a = pr - avg;
        let b = priority_max - avg;
        vstd::arithmetic::mul::lemma_mul_inequality(a, b, span);
        vstd::arithmetic::div_mod::lemma_div_is_ordered(a * span, b * span, b);
        vstd::arithmetic::div_mod::lemma_div_by_multiple(span, b);
    }
}

/// Whether the scheduler may hand the CPU to `p`: it is `Running` and still
/// within its quantum budget.
pub open spec fn eligible_spec(p: Process, priority_sum: int, priority_max: int, count: int) -> bool {
    &&& p.state == State::Running
    &&& (p.quantum_count as int) < quantum_budget_spec(
        p.priority as int,
        priority_sum,
        priority_max,
        count,
    )
}

/// Eligibility of the process at index `i` of `s` under the accounting
/// `sum` and `mx`.
pub open spec fn eligible_in(s: Seq<Process>, i: int, sum: int, mx: int) -> bool {
    eligible_spec(s[i], sum, mx, s.len() as int)
}

/// The first eligible index in `[lo, hi)`, scanning upward.
pub open spec fn first_eligible_in(s: Seq<Process>, lo: int, hi: int, sum: int, mx: int)
    -> Option<int>
    decreases hi - lo,
{
    if lo >= hi {
        None
    } else if eligible_in(s, lo, sum, mx) {
        Some(lo)
    } else {
        first_eligible_in(s, lo + 1, hi, sum, mx)
    }
}

/// The index the selection algorithm picks: the first eligible process
/// after the current one in identifier order, wrapping around to the front.
pub open spec fn selection_in(s: Seq<Process>, curr: Option<u32>, sum: int, mx: int)
    -> Option<int> {
    let n = s.len() as int;
    if n == 0 {
        None
    } else {
        let ci = match curr {
            Some(pid) => match Scheduler::find_pid(s, pid) {
                Some(i) => i,
                None => 0,
            },
            None => 0,
        };
        match first_eligible_in(s, ci + 1, n, sum, mx) {
            Some(i) => Some(i),
            None => first_eligible_in(s, 0, n, sum, mx),
        }
    }
}

/// A found index is an eligible one.
pub proof fn lemma_first_eligible_sound(s: Seq<Process>, lo: int, hi: int, sum: int, mx: int)
    ensures
        first_eligible_in(s, lo, hi, sum, mx) matches Some(i)
            ==> lo <= i < hi && eligible_in(s, i, sum, mx),
    decreases hi - lo,
{
    if lo < hi && !eligible_in(s, lo, sum, mx) {
        lemma_first_eligible_sound(s, lo + 1, hi, sum, mx);
    }
}

/// If `j` is eligible and nothing before it in `[lo, j)` is, the scan
/// finds `j`.
pub proof fn lemma_first_eligible_complete(
    s: Seq<Process>,
    lo: int,
    hi: int,
    sum: int,
    mx: int,
    j: int,
)
    requires
        lo <= j < hi,
        eligible_in(s, j, sum, mx),
        forall|k: int| lo <= k < j ==> !eligible_in(s, k, sum, mx),
    ensures
        first_eligible_in(s, lo, hi, sum, mx) == Some(j),
    decreases j - lo,
{
    if lo < j {
        lemma_first_eligible_complete(s, lo + 1, hi, sum, mx, j);
    }
}

/// If nothing in `[lo, hi)` is eligible, the scan finds nothing.
pub proof fn lemma_first_eligible_absent(s: Seq<Process>, lo: int, hi: int, sum: int, mx: int)
    requires
        forall|k: int| lo <= k < hi ==> !eligible_in(s, k, sum, mx),
    ensures
        first_eligible_in(s, lo, hi, sum, mx) is None,
    decreases hi - lo,
{
    if lo < hi {
        lemma_first_eligible_absent(s, lo + 1, hi, sum, mx);
    }
}

/// The process scheduler. It owns the process set, keyed and ordered by
/// identifier, and maintains the priority accounting used by the quantum
/// model.
pub struct Scheduler {
    /// The processes, sorted by strictly increasing identifier.
    pub processes: Vec<Process>,
    /// The identifier of the process currently holding the CPU.
    pub curr_proc: Option<u32>,
    /// The number of ticks since the scheduler was created.
    pub total_ticks: u64,
    /// The sum of all priorities, kept equal to the fold over the set.
    pub priority_sum: u64,
    /// The maximum priority, kept equal to the fold over the set.
    pub priority_max: u32,
}

impl Scheduler {
    /// The index of the process with identifier `pid`, if registered.
    pub open spec fn find_pid(s: Seq<Process>, pid: u32) -> Option<int>
        decreases s.len(),
    {
        if s.len() == 0 {
            None
        } else if s[0].pid == pid {
            Some(0)
        } else {
            match Self::find_pid(s.drop_first(), pid) {
                Some(i) => Some(i + 1),
                None => None,
            }
        }
    }

    /// The scheduler invariant: processes sorted by strictly increasing
    /// identifier, each well formed, and the priority accounting exact:
    /// `priority_sum` is the sum of the priorities and `priority_max` their
    /// maximum, across the whole process set.
    pub open spec fn wf(self) -> bool {
        &&& forall|i: int, j: int|
            0 <= i < j < self.processes.len()
                ==> self.processes[i].pid < self.processes[j].pid
        &&& forall|i: int| 0 <= i < self.processes.len() ==> (#[trigger] self.processes[i]).wf()
        &&& self.priority_sum == sum_pri(self.processes@)
        &&& self.priority_max == max_pri(self.processes@)
        &&& (self.curr_proc matches Some(pid)
            ==> Self::find_pid(self.processes@, pid) is Some)
    }

    /// The index the scheduler's selection picks in its current state.
    pub open spec fn selection_spec(self) -> Option<int> {
        selection_in(
            self.processes@,
            self.curr_proc,
            self.priority_sum as int,
            self.priority_max as int,
        )
    }

    /// The process sequence after the tick entry wrote the interrupted
    /// snapshot and ring into the current process.
    pub open spec fn after_save_seq(self, regs: Regs, ring: u32) -> Seq<Process> {
        match self.curr_proc {
            Some(pid) => match Self::find_pid(self.processes@, pid) {
                Some(i) => self.processes@.update(
                    i,
                    Process { regs, syscalling: ring < 3, ..self.processes@[i] },
                ),
                None => self.processes@,
            },
            None => self.processes@,
        }
    }

    /// Creates a scheduler with no process registered.
    pub fn new() -> (s: Scheduler)
        ensures
            s.wf(),
            s.processes@.len() == 0,
            s.curr_proc is None,
            s.total_ticks == 0,
            s.priority_sum == 0,
            s.priority_max == 0,
    {
        Scheduler {
            processes: Vec::new(),
            curr_proc: None,
            total_ticks: 0,
            priority_sum: 0,
            priority_max: 0,
        }
    }

    /// Returns the number of processes registered on the scheduler.
    pub fn get_processes_count(&self) -> (r: usize)
        ensures
            r == self.processes.len(),
    {
        self.processes.len()
    }

    /// Returns the identifiers of the registered processes, in increasing
    /// order.
    pub fn foreach_process(&self) -> (r: Vec<u32>)
        ensures
            r.len() == self.processes.len(),
            forall|i: int| 0 <= i < r.len() ==> r[i] == self.processes[i].pid,
    {
        let mut pids: Vec<u32> = Vec::new();
        let mut i: usize = 0;
        while i < self.processes.len()
            invariant
                i <= self.processes.len(),
                pids.len() == i,
                forall|j: int| 0 <= j < i ==> pids[j] == self.processes[j].pid,
            decreases self.processes.len() - i,
        {
            pids.push(self.processes[i].pid);
            i += 1;
        }
        pids
    }

    /// Returns the process with identifier `pid`, or `None` if it is not
    /// registered.
    pub fn get_by_pid(&self, pid: u32) -> (r: Option<&Process>)
        ensures
            match Self::find_pid(self.processes@, pid) {
                Some(i) => r matches Some(p) && *p == self.processes[i],
                None => r is None,
            },
    {
        let mut i: usize = 0;
        while i < self.processes.len()
            invariant
                i <= self.processes.len(),
                forall|j: int| 0 <= j < i ==> self.processes[j].pid != pid,
            decreases self.processes.len() - i,
        {
            if self.processes[i].pid == pid {
                proof {
                    Self::lemma_find_pid_complete(self.processes@, pid, i as int);
                }
                return Some(&self.processes[i]);
            }
            i += 1;
        }
        proof {
            Self::lemma_find_pid_absent(self.processes@, pid);
        }
        None
    }

    /// If `pid` sits at index `i` and nowhere earlier, `find_pid` returns `i`.
    pub proof fn lemma_find_pid_complete(s: Seq<Process>, pid: u32, i: int)
        requires
            0 <= i < s.len(),
            s[i].pid == pid,
            forall|j: int| 0 <= j < i ==> s[j].pid != pid,
        ensures
            Self::find_pid(s, pid) == Some(i),
        decreases s.len(),
    {
        if i > 0 {
            assert(forall|j: int| 0 <= j < i - 1 ==> s.drop_first()[j] == s[j + 1]);
            assert(s.drop_first()[i - 1] == s[i]);
            Self::lemma_find_pid_complete(s.drop_first(), pid, i - 1);
        }
    }

    /// If no process carries `pid`, `find_pid` finds none.
    pub proof fn lemma_find_pid_absent(s: Seq<Process>, pid: u32)
        requires
            forall|j: int| 0 <= j < s.len() ==> s[j].pid != pid,
        ensures
            Self::find_pid(s, pid) is None,
        decreases s.len(),
    {
        if s.len() > 0 {
            assert(forall|j: int| 0 <= j < s.len() - 1 ==> s.drop_first()[j] == s[j + 1]);
            Self::lemma_find_pid_absent(s.drop_first(), pid);
        }
    }

    /// Returns the process whose main thread has identifier `tid`. Threads
    /// share their process's identifier, so this is the process `tid`.
    pub fn get_by_tid(&self, tid: u32) -> (r: Option<&Process>)
        ensures
            match Self::find_pid(self.processes@, tid) {
                Some(i) => r matches Some(p) && *p == self.processes[i],
                None => r is None,
            },
    {
        self.get_by_pid(tid)
    }

    /// Returns the process currently holding the CPU, if any.
    pub fn get_current_process(&self) -> (r: Option<&Process>)
        requires
            self.wf(),
        ensures
            match self.curr_proc {
                Some(pid) => {
                    &&& r matches Some(p)
                    &&& p.pid == pid
                    &&& Self::find_pid(self.processes@, pid) matches Some(i)
                        && *r.unwrap() == self.processes[i]
                },
                None => r is None,
            },
    {
        match self.curr_proc {
            Some(pid) => {
                let r = self.get_by_pid(pid);
                proof {
                    Self::lemma_find_pid_correct(self.processes@, pid);
                }
                r
            },
            None => None,
        }
    }

    /// `find_pid` finds exactly the index carrying `pid`.
    pub proof fn lemma_find_pid_correct(s: Seq<Process>, pid: u32)
        ensures
            Self::find_pid(s, pid) matches Some(i) ==> 0 <= i < s.len() && s[i].pid == pid,
            Self::find_pid(s, pid) is None ==> forall|i: int| 0 <= i < s.len() ==> s[i].pid != pid,
        decreases s.len(),
    {
        if s.len() > 0 && s[0].pid != pid {
            Self::lemma_find_pid_correct(s.drop_first(), pid);
            assert(forall|i: int| 1 <= i < s.len() ==> s.drop_first()[i - 1] == s[i]);
            if Self::find_pid(s.drop_first(), pid) is None {
                assert forall|i: int| 0 <= i < s.len() implies s[i].pid != pid by {
                    if i >= 1 {
                        assert(s.drop_first()[i - 1] == s[i]);
                    }
                }
            }
        }
    }

    /// If some index carries `pid`, `find_pid` finds one.
    pub proof fn lemma_find_pid_exists(s: Seq<Process>, pid: u32, i: int)
        requires
            0 <= i < s.len(),
            s[i].pid == pid,
        ensures
            Self::find_pid(s, pid) is Some,
        decreases s.len(),
    {
        if s[0].pid != pid {
            assert(s.drop_first()[i - 1] == s[i]);
            Self::lemma_find_pid_exists(s.drop_first(), pid, i - 1);
        }
    }

    /// `find_pid` depends on the identifiers alone.
    pub proof fn lemma_find_pid_pointwise(s: Seq<Process>, t: Seq<Process>, pid: u32)
        requires
            s.len() == t.len(),
            forall|i: int| 0 <= i < s.len() ==> s[i].pid == t[i].pid,
        ensures
            Self::find_pid(s, pid) == Self::find_pid(t, pid),
        decreases s.len(),
    {
        if s.len() > 0 && s[0].pid != pid {
            assert(forall|i: int| 0 <= i < s.len() - 1
                ==> s.drop_first()[i] == s[i + 1] && t.drop_first()[i] == t[i + 1]);
            Self::lemma_find_pid_pointwise(s.drop_first(), t.drop_first(), pid);
        }
    }

    /// Returns the index of the process with identifier `pid`, if present.
    fn index_of_pid(processes: &Vec<Process>, pid: u32) -> (r: Option<usize>)
        ensures
            match Self::find_pid(processes@, pid) {
                Some(i) => r == Some(i as usize) && 0 <= i < processes@.len()
                    && processes@[i].pid == pid,
                None => r is None,
            },
    {
        let mut i: usize = 0;
        while i < processes.len()
            invariant
                i <= processes.len(),
                forall|j: int| 0 <= j < i ==> processes[j].pid != pid,
            decreases processes.len() - i,
        {
            if processes[i].pid == pid {
                proof {
                    Self::lemma_find_pid_complete(processes@, pid, i as int);
                }
                return Some(i);
            }
            i += 1;
        }
        proof {
            Self::lemma_find_pid_absent(processes@, pid);
        }
        None
    }

    /// Returns the average priority across the process set.
    pub fn get_average_priority(priority_sum: u64, processes_count: usize) -> (r: u64)
        requires
            processes_count > 0,
        ensures
            r == priority_sum as int / processes_count as int,
    {
        priority_sum / (processes_count as u64)
    }

    /// Returns the quantum budget, in ticks, of a process of priority
    /// `priority` under the given accounting: `AVERAGE_PRIORITY_QUANTA` at
    /// the average priority, `MAX_PRIORITY_QUANTA` at the maximum, linearly
    /// interpolated in between and clamped to at least 1.
    pub fn get_quantum_count(
        priority: u32,
        priority_sum: u64,
        priority_max: u32,
        processes_count: usize,
    ) -> (r: u64)
        requires
            processes_count > 0,
        ensures
            r == quantum_budget_spec(
                priority as int,
                priority_sum as int,
                priority_max as int,
                processes_count as int,
            ),
            1 <= r,
            priority <= priority_max ==> r <= MAX_PRIORITY_QUANTA,
    {
        let avg: u64 = priority_sum / (processes_count as u64);
        let span: u64 = MAX_PRIORITY_QUANTA - AVERAGE_PRIORITY_QUANTA;
        if (priority_max as u64) <= avg {
            AVERAGE_PRIORITY_QUANTA
        } else if (priority as u64) >= avg {
            let den: u64 = priority_max as u64 - avg;
            let num: u64 = ((priority as u64) - avg) * span;
            let up: u64 = num / den;
            proof {
                if priority <= priority_max {
                    let a = priority - avg;
                    let b = priority_max - avg;
                    vstd::arithmetic::mul::lemma_mul_inequality(a as int, b as int, span as int);
                    vstd::arithmetic::div_mod::lemma_div_is_ordered(
                        a * span,
                        b * span,
                        b as int,
                    );
                    vstd::arithmetic::div_mod::lemma_div_by_multiple(span as int, b as int);
                }
            }
            AVERAGE_PRIORITY_QUANTA + up
        } else {
            let den: u64 = priority_max as u64 - avg;
            let num: u64 = (avg - priority as u64) * span;
            let down: u64 = num / den;
            if down <= AVERAGE_PRIORITY_QUANTA - 1 {
                AVERAGE_PRIORITY_QUANTA - down
            } else {
                1
            }
        }
    }

    /// Tells whether the scheduler may pick `process`: it is `Running` and
    /// has consumed fewer ticks than its quantum budget.
    pub fn can_run(
        process: &Process,
        priority_sum: u64,
        priority_max: u32,
        processes_count: usize,
    ) -> (r: bool)
        requires
            processes_count > 0,
        ensures
            r == eligible_spec(
                *process,
                priority_sum as int,
                priority_max as int,
                processes_count as int,
            ),
    {
        if process.can_run() {
            let budget = Self::get_quantum_count(
                process.get_priority(),
                priority_sum,
                priority_max,
                processes_count,
            );
            (process.quantum_count as u64) < budget
        } else {
            false
        }
    }

    /// Returns the maximum priority across `processes`, 0 when empty.
    fn max_of(processes: &Vec<Process>) -> (r: u32)
        ensures
            r == max_pri(processes@),
    {
        let mut mx: u32 = 0;
        let mut t: usize = 0;
        while t < processes.len()
            invariant
                t <= processes.len(),
                mx == max_pri(processes@.subrange(0, t as int)),
            decreases processes.len() - t,
        {
            proof {
                assert(processes@.subrange(0, t as int + 1).drop_last()
                    =~= processes@.subrange(0, t as int));
                assert(processes@.subrange(0, t as int + 1).last() == processes@[t as int]);
            }
            if processes[t].priority > mx {
                mx = processes[t].priority;
            }
            t += 1;
        }
        proof {
            assert(processes@.subrange(0, processes@.len() as int) =~= processes@);
        }
        mx
    }

    /// Registers `process` on the scheduler: inserts it in identifier
    /// order, adds its priority to `priority_sum` and raises `priority_max`
    /// if it now holds the maximum. Fails with `InvalidArgument` if and
    /// only if the identifier is already registered.
    pub fn add_process(&mut self, process: Process) -> (r: Result<(), Errno>)
        requires
            old(self).wf(),
            process.wf(),
            sum_pri(old(self).processes@) + process.priority <= u64::MAX,
        ensures
            final(self).wf(),
            r is Ok <==> Self::find_pid(old(self).processes@, process.pid) is None,
            r is Err ==> *final(self) == *old(self)
                && r == Result::<(), Errno>::Err(Errno::InvalidArgument),
            r is Ok ==> (exists|k: int|
                0 <= k <= old(self).processes@.len()
                && final(self).processes@ == old(self).processes@.insert(k, process)),
            r is Ok ==> final(self).priority_sum
                == old(self).priority_sum + process.priority,
            r is Ok ==> final(self).priority_max
                == (if process.priority >= old(self).priority_max {
                    process.priority
                } else {
                    old(self).priority_max
                }),
            final(self).curr_proc == old(self).curr_proc,
            final(self).total_ticks == old(self).total_ticks,
    {
        let ghost s0 = self.processes@;
        let mut k: usize = 0;
        while k < self.processes.len() && self.processes[k].pid < process.pid
            invariant
                k <= self.processes.len(),
                forall|j: int| 0 <= j < k ==> self.processes[j].pid < process.pid,
                self == old(self),
            decreases self.processes.len() - k,
        {
            k += 1;
        }
        if k < self.processes.len() && self.processes[k].pid == process.pid {
            proof {
                Self::lemma_find_pid_exists(s0, process.pid, k as int);
            }
            return Err(Errno::InvalidArgument);
        }
        proof {
            // Every identifier from `k` on is strictly greater, so the new
            // identifier is absent and insertion at `k` keeps the order.
            assert forall|j: int| k <= j < s0.len() implies s0[j].pid > process.pid by {
                if j > k {
                    assert(s0[k as int].pid < s0[j].pid);
                }
            }
            Self::lemma_find_pid_absent(s0, process.pid);
            lemma_sum_insert(s0, k as int, process);
            lemma_max_insert(s0, k as int, process);
        }
        self.priority_sum = self.priority_sum + process.priority as u64;
        if process.priority >= self.priority_max {
            self.priority_max = process.priority;
        }
        let ghost pr = process.priority;
        self.processes.insert(k, process);
        proof {
            let s1 = self.processes@;
            assert(s1 == s0.insert(k as int, process));
            assert forall|i: int, j: int| 0 <= i < j < s1.len() implies s1[i].pid < s1[j].pid by {
                assert(s1[i] == if i < k { s0[i] } else if i == k { process } else { s0[i - 1] });
                assert(s1[j] == if j < k { s0[j] } else if j == k { process } else { s0[j - 1] });
            }
            if self.curr_proc is Some {
                let cp = self.curr_proc->0;
                Self::lemma_find_pid_correct(s0, cp);
                let i0 = Self::find_pid(s0, cp)->0;
                if i0 < k {
                    Self::lemma_find_pid_exists(s1, cp, i0);
                } else {
                    assert(s1[i0 + 1] == s0[i0]);
                    Self::lemma_find_pid_exists(s1, cp, i0 + 1);
                }
            }
        }
        Ok(())
    }

    /// Unregisters the process with identifier `pid`, if present: its
    /// priority leaves the sum, and the maximum is recomputed from the
    /// remaining set. If it held the CPU, no process does afterwards.
    #[verifier::rlimit(100)]
    pub fn remove_process(&mut self, pid: u32)
        requires
            old(self).wf(),
        ensures
            final(self).wf(),
            Self::find_pid(old(self).processes@, pid) is None ==> *final(self) == *old(self),
            Self::find_pid(old(self).processes@, pid) matches Some(i) ==> {
                &&& final(self).processes@ == old(self).processes@.remove(i)
                &&& final(self).priority_sum
                    == old(self).priority_sum - old(self).processes@[i].priority
                &&& final(self).priority_max == max_pri(final(self).processes@)
                &&& final(self).total_ticks == old(self).total_ticks
                &&& final(self).curr_proc == (if old(self).curr_proc == Some(pid) {
                    Option::<u32>::None
                } else {
                    old(self).curr_proc
                })
            },
    {
        let ghost s0 = self.processes@;
        match Self::index_of_pid(&self.processes, pid) {
            None => {},
            Some(i) => {
                proof {
                    lemma_sum_remove(s0, i as int);
                    lemma_sum_ge_element(s0, i as int);
                }
                let removed = self.processes.remove(i);
                self.priority_sum = self.priority_sum - removed.priority as u64;
                self.priority_max = Self::max_of(&self.processes);
                let was_current = match self.curr_proc {
                    Some(cp) => cp == pid,
                    None => false,
                };
                if was_current {
                    self.curr_proc = None;
                }
                proof {
                    let s1 = self.processes@;
                    assert(s1 == s0.remove(i as int));
                    assert(forall|a: int| 0 <= a < s1.len()
                        ==> #[trigger] s1[a] == (if a < i { s0[a] } else { s0[a + 1] }));
                    assert forall|a: int, b: int| 0 <= a < b < s1.len()
                        implies s1[a].pid < s1[b].pid by {
                        assert(s1[a] == if a < i { s0[a] } else { s0[a + 1] });
                        assert(s1[b] == if b < i { s0[b] } else { s0[b + 1] });
                    }
                    assert forall|a: int| 0 <= a < s1.len()
                        implies (#[trigger] s1[a]).wf() by {
                        assert(s1[a] == if a < i { s0[a] } else { s0[a + 1] });
                    }
                    if self.curr_proc is Some {
                        let cp = self.curr_proc->0;
                        Self::lemma_find_pid_correct(s0, cp);
                        let j = Self::find_pid(s0, cp)->0;
                        if j < i {
                            Self::lemma_find_pid_exists(s1, cp, j);
                        } else {
                            Self::lemma_find_pid_exists(s1, cp, j - 1);
                        }
                    }
                }
            },
        }
    }

    /// Gives the process `pid` the priority `new_priority` and updates the
    /// scheduler's accounting: the sum changes by the difference and the
    /// maximum is recomputed. Does nothing if `pid` is not registered.
    #[verifier::rlimit(100)]
    pub fn update_priority(&mut self, pid: u32, new_priority: u32)
        requires
            old(self).wf(),
            (Self::find_pid(old(self).processes@, pid) matches Some(i)
                ==> sum_pri(old(self).processes@) - old(self).processes@[i].priority
                    + new_priority <= u64::MAX),
        ensures
            final(self).wf(),
            Self::find_pid(old(self).processes@, pid) is None ==> *final(self) == *old(self),
            Self::find_pid(old(self).processes@, pid) matches Some(i) ==> {
                &&& final(self).processes@ == old(self).processes@.update(
                    i,
                    Process { priority: new_priority, ..old(self).processes@[i] },
                )
                &&& final(self).priority_sum == old(self).priority_sum
                    - old(self).processes@[i].priority + new_priority
                &&& final(self).priority_max == max_pri(final(self).processes@)
                &&& final(self).total_ticks == old(self).total_ticks
                &&& final(self).curr_proc == old(self).curr_proc
            },
    {
        let ghost s0 = self.processes@;
        match Self::index_of_pid(&self.processes, pid) {
            None => {},
            Some(i) => {
                proof {
                    lemma_sum_remove(s0, i as int);
                    lemma_sum_ge_element(s0, i as int);
                }
                let mut p = self.processes.remove(i);
                let old_pr = p.priority;
                p.priority = new_priority;
                proof {
                    lemma_sum_insert(s0.remove(i as int), i as int, p);
                    assert(s0.remove(i as int).insert(i as int, p)
                        =~= s0.update(i as int, p));
                }
                self.processes.insert(i, p);
                self.priority_sum = self.priority_sum - old_pr as u64 + new_priority as u64;
                self.priority_max = Self::max_of(&self.processes);
                proof {
                    let s1 = self.processes@;
                    assert(s1 =~= s0.update(i as int, p));
                    assert(forall|a: int| 0 <= a < s1.len()
                        ==> (#[trigger] s1[a]).pid == s0[a].pid);
                    assert forall|a: int, b: int| 0 <= a < b < s1.len()
                        implies s1[a].pid < s1[b].pid by {
                        assert(s0[a].pid < s0[b].pid);
                    }
                    if self.curr_proc is Some {
                        Self::lemma_find_pid_pointwise(s0, s1, self.curr_proc->0);
                    }
                }
            },
        }
    }

    /// Picks the next process to hand the CPU to: scanning in identifier
    /// order from the successor of the current process and wrapping around,
    /// the first one that is `Running` and within its quantum budget.
    pub fn get_next_process(&self) -> (r: Option<usize>)
        requires
            self.wf(),
        ensures
            match self.selection_spec() {
                Some(i) => r == Some(i as usize)
                    && 0 <= i < self.processes.len()
                    && eligible_in(
                        self.processes@,
                        i,
                        self.priority_sum as int,
                        self.priority_max as int,
                    ),
                None => r is None,
            },
    {
        let ghost s = self.processes@;
        let ghost sum = self.priority_sum as int;
        let ghost mx = self.priority_max as int;
        let n = self.processes.len();
        if n == 0 {
            return None;
        }
        // The index of the current process; the scan starts at its successor.
        let ci: usize = match self.curr_proc {
            Some(cpid) => match Self::index_of_pid(&self.processes, cpid) {
                Some(t) => t,
                None => 0,
            },
            None => 0,
        };
        proof {
            assert(ci as int == (match self.curr_proc {
                Some(pid) => match Self::find_pid(s, pid) {
                    Some(i) => i,
                    None => 0,
                },
                None => 0,
            }));
            assert(ci < n);
        }
        // First pass: from the successor of the current process to the end.
        let mut j: usize = ci + 1;
        while j < n
            invariant
                ci + 1 <= j,
                j <= n,
                ci < n,
                n == self.processes.len(),
                self.wf(),
                sum == self.priority_sum as int,
                mx == self.priority_max as int,
                s == self.processes@,
                ci as int == (match self.curr_proc {
                    Some(pid) => match Self::find_pid(s, pid) {
                        Some(i) => i,
                        None => 0,
                    },
                    None => 0,
                }),
                forall|k: int| ci + 1 <= k < j ==> !eligible_in(s, k, sum, mx),
            decreases n - j,
        {
            if Self::can_run(&self.processes[j], self.priority_sum, self.priority_max, n) {
                proof {
                    lemma_first_eligible_complete(s, ci as int + 1, n as int, sum, mx, j as int);
                }
                return Some(j);
            }
            j += 1;
        }
        proof {
            lemma_first_eligible_absent(s, ci as int + 1, n as int, sum, mx);
        }
        // Wrapped: scan again from the first process.
        let mut j: usize = 0;
        while j < n
            invariant
                j <= n,
                ci < n,
                n == self.processes.len(),
                self.wf(),
                sum == self.priority_sum as int,
                mx == self.priority_max as int,
                s == self.processes@,
                ci as int == (match self.curr_proc {
                    Some(pid) => match Self::find_pid(s, pid) {
                        Some(i) => i,
                        None => 0,
                    },
                    None => 0,
                }),
                first_eligible_in(s, ci as int + 1, n as int, sum, mx) is None,
                forall|k: int| 0 <= k < j ==> !eligible_in(s, k, sum, mx),
            decreases n - j,
        {
            if Self::can_run(&self.processes[j], self.priority_sum, self.priority_max, n) {
                proof {
                    lemma_first_eligible_complete(s, 0, n as int, sum, mx, j as int);
                }
                return Some(j);
            }
            j += 1;
        }
        proof {
            lemma_first_eligible_absent(s, 0, n as int, sum, mx);
        }
        None
    }

    /// Counts the tick and saves the interrupted context and ring into the
    /// process currently holding the CPU.
    #[verifier::rlimit(100)]
    fn tick_save(&mut self, regs: &Regs, ring: u32)
        requires
            old(self).wf(),
            old(self).total_ticks < u64::MAX,
        ensures
            final(self).wf(),
            final(self).processes@ == old(self).after_save_seq(*regs, ring),
            final(self).curr_proc == old(self).curr_proc,
            final(self).total_ticks == old(self).total_ticks + 1,
            final(self).priority_sum == old(self).priority_sum,
            final(self).priority_max == old(self).priority_max,
    {
        let ghost s0 = self.processes@;
        self.total_ticks = self.total_ticks + 1;
        proof {
            assert(self.processes@ == s0);
            assert(s0 == old(self).processes@);
        }
        match self.curr_proc {
            Some(cpid) => match Self::index_of_pid(&self.processes, cpid) {
                Some(ci) => {
                    let mut p = self.processes.remove(ci);
                    p.regs = *regs;
                    p.syscalling = ring < 3;
                    proof {
                        assert(p == (Process {
                            regs: *regs,
                            syscalling: ring < 3,
                            ..old(self).processes@[ci as int]
                        }));
                    }
                    self.processes.insert(ci, p);
                    proof {
                        assert(Self::find_pid(s0, cpid) matches Some(k) && k == ci as int);
                        assert(self.processes@ =~= s0.update(
                            ci as int,
                            Process {
                                regs: *regs,
                                syscalling: ring < 3,
                                ..s0[ci as int]
                            },
                        ));
                        assert(self.processes@ =~= old(self).after_save_seq(*regs, ring));
                    }
                },
                None => {
                    proof {
                        assert(self.processes@ =~= old(self).after_save_seq(*regs, ring));
                    }
                },
            },
            None => {
                proof {
                    assert(self.processes@ =~= old(self).after_save_seq(*regs, ring));
                }
            },
        }
        proof {
            let ps1 = self.processes@;
            lemma_pri_folds_pointwise(s0, ps1);
            assert(forall|a: int| 0 <= a < ps1.len()
                ==> (#[trigger] ps1[a]).pid == s0[a].pid);
            assert forall|a: int| 0 <= a < ps1.len() implies (#[trigger] ps1[a]).wf() by {
                assert(s0[a].wf());
            }
            if self.curr_proc is Some {
                Self::lemma_find_pid_pointwise(s0, ps1, self.curr_proc->0);
            }
        }
    }

    /// Hands the CPU to the eligible process at index `i`: on a change of
    /// process the predecessor's quantum count is reset, the chosen process
    /// consumes the tick, and the decision to resume it is returned.
    #[verifier::rlimit(100)]
    fn tick_switch(&mut self, i: usize) -> (r: TickDecision)
        requires
            old(self).wf(),
            i < old(self).processes.len(),
            eligible_in(
                old(self).processes@,
                i as int,
                old(self).priority_sum as int,
                old(self).priority_max as int,
            ),
        ensures
            final(self).wf(),
            final(self).total_ticks == old(self).total_ticks,
            final(self).priority_sum == old(self).priority_sum,
            final(self).priority_max == old(self).priority_max,
            ({
                let ps1 = old(self).processes@;
                let chosen = ps1[i as int];
                let zeroed = match old(self).curr_proc {
                    Some(cp) => if cp != chosen.pid {
                        match Self::find_pid(ps1, cp) {
                            Some(ci) => ps1.update(
                                ci,
                                Process { quantum_count: 0, ..ps1[ci] },
                            ),
                            None => ps1,
                        }
                    } else {
                        ps1
                    },
                    None => ps1,
                };
                &&& r == (TickDecision::Switch {
                    pid: chosen.pid,
                    regs: chosen.regs,
                    to_user: !chosen.syscalling,
                })
                &&& final(self).curr_proc == Some(chosen.pid)
                &&& final(self).processes@ == zeroed.update(
                    i as int,
                    Process {
                        quantum_count: (zeroed[i as int].quantum_count + 1) as u32,
                        ..zeroed[i as int]
                    },
                )
            }),
    {
        let ghost ps1 = self.processes@;
        let next_pid = self.processes[i].pid;
        let next_regs = self.processes[i].regs;
        let to_user = !self.processes[i].syscalling;

        // On a change of process, reset the predecessor's count.
        match self.curr_proc {
            Some(cp) => {
                if cp != next_pid {
                    match Self::index_of_pid(&self.processes, cp) {
                        Some(ci) => {
                            let mut p = self.processes.remove(ci);
                            p.quantum_count = 0;
                            self.processes.insert(ci, p);
                            proof {
                                assert(self.processes@ =~= ps1.update(
                                    ci as int,
                                    Process { quantum_count: 0, ..ps1[ci as int] },
                                ));
                            }
                        },
                        None => {},
                    }
                }
            },
            None => {},
        }
        let ghost zeroed = self.processes@;

        // The chosen process consumes the upcoming tick.
        proof {
            assert(zeroed[i as int].pid == ps1[i as int].pid);
            assert(zeroed[i as int].quantum_count == ps1[i as int].quantum_count);
            lemma_max_ge_element(ps1, i as int);
            lemma_sum_nonneg(ps1);
            lemma_budget_bounded(
                ps1[i as int].priority as int,
                self.priority_sum as int,
                self.priority_max as int,
                ps1.len() as int,
            );
        }
        let mut p = self.processes.remove(i);
        p.quantum_count = p.quantum_count + 1;
        self.processes.insert(i, p);
        self.curr_proc = Some(next_pid);
        proof {
            let s2 = self.processes@;
            assert(s2 =~= zeroed.update(
                i as int,
                Process {
                    quantum_count: (zeroed[i as int].quantum_count + 1) as u32,
                    ..zeroed[i as int]
                },
            ));
            assert(forall|a: int| 0 <= a < s2.len()
                ==> (#[trigger] s2[a]).pid == ps1[a].pid
                    && s2[a].priority == ps1[a].priority);
            lemma_pri_folds_pointwise(ps1, s2);
            assert forall|a: int, b: int| 0 <= a < b < s2.len()
                implies s2[a].pid < s2[b].pid by {
                assert(ps1[a].pid < ps1[b].pid);
            }
            assert forall|a: int| 0 <= a < s2.len() implies (#[trigger] s2[a]).wf() by {
                assert(ps1[a].wf());
            }
            assert(s2[i as int].pid == next_pid);
            Self::lemma_find_pid_exists(s2, next_pid, i as int);
        }
        TickDecision::Switch { pid: next_pid, regs: next_regs, to_user }
    }

    /// Ticks the scheduler: counts the tick, saves the interrupted context
    /// into the current process, and picks the next process to run. On a
    /// switch to a different process the previous one's quantum count is
    /// reset, and the chosen process consumes the tick. With no eligible
    /// process the scheduler reports the idle path and keeps its state.
    pub fn tick(&mut self, regs: &Regs, ring: u32) -> (r: TickDecision)
        requires
            old(self).wf(),
            old(self).total_ticks < u64::MAX,
        ensures
            final(self).wf(),
            final(self).total_ticks == old(self).total_ticks + 1,
            final(self).priority_sum == old(self).priority_sum,
            final(self).priority_max == old(self).priority_max,
            ({
                let ps1 = old(self).after_save_seq(*regs, ring);
                let sum = old(self).priority_sum as int;
                let mx = old(self).priority_max as int;
                match selection_in(ps1, old(self).curr_proc, sum, mx) {
                    None => {
                        &&& final(self).processes@ == ps1
                        &&& final(self).curr_proc == old(self).curr_proc
                        &&& r == TickDecision::Idle
                    },
                    Some(i) => {
                        let chosen = ps1[i];
                        let zeroed = match old(self).curr_proc {
                            Some(cp) => if cp != chosen.pid {
                                match Self::find_pid(ps1, cp) {
                                    Some(ci) => ps1.update(
                                        ci,
                                        Process { quantum_count: 0, ..ps1[ci] },
                                    ),
                                    None => ps1,
                                }
                            } else {
                                ps1
                            },
                            None => ps1,
                        };
                        &&& eligible_in(ps1, i, sum, mx)
                        &&& r == (TickDecision::Switch {
                            pid: chosen.pid,
                            regs: chosen.regs,
                            to_user: !chosen.syscalling,
                        })
                        &&& final(self).curr_proc == Some(chosen.pid)
                        &&& final(self).processes@ == zeroed.update(
                            i,
                            Process {
                                quantum_count: (zeroed[i].quantum_count + 1) as u32,
                                ..zeroed[i]
                            },
                        )
                    },
                }
            }),
    {
        self.tick_save(regs, ring);
        match self.get_next_process() {
            None => TickDecision::Idle,
            Some(i) => self.tick_switch(i),
        }
    }

    /// Returns the total number of ticks since the scheduler was created.
    pub fn get_total_ticks(&self) -> (r: u64)
        ensures
            r == self.total_ticks,
    {
        self.total_ticks
    }
}

/// The scheduler's maintained accounting is exact: `priority_sum` is the
/// sum of the priorities and `priority_max` the maximum priority across the
/// whole process set.
pub proof fn lemma_priority_accounting(s: Scheduler)
    requires
        s.wf(),
    ensures
        s.priority_sum == sum_pri(s.processes@),
        s.priority_max == max_pri(s.processes@),
{
}

/// Any process the selection algorithm picks is `Running` and strictly
/// within its quantum budget at selection time.
pub proof fn lemma_selection_within_budget(s: Scheduler)
    requires
        s.wf(),
    ensures
        s.selection_spec() matches Some(i) ==> {
            &&& 0 <= i < s.processes@.len()
            &&& s.processes@[i].state == State::Running
            &&& (s.processes@[i].quantum_count as int) < quantum_budget_spec(
                s.processes@[i].priority as int,
                s.priority_sum as int,
                s.priority_max as int,
                s.processes@.len() as int,
            )
        },
{
    let ps = s.processes@;
    let n = ps.len() as int;
    let sum = s.priority_sum as int;
    let mx = s.priority_max as int;
    if n > 0 {
        if s.curr_proc is Some {
            Scheduler::lemma_find_pid_correct(ps, s.curr_proc->0);
        }
        let ci = match s.curr_proc {
            Some(pid) => match Scheduler::find_pid(ps, pid) {
                Some(i) => i,
                None => 0,
            },
            None => 0,
        };
        lemma_first_eligible_sound(ps, ci + 1, n, sum, mx);
        lemma_first_eligible_sound(ps, 0, n, sum, mx);
        match first_eligible_in(ps, ci + 1, n, sum, mx) {
            Some(i) => {
                assert(eligible_in(ps, i, sum, mx));
            },
            None => {
                match first_eligible_in(ps, 0, n, sum, mx) {
                    Some(i) => {
                        assert(eligible_in(ps, i, sum, mx));
                    },
                    None => {},
                }
            },
        }
    }
}

} // verus!
