//! Interrupt event dispatch: priority-ordered callback chains for each
//! interrupt vector, and the decision model that picks what to do once the
//! chain has run.

use vstd::prelude::*;
use crate::errno::Errno;

verus! {

/// The number of interrupt vectors.
pub const VECTORS_COUNT: usize = 256;

/// The number of vectors reserved for CPU exceptions; an unhandled
/// interrupt on one of them is fatal.
pub const EXCEPTIONS_COUNT: u32 = 32;

/// The action to execute after the interrupt handlers have returned.
#[derive(Clone, Copy, Debug, PartialEq, Eq, Structural)]
pub enum InterruptResultAction {
    /// Resume the execution of the code where it was interrupted.
    Resume,
    /// Acknowledge the interrupt controller, reset the stack to a scratch
    /// area and go back to the kernel loop to wait for the next interrupt.
    Loop,
    /// Make the kernel panic.
    Panic,
}

/// What one callback answers: the action to take so far, and whether the
/// callbacks after it in the chain are skipped.
#[derive(Clone, Copy, Debug, PartialEq, Eq, Structural)]
pub struct InterruptResult {
    /// Whether to skip the callbacks with lower priority.
    pub skip_next: bool,
    /// The action to execute after the handler; the last callback that ran
    /// decides.
    pub action: InterruptResultAction,
}

impl InterruptResult {
    /// Creates a new instance.
    pub fn new(skip_next: bool, action: InterruptResultAction) -> (r: InterruptResult)
        ensures
            r.skip_next == skip_next,
            r.action == action,
    {
        InterruptResult { skip_next, action }
    }
}

/// A registered callback: destroying it unregisters the callback.
#[derive(Clone, Copy, Debug, PartialEq, Eq, Structural)]
pub struct CallbackHook {
    /// The interrupt vector the callback watches.
    pub vector: u32,
    /// The registration identifier, unique across the registry.
    pub id: u64,
}

/// The initial decision for a vector: a CPU exception without a handler is
/// fatal, any other interrupt resumes.
pub open spec fn initial_action(vector: u32) -> InterruptResultAction {
    if vector < EXCEPTIONS_COUNT {
        InterruptResultAction::Panic
    } else {
        InterruptResultAction::Resume
    }
}

/// The decision the dispatcher reaches from `current` after the chain
/// answered `results`, in order: each answer overwrites the action, and
/// `skip_next` ends the chain.
pub open spec fn dispatch_from(
    current: InterruptResultAction,
    results: Seq<InterruptResult>,
) -> InterruptResultAction
    decreases results.len(),
{
    if results.len() == 0 {
        current
    } else if results[0].skip_next {
        results[0].action
    } else {
        dispatch_from(results[0].action, results.drop_first())
    }
}

/// Runs the dispatcher decision for `vector` over the answers of its
/// callback chain, highest priority first: the initial decision is `Panic`
/// for a CPU exception vector and `Resume` otherwise; each answer
/// overwrites it, and a `skip_next` answer ends the chain.
pub fn dispatch(vector: u32, results: &Vec<InterruptResult>) -> (r: InterruptResultAction)
    ensures
        r == dispatch_from(initial_action(vector), results@),
{
    let mut action = if vector < EXCEPTIONS_COUNT {
        InterruptResultAction::Panic
    } else {
        InterruptResultAction::Resume
    };
    let mut i: usize = 0;
    proof {
        assert(results@.skip(0) =~= results@);
    }
    while i < results.len()
        invariant
            i <= results.len(),
            dispatch_from(initial_action(vector), results@)
                == dispatch_from(action, results@.skip(i as int)),
        decreases results.len() - i,
    {
        proof {
            assert(results@.skip(i as int)[0] == results@[i as int]);
            assert(results@.skip(i as int).drop_first() =~= results@.skip(i as int + 1));
        }
        let r = results[i];
        action = r.action;
        if r.skip_next {
            return action;
        }
        i += 1;
    }
    action
}

/// The per-vector callback chains: for each interrupt vector, the ordered
/// list of `(priority, identifier)` registrations, highest priority first
/// and ties kept in registration order.
pub struct CallbackRegistry {
    /// One chain per vector, ordered by decreasing priority.
    pub vectors: Vec<Vec<(u32, u64)>>,
    /// The identifier the next registration receives.
    pub next_id: u64,
}

impl CallbackRegistry {
    /// The registry invariant: one chain per vector, each ordered by
    /// decreasing priority, every identifier granted below `next_id`.
    pub open spec fn wf(self) -> bool {
        &&& self.vectors.len() == VECTORS_COUNT
        &&& forall|v: int, i: int, j: int|
            0 <= v < self.vectors.len() && 0 <= i < j < self.vectors[v].len()
                ==> (#[trigger] self.vectors[v][i]).0 >= (#[trigger] self.vectors[v][j]).0
        &&& forall|v: int, i: int|
            0 <= v < self.vectors.len() && 0 <= i < self.vectors[v].len()
                ==> (#[trigger] self.vectors[v][i]).1 < self.next_id
        &&& forall|v: int, i: int, j: int|
            0 <= v < self.vectors.len() && 0 <= i < j < self.vectors[v].len()
                ==> (#[trigger] self.vectors[v][i]).1 != (#[trigger] self.vectors[v][j]).1
    }

    /// Creates a registry with no callback registered.
    pub fn new() -> (r: CallbackRegistry)
        ensures
            r.wf(),
            forall|v: int| 0 <= v < VECTORS_COUNT ==> (#[trigger] r.vectors[v]).len() == 0,
    {
        let mut vectors: Vec<Vec<(u32, u64)>> = Vec::new();
        let mut i: usize = 0;
        while i < VECTORS_COUNT
            invariant
                i <= VECTORS_COUNT,
                vectors.len() == i,
                forall|v: int| 0 <= v < i ==> (#[trigger] vectors[v]).len() == 0,
            decreases VECTORS_COUNT - i,
        {
            vectors.push(Vec::new());
            i += 1;
        }
        CallbackRegistry { vectors, next_id: 0 }
    }

    /// Registers a callback for vector `id` with priority `priority`:
    /// inserts it after every callback of higher or equal priority, so
    /// that ties run in registration order, and returns the hook whose
    /// destruction unregisters it. Fails with `InvalidArgument` if and
    /// only if the vector does not exist.
    pub fn register_callback(&mut self, id: usize, priority: u32)
        -> (r: Result<CallbackHook, Errno>)
        requires
            old(self).wf(),
            old(self).next_id < u64::MAX,
        ensures
            final(self).wf(),
            r is Ok <==> id < VECTORS_COUNT,
            r is Err ==> *final(self) == *old(self)
                && r == Result::<CallbackHook, Errno>::Err(Errno::InvalidArgument),
            r matches Ok(h) ==> {
                &&& h.vector == id
                &&& h.id == old(self).next_id
                &&& final(self).next_id == old(self).next_id + 1
                &&& exists|k: int|
                    0 <= k <= old(self).vectors[id as int].len()
                    && final(self).vectors[id as int]@
                        == old(self).vectors[id as int]@.insert(k, (priority, h.id))
                    && (forall|j: int| 0 <= j < k
                        ==> old(self).vectors[id as int][j].0 >= priority)
                    && (forall|j: int| k <= j < old(self).vectors[id as int].len()
                        ==> old(self).vectors[id as int][j].0 < priority)
                &&& forall|v: int| 0 <= v < VECTORS_COUNT && v != id
                    ==> final(self).vectors[v] == old(self).vectors[v]
            },
    {
        if id >= VECTORS_COUNT {
            return Err(Errno::InvalidArgument);
        }
        let hook = CallbackHook { vector: id as u32, id: self.next_id };
        let mut chain = self.vectors.remove(id);
        let ghost chain0 = chain@;
        let mut k: usize = 0;
        while k < chain.len() && chain[k].0 >= priority
            invariant
                k <= chain.len(),
                chain@ == chain0,
                forall|j: int| 0 <= j < k ==> chain0[j].0 >= priority,
            decreases chain.len() - k,
        {
            k += 1;
        }
        proof {
            assert forall|j: int| k <= j < chain0.len() implies chain0[j].0 < priority by {
                if j > k {
                    assert(chain0[k as int].0 >= chain0[j].0);
                }
            }
        }
        chain.insert(k, (priority, hook.id));
        self.vectors.insert(id, chain);
        self.next_id = self.next_id + 1;
        proof {
            assert(self.vectors@ =~= old(self).vectors@.update(
                id as int,
                self.vectors@[id as int],
            ));
            assert forall|v: int, i: int, j: int|
                0 <= v < self.vectors.len() && 0 <= i < j < self.vectors[v].len()
                implies (#[trigger] self.vectors[v][i]).0
                    >= (#[trigger] self.vectors[v][j]).0 by {
                if v != id {
                    assert(self.vectors[v] == old(self).vectors[v]);
                } else {
                    assert(self.vectors[v]@ == chain0.insert(k as int, (priority, hook.id)));
                }
            }
        }
        Ok(hook)
    }

    /// Unregisters the callback `hook` names, as the destruction of the
    /// hook does. Identifiers are granted once, so at most one chain entry
    /// leaves.
    pub fn unregister(&mut self, hook: &CallbackHook)
        requires
            old(self).wf(),
            (hook.vector as int) < VECTORS_COUNT,
        ensures
            final(self).wf(),
            final(self).next_id == old(self).next_id,
            forall|v: int| 0 <= v < VECTORS_COUNT && v != hook.vector
                ==> final(self).vectors[v] == old(self).vectors[v],
            forall|i: int| 0 <= i < final(self).vectors[hook.vector as int].len()
                ==> (#[trigger] final(self).vectors[hook.vector as int][i]).1 != hook.id,
            forall|i: int| 0 <= i < old(self).vectors[hook.vector as int].len()
                && (#[trigger] old(self).vectors[hook.vector as int][i]).1 != hook.id
                ==> final(self).vectors[hook.vector as int]@.contains(
                    old(self).vectors[hook.vector as int][i],
                ),
    {
        let v = hook.vector as usize;
        let mut chain = self.vectors.remove(v);
        let ghost chain0 = chain@;
        let mut i: usize = 0;
        while i < chain.len() && chain[i].1 != hook.id
            invariant
                i <= chain.len(),
                chain@ == chain0,
                forall|j: int| 0 <= j < i ==> (#[trigger] chain0[j]).1 != hook.id,
            decreases chain.len() - i,
        {
            i += 1;
        }
        if i < chain.len() {
            let t = i;
            chain.remove(t);
            proof {
                assert(forall|a: int| 0 <= a < chain@.len()
                    ==> #[trigger] chain@[a] == (if a < t { chain0[a] } else {
                        chain0[a + 1]
                    }));
                assert forall|a: int| 0 <= a < chain@.len()
                    implies (#[trigger] chain@[a]).1 != hook.id by {
                    if a >= t {
                        assert(chain0[t as int].1 != chain0[a + 1].1);
                    }
                }
                assert forall|a: int| 0 <= a < chain0.len() && (#[trigger] chain0[a]).1 != hook.id
                    implies chain@.contains(chain0[a]) by {
                    if a < t {
                        assert(chain@[a] == chain0[a]);
                    } else {
                        assert(chain0[t as int].1 == hook.id);
                        assert(a != t);
                        assert(chain@[a - 1] == chain0[a]);
                    }
                }
            }
        }
        self.vectors.insert(v, chain);
        proof {
            assert(self.vectors@ =~= old(self).vectors@.update(
                v as int,
                self.vectors@[v as int],
            ));
        }
    }
}

/// Returns the human-readable name of the CPU exception vector `i`, or
/// `"Unknown"` for a vector that is not a named exception.
pub fn get_error_message(i: u32) -> (r: &'static str) {
    match i {
        0 => "Divide-by-zero Error",
        1 => "Debug",
        2 => "Non-maskable Interrupt",
        3 => "Breakpoint",
        4 => "Overflow",
        5 => "Bound Range Exceeded",
        6 => "Invalid Opcode",
        7 => "Device Not Available",
        8 => "Double Fault",
        9 => "Coprocessor Segment Overrun",
        10 => "Invalid TSS",
        11 => "Segment Not Present",
        12 => "Stack-Segment Fault",
        13 => "General Protection Fault",
        14 => "Page Fault",
        16 => "x87 Floating-Point Exception",
        17 => "Alignement Check",
        18 => "Machine Check",
        19 => "SIMD Floating-Point Exception",
        20 => "Virtualization Exception",
        30 => "Security Exception",
        _ => "Unknown",
    }
}

} // verus!
