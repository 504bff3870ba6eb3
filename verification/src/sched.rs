//! The kernel state and the cooperative scheduler.
//!
//! One run queue, per-context CPU ownership, and explicit yields.  A switch
//! resets the tick counter, takes the switch lock, adopts unowned contexts
//! and wakes due sleepers, then picks the first runnable context after the
//! current one in id order, wrapping once.  The fuse paths move a caller
//! into its callee and back: `fuse_switch` blocks the caller and runs the
//! callee, `fuse_return` wakes the caller when the callee exits.  What the
//! hardware would do after the pick - load registers, drop to ring 3 - is
//! returned to the caller as a description of the entry to perform.

use vstd::prelude::*;
use crate::context::{Context, ContextList, Status};
use crate::loader::ModuleCache;
use crate::ring::Ring;
use crate::rpc::CallQueue;
use crate::consts::{KERNEL_VALLOC_OFFSET, USER_STACK_OFFSET, USER_STACK_SIZE};

verus! {

/// The whole kernel state the core works on: the context table and its
/// current-context cursor, the module cache, the remote-call registry, and
/// the transmit ring toward the peer.
pub struct Kernel {
    pub contexts: ContextList,
    pub current_id: u64,
    pub cpu_id: u32,
    pub cpu_count: u32,
    pub ticks: u64,
    pub tss_stack: u64,
    pub switch_lock: bool,
    pub cache: ModuleCache,
    pub call_queue: CallQueue,
    pub next_call_id: u64,
    pub tx: Ring,
}

impl Kernel {
    /// Table and queue invariants, bounded kernel stacks, and every parked
    /// call id below the id cursor.
    pub open spec fn wf(self) -> bool {
        &&& self.contexts.wf()
        &&& self.call_queue.wf()
        &&& self.tx.wf()
        &&& self.cache.modules@.len() >= 1
        &&& crate::call::module_images_ok(self.cache)
        &&& forall|i: int| 0 <= i < self.contexts.entries@.len() ==> kstack_ok(
            #[trigger] self.contexts.entries@[i],
        )
        &&& crate::rpc::queue_bounded(self.call_queue.entries@, self.next_call_id)
    }
}

/// Id of the context this CPU is running.
pub fn context_id(k: &Kernel) -> (r: u64)
    ensures
        r == k.current_id,
{
    k.current_id
}

/// This CPU's scheduling id.
pub fn cpu_id(k: &Kernel) -> (r: u32)
    ensures
        r == k.cpu_id,
{
    k.cpu_id
}

/// How many CPUs can have work scheduled.
pub fn cpu_count(k: &Kernel) -> (r: u32)
    ensures
        r == k.cpu_count,
{
    k.cpu_count
}

/// A kernel stack, when present, is well-formed, kernel-mapped, and of a
/// bounded size, so the TSS pointer arithmetic cannot wrap.
pub open spec fn kstack_ok(c: Context) -> bool {
    match c.kstack {
        Some(m) => m.wf() && m.is_kernel_mapped() && !m.is_shared() && m.spec_page_count()
            <= 0x1000,
        None => true,
    }
}

/// What the architecture layer is asked to do after a pick: enter user code
/// at `func` with the given stack pointer and argument-region address.
#[derive(Debug, Clone, Copy, PartialEq, Eq, Structural)]
pub struct UserEntry {
    pub func: u64,
    pub sp: u64,
    pub args: u64,
}

/// A sleeping context is due at `now`.
pub open spec fn wake_due(w: (u64, u64), now: (u64, u64)) -> bool {
    now.0 > w.0 || (now.0 == w.0 && now.1 >= w.1)
}

/// The update pass over one context: adopt it if unowned, wake it if due.
pub open spec fn upd_ctx(c: Context, cpu: u32, now: (u64, u64)) -> Context {
    let c1 = if c.cpu_id is None {
        Context { cpu_id: Some(cpu), ..c }
    } else {
        c
    };
    if c1.status == Status::Blocked && c1.wake is Some && wake_due(c1.wake->0, now) {
        Context { wake: None, status: Status::Runnable, ..c1 }
    } else {
        c1
    }
}

/// The update pass over the whole table.
pub open spec fn upd_entries(s: Seq<Context>, cpu: u32, now: (u64, u64)) -> Seq<Context> {
    Seq::new(s.len(), |i: int| upd_ctx(s[i], cpu, now))
}

/// A context this CPU may enter: runnable or new, and owned by this CPU.
pub open spec fn runnable_spec(c: Context, cpu: u32) -> bool {
    (c.status == Status::Runnable || c.status == Status::New) && c.cpu_id == Some(cpu)
}

/// First index in `[lo, hi)` holding a context this CPU may enter.
pub open spec fn first_runnable(s: Seq<Context>, cpu: u32, lo: int, hi: int) -> Option<int>
    decreases hi - lo,
{
    if lo < 0 || lo >= hi || hi > s.len() {
        None
    } else if runnable_spec(s[lo], cpu) {
        Some(lo)
    } else {
        first_runnable(s, cpu, lo + 1, hi)
    }
}

/// The pick: first runnable after the current index, else first runnable
/// before it, else none.
pub open spec fn pick_spec(s: Seq<Context>, cpu: u32, from: int) -> Option<int> {
    match first_runnable(s, cpu, from + 1, s.len() as int) {
        Some(i) => Some(i),
        None => first_runnable(s, cpu, 0, from),
    }
}

/// A scan that passed over `[lo, i)` without a hit fixes the spec's answer.
proof fn lemma_first_runnable_step(s: Seq<Context>, cpu: u32, lo: int, i: int, hi: int)
    requires
        0 <= lo <= i <= hi <= s.len(),
        forall|j: int| lo <= j < i ==> !runnable_spec(#[trigger] s[j], cpu),
    ensures
        first_runnable(s, cpu, lo, hi) == first_runnable(s, cpu, i, hi),
    decreases i - lo,
{
    if lo < i {
        lemma_first_runnable_step(s, cpu, lo + 1, i, hi);
    }
}

/// Apply the update pass to one context in place.
pub fn update(c: &mut Context, cpu: u32, now: (u64, u64))
    ensures
        *final(c) == upd_ctx(*old(c), cpu, now),
{
    if c.cpu_id.is_none() {
        c.cpu_id = Some(cpu);
    }
    if c.status == Status::Blocked {
        if let Option::Some(wake) = c.wake {
            if now.0 > wake.0 || (now.0 == wake.0 && now.1 >= wake.1) {
                c.wake = None;
                c.status = Status::Runnable;
            }
        }
    }
}

/// Whether this CPU may enter the context.
pub fn runnable(c: &Context, cpu: u32) -> (r: bool)
    ensures
        r == runnable_spec(*c, cpu),
{
    (c.status == Status::Runnable || c.status == Status::New) && c.cpu_id == Some(cpu)
}

/// The TSS stack pointer for a context: top of its kernel stack on the
/// kernel side.
pub open spec fn tss_for(c: Context, prev: u64) -> u64 {
    match c.kstack {
        Some(m) => (KERNEL_VALLOC_OFFSET + m.bytes().len()) as u64,
        None => prev,
    }
}

/// What the table looks like after a successful pick: the previous context
/// demoted from Running to Runnable, the target promoted to Running.
pub open spec fn after_pick(s: Seq<Context>, from: int, ti: int) -> Seq<Context> {
    let s1 = if s[from].status == Status::Running {
        s.update(from, Context { status: Status::Runnable, ..s[from] })
    } else {
        s
    };
    s1.update(ti, Context { status: Status::Running, ..s1[ti] })
}

/// The scheduler's update pass: adopt unowned contexts for this CPU and
/// wake due sleepers; everything but the context records is untouched.
fn update_pass(k: &mut Kernel, now: (u64, u64))
    requires
        old(k).wf(),
    ensures
        final(k).wf(),
        final(k).contexts.entries@ == upd_entries(
            old(k).contexts.entries@,
            old(k).cpu_id,
            now,
        ),
        final(k).contexts.next_id == old(k).contexts.next_id,
        final(k).current_id == old(k).current_id,
        final(k).cpu_id == old(k).cpu_id,
        final(k).cpu_count == old(k).cpu_count,
        final(k).ticks == old(k).ticks,
        final(k).tss_stack == old(k).tss_stack,
        final(k).switch_lock == old(k).switch_lock,
        final(k).cache == old(k).cache,
        final(k).call_queue == old(k).call_queue,
        final(k).next_call_id == old(k).next_call_id,
        final(k).tx == old(k).tx,
{
    let cpu = k.cpu_id;
    let ghost olds = k.contexts.entries@;
    let ghost s = upd_entries(olds, cpu, now);
    let n = k.contexts.entries.len();
    let mut i: usize = 0;
    while i < n
        invariant
            i <= n,
            n == k.contexts.entries@.len(),
            olds.len() == n,
            s == upd_entries(olds, cpu, now),
            forall|j: int| 0 <= j < i ==> k.contexts.entries@[j] == s[j],
            forall|j: int| i <= j < n ==> k.contexts.entries@[j] == olds[j],
            cpu == old(k).cpu_id,
            k.contexts.next_id == old(k).contexts.next_id,
            k.current_id == old(k).current_id,
            k.cpu_id == old(k).cpu_id,
            k.cpu_count == old(k).cpu_count,
            k.ticks == old(k).ticks,
            k.cache == old(k).cache,
            k.call_queue == old(k).call_queue,
            k.tx == old(k).tx,
            k.next_call_id == old(k).next_call_id,
            k.tss_stack == old(k).tss_stack,
            k.switch_lock == old(k).switch_lock,
            old(k).wf(),
        decreases n - i,
    {
        let mut c = k.contexts.entries.remove(i);
        update(&mut c, cpu, now);
        k.contexts.entries.insert(i, c);
        proof {
            assert(k.contexts.entries@[i as int] == upd_ctx(olds[i as int], cpu, now));
            assert forall|j: int| 0 <= j < i + 1 implies k.contexts.entries@[j] == s[j] by {}
        }
        i = i + 1;
    }
    proof {
        assert(k.contexts.entries@ =~= s);
        assert forall|a: int, b: int| 0 <= a < b < s.len() implies #[trigger] s[a].id
            < #[trigger] s[b].id by {
            assert(s[a].id == olds[a].id);
            assert(s[b].id == olds[b].id);
        }
        assert forall|a: int| 0 <= a < s.len() implies 1 <= (#[trigger] s[a]).id
            < crate::context::CONTEXT_MAX_CONTEXTS by {
            assert(s[a].id == olds[a].id);
        }
        assert forall|a: int| 0 <= a < s.len() implies kstack_ok(#[trigger] s[a]) by {
            assert(olds[a] == old(k).contexts.entries@[a]);
            assert(kstack_ok(olds[a]));
        }
        assert(k.contexts.wf());
    }
}

/// Pick and enter the next context: reset the ticks, run the update pass,
/// then take the first context after the current one in id order that this
/// CPU may enter, wrapping once.  Returns the picked context's id and
/// whether it is entered through the user path (a New context), or `None`
/// when nothing else can run - the idle loop then halts with interrupts on,
/// and the current context keeps the CPU.
#[verifier::rlimit(100)]
#[verifier::spinoff_prover]
pub fn switch(k: &mut Kernel, now: (u64, u64)) -> (r: Option<(u64, bool)>)
    requires
        old(k).wf(),
        !old(k).switch_lock,
        old(k).contexts.contains_id(old(k).current_id),
    ensures
        final(k).wf(),
        !final(k).switch_lock,
        final(k).ticks == 0,
        final(k).cache == old(k).cache,
        final(k).call_queue == old(k).call_queue,
        final(k).tx == old(k).tx,
        final(k).next_call_id == old(k).next_call_id,
        ({
            let s = upd_entries(old(k).contexts.entries@, old(k).cpu_id, now);
            let from = old(k).contexts.index_of(old(k).current_id);
            match r {
                Option::None => {
                    &&& pick_spec(s, old(k).cpu_id, from) is None
                    &&& final(k).contexts.entries@ == s
                    &&& final(k).current_id == old(k).current_id
                    &&& final(k).tss_stack == old(k).tss_stack
                },
                Option::Some(p) => {
                    &&& pick_spec(s, old(k).cpu_id, from) is Some
                    &&& {
                        let ti = pick_spec(s, old(k).cpu_id, from)->0;
                        &&& p.0 == s[ti].id
                        &&& p.1 == (s[ti].status == Status::New)
                        &&& final(k).contexts.entries@ == after_pick(s, from, ti)
                        &&& final(k).current_id == s[ti].id
                        &&& final(k).tss_stack == tss_for(s[ti], old(k).tss_stack)
                    }
                },
            }
        }),
{
    k.ticks = 0;
    k.switch_lock = true;
    let cpu = k.cpu_id;
    let ghost olds = k.contexts.entries@;
    let ghost s = upd_entries(olds, cpu, now);
    update_pass(k, now);
    let n = k.contexts.entries.len();
    proof {
        assert(old(k).contexts.contains_id(old(k).current_id));
        let j = old(k).contexts.index_of(old(k).current_id);
        assert(olds[j].id == old(k).current_id);
        assert(s[j].id == olds[j].id);
        assert(k.contexts.contains_id(k.current_id));
    }
    // Locate the current context.
    let from = match k.contexts.find(k.current_id) {
        Option::Some(f) => f,
        Option::None => {
            // Unreachable: the current id was shown present above.
            k.switch_lock = false;
            proof {
                assert(false);
            }
            return None;
        },
    };
    proof {
        crate::context::lemma_sorted_index_unique(
            s,
            from as int,
            old(k).contexts.index_of(old(k).current_id),
        );
        assert(s[from as int].id == old(k).current_id);
    }
    // Pick pass one: first runnable strictly after the current context.
    let ghost ksnap = *k;
    let mut target: Option<usize> = None;
    let mut i: usize = from + 1;
    while i < n
        invariant_except_break
            *k == ksnap,
            from < n,
            from + 1 <= i <= n,
            n == k.contexts.entries@.len(),
            s == k.contexts.entries@,
            target is None,
            forall|j: int| from + 1 <= j < i ==> !runnable_spec(#[trigger] s[j], cpu),
        ensures
            *k == ksnap,
            n == k.contexts.entries@.len(),
            s == k.contexts.entries@,
            from < n,
            match target {
                Some(t) => from < t < n && runnable_spec(s[t as int], cpu) && forall|j: int|
                    from + 1 <= j < t ==> !runnable_spec(#[trigger] s[j], cpu),
                None => forall|j: int| from + 1 <= j < n ==> !runnable_spec(
                    #[trigger] s[j],
                    cpu,
                ),
            },
        decreases n - i,
    {
        let is_r = runnable(vstd::std_specs::vec::vec_index(&k.contexts.entries, i), cpu);
        if is_r {
            target = Some(i);
            break;
        }
        i = i + 1;
    }
    // Pick pass two: wrap and look before the current context.
    if target.is_none() {
        let mut i: usize = 0;
        while i < from
            invariant_except_break
                *k == ksnap,
                from < n,
                i <= from,
                n == k.contexts.entries@.len(),
                s == k.contexts.entries@,
                target is None,
                forall|j: int| 0 <= j < i ==> !runnable_spec(#[trigger] s[j], cpu),
            ensures
                *k == ksnap,
                n == k.contexts.entries@.len(),
                s == k.contexts.entries@,
                from < n,
                match target {
                    Some(t) => t < from && runnable_spec(s[t as int], cpu) && forall|j: int|
                        0 <= j < t ==> !runnable_spec(#[trigger] s[j], cpu),
                    None => forall|j: int| 0 <= j < from ==> !runnable_spec(
                        #[trigger] s[j],
                        cpu,
                    ),
                },
            decreases from - i,
        {
            let is_r = runnable(vstd::std_specs::vec::vec_index(&k.contexts.entries, i), cpu);
            if is_r {
                target = Some(i);
                break;
            }
            i = i + 1;
        }
        proof {
            match target {
                Some(t) => {
                    lemma_first_runnable_step(s, cpu, from + 1, n as int, n as int);
                    lemma_first_runnable_step(s, cpu, 0, t as int, from as int);
                    assert(first_runnable(s, cpu, t as int, from as int) == Some(t as int));
                },
                None => {
                    lemma_first_runnable_step(s, cpu, from + 1, n as int, n as int);
                    lemma_first_runnable_step(s, cpu, 0, from as int, from as int);
                },
            }
        }
    } else {
        proof {
            let t = target->0;
            lemma_first_runnable_step(s, cpu, from + 1, t as int, n as int);
            assert(first_runnable(s, cpu, t as int, n as int) == Some(t as int));
        }
    }
    let ti = match target {
        Option::Some(t) => t,
        Option::None => {
            k.switch_lock = false;
            proof {
                assert(k.contexts.entries@ =~= s);
            }
            return None;
        },
    };
    // Demote the current context if it was running, promote the target.
    let ghost from_i = from as int;
    let mut from_ctx = k.contexts.entries.remove(from);
    let was_running = from_ctx.status == Status::Running;
    if was_running {
        from_ctx.status = Status::Runnable;
    }
    k.contexts.entries.insert(from, from_ctx);
    let ghost s1 = k.contexts.entries@;
    proof {
        if was_running {
            assert(s1 =~= s.update(from_i, Context { status: Status::Runnable, ..s[from_i] }));
        } else {
            assert(s1 =~= s);
        }
    }
    let mut to_ctx = k.contexts.entries.remove(ti);
    let to_user = to_ctx.status == Status::New;
    let to_id = to_ctx.id;
    to_ctx.status = Status::Running;
    if let Option::Some(stack) = &to_ctx.kstack {
        let top = stack.len_bytes();
        k.tss_stack = KERNEL_VALLOC_OFFSET + top as u64;
    }
    k.contexts.entries.insert(ti, to_ctx);
    k.current_id = to_id;
    k.switch_lock = false;
    proof {
        assert(k.contexts.entries@ =~= s1.update(
            ti as int,
            Context { status: Status::Running, ..s1[ti as int] },
        ));
        assert(k.contexts.entries@ == after_pick(s, from_i, ti as int));
        assert forall|a: int, b: int| 0 <= a < b < k.contexts.entries@.len() implies
            #[trigger] k.contexts.entries@[a].id < #[trigger] k.contexts.entries@[b].id by {
            assert(k.contexts.entries@[a].id == s[a].id);
            assert(k.contexts.entries@[b].id == s[b].id);
        }
    }
    Some((to_id, to_user))
}

/// Enter a fused callee: block its caller, mark the callee running, install
/// its kernel stack in the TSS, and hand back the user entry to perform -
/// the callee's function, the top of the user stack, and its argument
/// region.
#[verifier::rlimit(100)]
pub fn fuse_switch(k: &mut Kernel, to_id: u64, func: u64) -> (r: Result<UserEntry, ()>)
    requires
        old(k).wf(),
        !old(k).switch_lock,
    ensures
        final(k).wf(),
        !final(k).switch_lock,
        final(k).cache == old(k).cache,
        final(k).call_queue == old(k).call_queue,
        final(k).tx == old(k).tx,
        final(k).next_call_id == old(k).next_call_id,
        r is Err ==> final(k).contexts.entries@ == old(k).contexts.entries@ && final(k).current_id == old(k).current_id,
        old(k).contexts.contains_id(to_id) && old(k).contexts.entries@[old(k).contexts.index_of(to_id)].ret_link is Some ==> r is Ok,
        r is Ok ==> {
            &&& old(k).contexts.contains_id(to_id)
            &&& ({
                let ti = old(k).contexts.index_of(to_id);
                let to = old(k).contexts.entries@[ti];
                &&& to.ret_link is Some
                &&& final(k).ticks == 0
                &&& final(k).current_id == to_id
                &&& final(k).contexts.contains_id(to_id)
                &&& final(k).contexts.entries@[final(k).contexts.index_of(to_id)] == (Context {
                    status: Status::Running,
                    ..to
                })
                &&& final(k).tss_stack == tss_for(to, old(k).tss_stack)
                &&& (old(k).contexts.contains_id(to.ret_link->0) && to.ret_link->0 != to_id
                    ==> final(k).contexts.entries@[final(k).contexts.index_of(to.ret_link->0)]
                    == (Context {
                    status: Status::Blocked,
                    ..old(k).contexts.entries@[old(k).contexts.index_of(to.ret_link->0)]
                }))
                &&& r->Ok_0.func == func
                &&& r->Ok_0.sp == USER_STACK_OFFSET + USER_STACK_SIZE - 256
                &&& r->Ok_0.args == (match to.args.spec_memory() {
                    Some(m) => m.spec_context_address(),
                    None => 0,
                })
                &&& forall|id2: u64| old(k).contexts.contains_id(id2) <==> final(k).contexts.contains_id(id2)
                &&& forall|id2: u64| id2 != to_id && id2 != to.ret_link->0 && old(k).contexts.contains_id(id2) ==> final(k).contexts.entries@[final(k).contexts.index_of(id2)] == old(k).contexts.entries@[old(k).contexts.index_of(id2)]
            })
        },
{
    k.ticks = 0;
    k.switch_lock = true;
    let ghost olds = k.contexts.entries@;
    let ti = match k.contexts.find(to_id) {
        Option::Some(t) => t,
        Option::None => {
            k.switch_lock = false;
            return Err(());
        },
    };
    proof {
        if old(k).contexts.contains_id(to_id) {
            crate::context::lemma_sorted_index_unique(
                olds,
                old(k).contexts.index_of(to_id),
                ti as int,
            );
        }
    }
    let parent_opt = vstd::std_specs::vec::vec_index(&k.contexts.entries, ti).ret_link;
    let parent = match parent_opt {
        Option::Some(p) => p,
        Option::None => {
            k.switch_lock = false;
            return Err(());
        },
    };
    let pi_opt = k.contexts.find(parent);
    // Promote the callee and remember its argument region.
    let mut to_ctx = k.contexts.entries.remove(ti);
    to_ctx.status = Status::Running;
    let args_address = match to_ctx.args.memory() {
        Option::Some(m) => m.context_address(),
        Option::None => 0,
    };
    if let Option::Some(stack) = &to_ctx.kstack {
        let top = stack.len_bytes();
        k.tss_stack = KERNEL_VALLOC_OFFSET + top as u64;
    }
    k.contexts.entries.insert(ti, to_ctx);
    k.current_id = to_id;
    let ghost mids = k.contexts.entries@;
    proof {
        assert(mids =~= olds.update(ti as int, mids[ti as int]));
        assert forall|a: int, b: int| 0 <= a < b < mids.len() implies #[trigger] mids[a].id
            < #[trigger] mids[b].id by {
            assert(mids[a].id == olds[a].id);
            assert(mids[b].id == olds[b].id);
        }
        assert forall|a: int| 0 <= a < mids.len() implies 1 <= (#[trigger] mids[a]).id
            < crate::context::CONTEXT_MAX_CONTEXTS by {
            assert(mids[a].id == olds[a].id);
        }
        assert forall|a: int| 0 <= a < mids.len() implies kstack_ok(#[trigger] mids[a]) by {
            if a != ti as int {
                assert(mids[a] == olds[a]);
            }
        }
    }
    // Block the caller.
    match pi_opt {
        Option::Some(pi) => {
            if pi != ti {
                let mut p_ctx = k.contexts.entries.remove(pi);
                p_ctx.status = Status::Blocked;
                k.contexts.entries.insert(pi, p_ctx);
                proof {
                    let ends = k.contexts.entries@;
                    assert(ends =~= mids.update(pi as int, ends[pi as int]));
                    assert(ends[pi as int].id == mids[pi as int].id);
                    assert(ends[pi as int].status == Status::Blocked);
                    assert(ends[ti as int] == mids[ti as int]);
                    assert forall|a: int, b: int| 0 <= a < b < ends.len() implies
                        #[trigger] ends[a].id < #[trigger] ends[b].id by {
                        assert(ends[a].id == mids[a].id);
                        assert(ends[b].id == mids[b].id);
                    }
                    assert forall|a: int| 0 <= a < ends.len() implies 1 <= (
                    #[trigger] ends[a]).id < crate::context::CONTEXT_MAX_CONTEXTS by {
                        assert(ends[a].id == mids[a].id);
                    }
                    assert forall|a: int| 0 <= a < ends.len() implies kstack_ok(
                        #[trigger] ends[a],
                    ) by {
                        if a != pi as int {
                            assert(ends[a] == mids[a]);
                        }
                    }
                }
            }
        },
        Option::None => {},
    }
    k.switch_lock = false;
    let sp = USER_STACK_OFFSET + USER_STACK_SIZE - 256;
    proof {
        let oldk = old(k);
        let ends = k.contexts.entries@;
        assert(ends.len() == olds.len());
        assert forall|a: int| 0 <= a < ends.len() implies #[trigger] ends[a].id == olds[a].id
            by {}
        assert forall|id2: u64| oldk.contexts.contains_id(id2) implies k.contexts.contains_id(
            id2,
        ) by {
            let j = oldk.contexts.index_of(id2);
            assert(ends[j].id == olds[j].id);
        }
        assert forall|id2: u64| k.contexts.contains_id(id2) implies oldk.contexts.contains_id(
            id2,
        ) by {
            let j = k.contexts.index_of(id2);
            assert(olds[j].id == ends[j].id);
        }
        // The callee entry under its final index.
        assert(olds[ti as int].id == to_id);
        crate::context::lemma_sorted_index_unique(olds, oldk.contexts.index_of(to_id), ti as int);
        assert(ends[ti as int].id == to_id);
        assert(k.contexts.contains_id(to_id));
        crate::context::lemma_sorted_index_unique(ends, k.contexts.index_of(to_id), ti as int);
        assert(ends[ti as int] == (Context { status: Status::Running, ..olds[ti as int] }));
        // The caller entry under its final index.
        match pi_opt {
            Some(pi) => {
                if pi != ti {
                    assert(ends[pi as int].id == parent);
                    assert(k.contexts.contains_id(parent));
                    crate::context::lemma_sorted_index_unique(
                        ends,
                        k.contexts.index_of(parent),
                        pi as int,
                    );
                    assert(olds[pi as int].id == parent);
                    crate::context::lemma_sorted_index_unique(
                        olds,
                        oldk.contexts.index_of(parent),
                        pi as int,
                    );
                    assert(ends[pi as int] == (Context {
                        status: Status::Blocked,
                        ..olds[pi as int]
                    }));
                } else {
                    assert(olds[ti as int].id == parent);
                }
            },
            None => {
                if oldk.contexts.contains_id(parent) {
                    assert(olds[oldk.contexts.index_of(parent)].id == parent);
                }
            },
        }
        // Everything else keeps its record.
        assert forall|id2: u64| id2 != to_id && id2 != parent && oldk.contexts.contains_id(
            id2,
        ) implies ends[k.contexts.index_of(id2)] == olds[oldk.contexts.index_of(id2)] by {
            let j = oldk.contexts.index_of(id2);
            assert(olds[j].id == id2);
            assert(ends[j].id == id2);
            crate::context::lemma_sorted_index_unique(ends, k.contexts.index_of(id2), j);
            assert(j != ti as int);
            match pi_opt {
                Some(pi) => {
                    if pi != ti {
                        assert(j != pi as int) by {
                            if j == pi as int {
                                assert(olds[pi as int].id == parent);
                            }
                        }
                    }
                },
                None => {},
            }
        }
    }
    Ok(UserEntry { func, sp, args: args_address })
}

/// Return from a fused callee to its caller: wake the caller, mark it
/// running, install its kernel stack, and make it current.  The callee is
/// about to be reaped; its state is left alone.
pub fn fuse_return(k: &mut Kernel, from_id: u64, to_id: u64) -> (r: Result<(), ()>)
    requires
        old(k).wf(),
        !old(k).switch_lock,
    ensures
        final(k).wf(),
        !final(k).switch_lock,
        final(k).cache == old(k).cache,
        final(k).call_queue == old(k).call_queue,
        final(k).tx == old(k).tx,
        final(k).next_call_id == old(k).next_call_id,
        r is Err ==> final(k).contexts.entries@ == old(k).contexts.entries@ && final(k).current_id == old(k).current_id,
        old(k).contexts.contains_id(to_id) ==> r is Ok,
        r is Ok ==> {
            &&& old(k).contexts.contains_id(to_id)
            &&& final(k).current_id == to_id
            &&& final(k).contexts.contains_id(to_id)
            &&& ({
                let ti = final(k).contexts.index_of(to_id);
                let before = old(k).contexts.entries@[old(k).contexts.index_of(to_id)];
                &&& final(k).contexts.entries@[ti].status == Status::Running
                &&& final(k).contexts.entries@[ti].result == before.result
                &&& final(k).contexts.entries@[ti].id == before.id
                &&& final(k).tss_stack == tss_for(before, old(k).tss_stack)
            })
            &&& forall|id2: u64| old(k).contexts.contains_id(id2) <==> final(k).contexts.contains_id(id2)
            &&& forall|id2: u64| id2 != to_id && old(k).contexts.contains_id(id2) ==> final(k).contexts.entries@[final(k).contexts.index_of(id2)] == old(k).contexts.entries@[old(k).contexts.index_of(id2)]
        },
{
    let _ = from_id;
    k.switch_lock = true;
    let ti = match k.contexts.find(to_id) {
        Option::Some(t) => t,
        Option::None => {
            k.switch_lock = false;
            return Err(());
        },
    };
    let ghost olds = k.contexts.entries@;
    let mut to_ctx = k.contexts.entries.remove(ti);
    to_ctx.status = Status::Running;
    if let Option::Some(stack) = &to_ctx.kstack {
        let top = stack.len_bytes();
        k.tss_stack = KERNEL_VALLOC_OFFSET + top as u64;
    }
    k.contexts.entries.insert(ti, to_ctx);
    k.current_id = to_id;
    k.switch_lock = false;
    proof {
        assert(k.contexts.entries@ =~= olds.update(ti as int, k.contexts.entries@[ti as int]));
        assert forall|a: int, b: int| 0 <= a < b < k.contexts.entries@.len() implies
            #[trigger] k.contexts.entries@[a].id < #[trigger] k.contexts.entries@[b].id by {
            assert(k.contexts.entries@[a].id == olds[a].id);
            assert(k.contexts.entries@[b].id == olds[b].id);
        }
        let oldk = old(k);
        assert forall|id2: u64| oldk.contexts.contains_id(id2) implies k.contexts.contains_id(
            id2,
        ) by {
            let j = oldk.contexts.index_of(id2);
            assert(k.contexts.entries@[j].id == olds[j].id);
        }
        assert forall|id2: u64| k.contexts.contains_id(id2) implies oldk.contexts.contains_id(
            id2,
        ) by {
            let j = k.contexts.index_of(id2);
            assert(olds[j].id == k.contexts.entries@[j].id);
        }
        let fi = k.contexts.index_of(to_id);
        crate::context::lemma_sorted_index_unique(k.contexts.entries@, fi, ti as int);
        assert(olds[ti as int].id == to_id);
        crate::context::lemma_sorted_index_unique(olds, oldk.contexts.index_of(to_id), ti as int);
        assert forall|id2: u64| id2 != to_id && oldk.contexts.contains_id(id2) implies
            k.contexts.entries@[k.contexts.index_of(id2)] == olds[oldk.contexts.index_of(id2)]
            by {
            let j = oldk.contexts.index_of(id2);
            assert(k.contexts.entries@[j].id == id2);
            crate::context::lemma_sorted_index_unique(
                k.contexts.entries@,
                k.contexts.index_of(id2),
                j,
            );
        }
    }
    Ok(())
}

} // verus!
