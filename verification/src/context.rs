//! Per-invocation execution state and the global context table.
//!
//! A context is one invocation of a module function: its saved architectural
//! state, kernel stack, image clones, argument region, user stack and heap,
//! and its scheduling status.  The table keys contexts by id, hands out ids
//! from a wrapping cursor, and keeps its entries sorted by id - the order
//! the scheduler walks.

use vstd::prelude::*;
use crate::cxmem::{ContextMemory, ContextValues, Grant};
use crate::mem::{EntryFlags, FLAG_GLOBAL, FLAG_WRITABLE, FLAG_NO_EXECUTE};
use crate::consts::KSTACK_SIZE;

verus! {

/// Scheduling status of a context.
#[derive(Debug, Clone, Copy, PartialEq, Eq, Structural)]
pub enum Status {
    Running,
    Runnable,
    Blocked,
    New,
    Stopped(usize),
    Exited(usize),
}

/// Key a waiting parent stores: a process id, a process-group id, either or
/// neither.
#[derive(Debug, Clone, Copy, PartialEq, Eq, Structural)]
pub struct WaitpidKey {
    pub pid: Option<u64>,
    pub pgid: Option<u64>,
}

/// Three-way comparison outcome.
#[derive(Debug, Clone, Copy, PartialEq, Eq, Structural)]
pub enum KeyOrder {
    Less,
    Equal,
    Greater,
}

impl WaitpidKey {
    /// The ordering `cmp` computes: pids decide when both are set, then
    /// pgids, then a set pid outranks an unset one, then a set pgid.
    pub open spec fn spec_cmp(self, other: WaitpidKey) -> KeyOrder {
        if self.pid is Some && other.pid is Some {
            if self.pid->0 < other.pid->0 {
                KeyOrder::Less
            } else if self.pid->0 > other.pid->0 {
                KeyOrder::Greater
            } else {
                KeyOrder::Equal
            }
        } else if self.pgid is Some && other.pgid is Some {
            if self.pgid->0 < other.pgid->0 {
                KeyOrder::Less
            } else if self.pgid->0 > other.pgid->0 {
                KeyOrder::Greater
            } else {
                KeyOrder::Equal
            }
        } else if self.pid is Some {
            KeyOrder::Greater
        } else if other.pid is Some {
            KeyOrder::Less
        } else if self.pgid is Some {
            KeyOrder::Greater
        } else if other.pgid is Some {
            KeyOrder::Less
        } else {
            KeyOrder::Equal
        }
    }

    /// Compare two wait keys.
    pub fn cmp(&self, other: &WaitpidKey) -> (r: KeyOrder)
        ensures
            r == self.spec_cmp(*other),
    {
        if let Option::Some(s_pid) = self.pid {
            if let Option::Some(o_pid) = other.pid {
                return if s_pid < o_pid {
                    KeyOrder::Less
                } else if s_pid > o_pid {
                    KeyOrder::Greater
                } else {
                    KeyOrder::Equal
                };
            }
        }
        if let Option::Some(s_pgid) = self.pgid {
            if let Option::Some(o_pgid) = other.pgid {
                return if s_pgid < o_pgid {
                    KeyOrder::Less
                } else if s_pgid > o_pgid {
                    KeyOrder::Greater
                } else {
                    KeyOrder::Equal
                };
            }
        }
        if self.pid.is_some() {
            return KeyOrder::Greater;
        }
        if other.pid.is_some() {
            return KeyOrder::Less;
        }
        if self.pgid.is_some() {
            return KeyOrder::Greater;
        }
        if other.pgid.is_some() {
            return KeyOrder::Less;
        }
        KeyOrder::Equal
    }
}

/// The architecture save area: what a context switch stores and loads.
#[derive(Debug, Clone, Copy, PartialEq, Eq, Structural)]
pub struct ArchContext {
    pub fx: u64,
    pub page_table: u64,
    pub stack: u64,
}

impl ArchContext {
    pub fn new() -> (r: ArchContext)
        ensures
            r.fx == 0 && r.page_table == 0 && r.stack == 0,
    {
        ArchContext { fx: 0, page_table: 0, stack: 0 }
    }

    pub fn set_fx(&mut self, address: u64)
        ensures
            *final(self) == (ArchContext { fx: address, ..*old(self) }),
    {
        self.fx = address;
    }

    pub fn set_page_table(&mut self, address: u64)
        ensures
            *final(self) == (ArchContext { page_table: address, ..*old(self) }),
    {
        self.page_table = address;
    }

    pub fn get_page_table(&self) -> (a: u64)
        ensures
            a == self.page_table,
    {
        self.page_table
    }

    pub fn set_stack(&mut self, address: u64)
        ensures
            *final(self) == (ArchContext { stack: address, ..*old(self) }),
    {
        self.stack = address;
    }

    pub fn get_stack(&self) -> (a: u64)
        ensures
            a == self.stack,
    {
        self.stack
    }
}

/// The sentinel module's index in the module cache: the kernel itself.
pub const KERNEL_MODULE: usize = 0;

/// One invocation's execution environment.
pub struct Context {
    /// Table id of this context.
    pub id: u64,
    /// Scheduling status.
    pub status: Status,
    /// For a fused invocation, the id of the blocked caller to return to.
    pub ret_link: Option<u64>,
    /// The CPU that owns this context for scheduling.
    pub cpu_id: Option<u32>,
    /// Wake the context at this monotonic time, if blocked.
    pub wake: Option<(u64, u64)>,
    /// Saved architectural state.
    pub arch: ArchContext,
    /// FX save area for FPU and SIMD state.
    pub kfx: Option<Vec<u8>>,
    /// Kernel stack.
    pub kstack: Option<ContextMemory>,
    /// Image regions cloned from the module.
    pub image: Vec<ContextMemory>,
    /// Argument region the kernel appends encoded values into.
    pub args: ContextValues,
    /// User heap.
    pub heap: Option<ContextMemory>,
    /// User stack.
    pub stack: Option<ContextMemory>,
    /// Physical-memory grants.
    pub grants: Vec<Grant>,
    /// Entry offset of the function this context runs.
    pub function: u64,
    /// Name of that function, when known.
    pub name: Option<Vec<u8>>,
    /// Index of the source module in the module cache.
    pub module: usize,
    /// The encoded return payload a fused callee leaves for its caller.
    pub result: Option<Vec<u8>>,
    /// Whether a stored remote reply arrived as an Error frame rather than
    /// a Return frame.
    pub result_error: bool,
}

impl Context {
    /// A blank context for a module: blocked, unowned, nothing allocated.
    pub fn new(module: usize) -> (c: Context)
        ensures
            c.id == 0,
            c.status == Status::Blocked,
            c.ret_link is None,
            c.cpu_id is None,
            c.wake is None,
            c.kfx is None,
            c.kstack is None,
            c.image@.len() == 0,
            c.args.spec_memory() is None,
            c.args.spec_offset() == 0,
            c.args.wf(),
            c.heap is None,
            c.stack is None,
            c.grants@.len() == 0,
            c.function == 0,
            c.name is None,
            c.module == module,
            c.result is None,
            c.result_error == false,
    {
        Context {
            id: 0,
            status: Status::Blocked,
            ret_link: None,
            cpu_id: None,
            wake: None,
            arch: ArchContext::new(),
            kfx: None,
            kstack: None,
            image: Vec::new(),
            args: ContextValues::new_no_memory(),
            heap: None,
            stack: None,
            grants: Vec::new(),
            function: 0,
            name: None,
            module,
            result: None,
            result_error: false,
        }
    }

    /// Block a runnable context; reports whether it was runnable.
    pub fn block(&mut self) -> (was_runnable: bool)
        ensures
            was_runnable == (old(self).status == Status::Runnable),
            was_runnable ==> *final(self) == (Context { status: Status::Blocked, ..*old(self) }),
            !was_runnable ==> *final(self) == *old(self),
    {
        if self.status == Status::Runnable {
            self.status = Status::Blocked;
            true
        } else {
            false
        }
    }

    /// Unblock a blocked context; reports whether it was blocked.
    pub fn unblock(&mut self) -> (was_blocked: bool)
        ensures
            was_blocked == (old(self).status == Status::Blocked),
            was_blocked ==> *final(self) == (Context { status: Status::Runnable, ..*old(self) }),
            !was_blocked ==> *final(self) == *old(self),
    {
        if self.status == Status::Blocked {
            self.status = Status::Runnable;
            true
        } else {
            false
        }
    }
}

/// Most contexts the table will hold: one below the largest signed count.
pub const CONTEXT_MAX_CONTEXTS: u64 = 0x7FFF_FFFF_FFFF_FFFE;

/// The global context table: entries sorted by id, plus the id cursor.
pub struct ContextList {
    pub entries: Vec<Context>,
    pub next_id: u64,
}

impl ContextList {
    /// Ids are strictly increasing (hence unique), in range, and each entry
    /// knows its own id.
    pub open spec fn wf(self) -> bool {
        &&& forall|i: int, j: int| 0 <= i < j < self.entries@.len()
            ==> #[trigger] self.entries@[i].id < #[trigger] self.entries@[j].id
        &&& forall|i: int| 0 <= i < self.entries@.len() ==> 1 <= (#[trigger] self.entries@[i]).id
            < CONTEXT_MAX_CONTEXTS
        &&& 1 <= self.next_id
    }

    /// Every held id is below the cursor: the state the table keeps when
    /// ids have only ever been handed out by `insert`.
    pub open spec fn ids_below_cursor(self) -> bool {
        forall|i: int| 0 <= i < self.entries@.len() ==> (#[trigger] self.entries@[i]).id
            < self.next_id
    }

    /// Some entry has this id.
    pub open spec fn contains_id(self, id: u64) -> bool {
        exists|i: int| 0 <= i < self.entries@.len() && (#[trigger] self.entries@[i]).id == id
    }

    /// Index of the entry with this id.
    pub open spec fn index_of(self, id: u64) -> int {
        choose|i: int| 0 <= i < self.entries@.len() && (#[trigger] self.entries@[i]).id == id
    }

    /// An empty table; ids start at 1.
    pub fn new() -> (r: ContextList)
        ensures
            r.wf(),
            r.entries@.len() == 0,
            r.next_id == 1,
    {
        ContextList { entries: Vec::new(), next_id: 1 }
    }

    /// Index of the entry with id `id`, if present.
    pub fn find(&self, id: u64) -> (r: Option<usize>)
        requires
            self.wf(),
        ensures
            r is Some <==> self.contains_id(id),
            r is Some ==> r->0 < self.entries@.len() && self.entries@[r->0 as int].id == id,
    {
        let n = self.entries.len();
        let mut i: usize = 0;
        while i < n
            invariant
                i <= n,
                n == self.entries@.len(),
                forall|j: int| 0 <= j < i ==> (#[trigger] self.entries@[j]).id != id,
            decreases n - i,
        {
            if vstd::std_specs::vec::vec_index(&self.entries, i).id == id {
                return Some(i);
            }
            i = i + 1;
        }
        None
    }

    /// Borrow the context with this id.
    pub fn get(&self, id: u64) -> (r: Option<&Context>)
        requires
            self.wf(),
        ensures
            r is Some <==> self.contains_id(id),
            r is Some ==> r->0.id == id && *r->0 == self.entries@[self.index_of(id)],
    {
        match self.find(id) {
            Option::Some(i) => {
                let c = vstd::std_specs::vec::vec_index(&self.entries, i);
                proof {
                    let j = self.index_of(id);
                    assert(self.entries@[j].id == id);
                    if i as int != j {
                        assert(false);
                    }
                }
                Some(c)
            },
            Option::None => None,
        }
    }

    /// Number of live contexts.
    pub fn len(&self) -> (n: usize)
        ensures
            n == self.entries@.len(),
    {
        self.entries.len()
    }

    /// Enqueue a context under a fresh id: scan the cursor forward, wrapping
    /// once past the cap, and place the entry in id order.  Fails only when
    /// every id is taken.
    #[verifier::rlimit(80)]
    pub fn insert(&mut self, context: Context) -> (r: Result<u64, ()>)
        requires
            old(self).wf(),
        ensures
            final(self).wf(),
            r is Ok ==> {
                &&& !old(self).contains_id(r->Ok_0)
                &&& final(self).contains_id(r->Ok_0)
                &&& final(self).entries@.len() == old(self).entries@.len() + 1
                &&& final(self).entries@[final(self).index_of(r->Ok_0)] == (Context {
                    id: r->Ok_0,
                    ..context
                })
                &&& forall|id2: u64| old(self).contains_id(id2) ==> final(self).contains_id(id2)
                &&& forall|id2: u64|
                    old(self).contains_id(id2) ==> final(self).entries@[final(self).index_of(id2)] == old(self).entries@[old(self).index_of(id2)]
                &&& forall|id2: u64| final(self).contains_id(id2) ==> id2 == r->Ok_0 || old(self).contains_id(id2)
            },
            r is Err ==> final(self).entries == old(self).entries,
            old(self).ids_below_cursor() && old(self).next_id < CONTEXT_MAX_CONTEXTS ==> r is Ok
                && r->Ok_0 == old(self).next_id && final(self).ids_below_cursor() && final(self).next_id == old(self).next_id + 1,
    {
        let mut context = context;
        if self.next_id >= CONTEXT_MAX_CONTEXTS {
            self.next_id = 1;
        }
        let mut candidate = self.next_id;
        loop
            invariant_except_break
                self.wf(),
                *self == *old(self) || (self.next_id == 1 && (Self {
                    next_id: old(self).next_id,
                    ..*self
                }) == *old(self)),
                self.entries == old(self).entries,
                1 <= candidate,
                old(self).ids_below_cursor() && old(self).next_id < CONTEXT_MAX_CONTEXTS
                    ==> candidate == old(self).next_id,
            ensures
                self.entries == old(self).entries,
                self.wf(),
                candidate >= CONTEXT_MAX_CONTEXTS || !self.contains_id(candidate),
                candidate >= 1,
                old(self).ids_below_cursor() && old(self).next_id < CONTEXT_MAX_CONTEXTS
                    ==> candidate == old(self).next_id,
            decreases CONTEXT_MAX_CONTEXTS - candidate,
        {
            if candidate >= CONTEXT_MAX_CONTEXTS {
                break;
            }
            match self.find(candidate) {
                Option::Some(_) => {
                    candidate = candidate + 1;
                },
                Option::None => {
                    break;
                },
            }
        }
        if candidate >= CONTEXT_MAX_CONTEXTS {
            return Err(());
        }
        let id = candidate;
        self.next_id = id + 1;
        context.id = id;
        // Find the sorted position for the new id.
        let n = self.entries.len();
        let mut pos: usize = 0;
        while pos < n
            invariant
                pos <= n,
                n == self.entries@.len(),
                self.wf(),
                !self.contains_id(id),
                self.entries == old(self).entries,
                forall|j: int| 0 <= j < pos ==> (#[trigger] self.entries@[j]).id < id,
            ensures
                pos <= n,
                n == self.entries@.len(),
                self.wf(),
                !self.contains_id(id),
                self.entries == old(self).entries,
                forall|j: int| 0 <= j < pos ==> (#[trigger] self.entries@[j]).id < id,
                pos < n ==> self.entries@[pos as int].id > id,
            decreases n - pos,
        {
            if vstd::std_specs::vec::vec_index(&self.entries, pos).id > id {
                break;
            }
            proof {
                assert(self.entries@[pos as int].id != id);
            }
            pos = pos + 1;
        }
        let ghost before = self.entries@;
        self.entries.insert(pos, context);
        proof {
            let s = self.entries@;
            assert forall|i: int, j: int| 0 <= i < j < s.len() implies #[trigger] s[i].id
                < #[trigger] s[j].id by {
                if j < pos {
                } else if i < pos && j == pos {
                } else if i == pos {
                    assert(s[j] == before[j - 1]);
                    assert(before[j - 1].id > id || before[j - 1].id < id || before[j - 1].id
                        == id);
                    if before[j - 1].id == id {
                        assert(old(self).contains_id(id));
                    }
                    if before[j - 1].id < id {
                        assert(before[pos as int].id > id);
                        assert(pos as int <= j - 1);
                    }
                } else if i > pos {
                } else if j > pos {
                    assert(s[j] == before[j - 1]);
                    if i < pos {
                        assert(s[i] == before[i]);
                        if before[j - 1].id <= before[i].id {
                            assert(false);
                        }
                    }
                }
            }
            assert(self.contains_id(id)) by {
                assert(s[pos as int].id == id);
            }
            assert forall|id2: u64| old(self).contains_id(id2) implies self.contains_id(
                id2,
            ) by {
                let i = old(self).index_of(id2);
                if i < pos {
                    assert(s[i].id == id2);
                } else {
                    assert(s[i + 1].id == id2);
                }
            }
            assert forall|id2: u64| old(self).contains_id(id2) implies self.entries@[self.index_of(id2)] == old(self).entries@[old(self).index_of(id2)] by {
                let i = old(self).index_of(id2);
                let j = self.index_of(id2);
                lemma_sorted_index_unique(self.entries@, j, if i < pos {
                    i
                } else {
                    i + 1
                });
            }
            let j = self.index_of(id);
            lemma_sorted_index_unique(self.entries@, j, pos as int);
            assert forall|id2: u64| self.contains_id(id2) implies id2 == id || old(self).contains_id(id2) by {
                let w = choose|w: int| 0 <= w < s.len() && (#[trigger] s[w]).id == id2;
                if w < pos {
                    assert(before[w].id == id2);
                } else if w > pos {
                    assert(before[w - 1].id == id2);
                }
            }
        }
        Ok(id)
    }

    /// Remove and return the context with this id.
    pub fn remove(&mut self, id: u64) -> (r: Option<Context>)
        requires
            old(self).wf(),
        ensures
            final(self).wf(),
            r is Some <==> old(self).contains_id(id),
            r is Some ==> r->0 == old(self).entries@[old(self).index_of(id)] && final(self).entries@ == old(self).entries@.remove(old(self).index_of(id)),
            r is None ==> *final(self) == *old(self),
            !final(self).contains_id(id),
    {
        match self.find(id) {
            Option::Some(i) => {
                proof {
                    lemma_sorted_index_unique(self.entries@, self.index_of(id), i as int);
                }
                let c = self.entries.remove(i);
                proof {
                    let s = self.entries@;
                    assert forall|a: int, b: int| 0 <= a < b < s.len() implies #[trigger] s[a].id
                        < #[trigger] s[b].id by {
                        if b < i {
                        } else if a < i {
                            assert(s[b] == old(self).entries@[b + 1]);
                        } else {
                            assert(s[a] == old(self).entries@[a + 1]);
                            assert(s[b] == old(self).entries@[b + 1]);
                        }
                    }
                    assert(!self.contains_id(id)) by {
                        if self.contains_id(id) {
                            let k = choose|k: int| 0 <= k < s.len() && (#[trigger] s[k]).id == id;
                            if k < i {
                                assert(old(self).entries@[k].id == id);
                                lemma_sorted_index_unique(old(self).entries@, k, i as int);
                            } else {
                                assert(old(self).entries@[k + 1].id == id);
                                lemma_sorted_index_unique(old(self).entries@, k + 1, i as int);
                            }
                        }
                    }
                }
                Some(c)
            },
            Option::None => None,
        }
    }

    /// Build a kernel-module context whose stack is pre-seeded with the
    /// entry function's address, so a plain context switch enters it.
    pub fn spawn(&mut self, func: u64) -> (r: Result<Context, ()>)
        ensures
            r is Ok ==> {
                &&& r->Ok_0.status == Status::Blocked
                &&& r->Ok_0.module == KERNEL_MODULE
                &&& r->Ok_0.kstack is Some
                &&& r->Ok_0.kfx is Some
            },
            *final(self) == *old(self),
    {
        let mut context = Context::new(KERNEL_MODULE);
        let mut fx: Vec<u8> = Vec::new();
        let mut i: usize = 0;
        while i < 512
            invariant
                fx@.len() == i,
                i <= 512,
            decreases 512 - i,
        {
            fx.push(0);
            i = i + 1;
        }
        let pages = (KSTACK_SIZE / 4096) as usize;
        let (mut stack, address) = match ContextMemory::new_kernel(
            pages,
            EntryFlags::new(FLAG_GLOBAL | FLAG_WRITABLE | FLAG_NO_EXECUTE),
        ) {
            Option::Some(p) => p,
            Option::None => {
                return Err(());
            },
        };
        let top = stack.len_bytes();
        let offset = top - 8;
        let fbytes = vstd::bytes::u64_to_le_bytes(func);
        stack.write_bytes(offset, fbytes.as_slice());
        proof {
            assert(address == crate::consts::KERNEL_VALLOC_OFFSET);
        }
        context.arch.set_stack(address + offset as u64);
        context.arch.set_page_table(0);
        context.arch.set_fx(0);
        context.kfx = Some(fx);
        context.kstack = Some(stack);
        Ok(context)
    }
}

/// In a strictly id-sorted sequence two positions with the same id are one.
pub proof fn lemma_sorted_index_unique(s: Seq<Context>, i: int, j: int)
    requires
        forall|a: int, b: int| 0 <= a < b < s.len() ==> #[trigger] s[a].id < #[trigger] s[b].id,
        0 <= i < s.len(),
        0 <= j < s.len(),
        s[i].id == s[j].id,
    ensures
        i == j,
{
    if i < j {
        assert(s[i].id < s[j].id);
    } else if j < i {
        assert(s[j].id < s[i].id);
    }
}

} // verus!
