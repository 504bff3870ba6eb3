//! The call layer: how a function call becomes a context.
//!
//! `spawn` builds a context for a module: a zeroed FX area, a kernel stack,
//! a fresh page table with the kernel slots copied, the module's image
//! cloned in - read-only regions share the module's frames, writable ones
//! are deep-copied - and zeroed argument, stack, and heap regions mapped
//! into the new address space.  `fuse_name` spawns a callee, seeds its
//! arguments, links it to its caller and switches into it, blocking the
//! caller until `fuse_return` delivers the callee's result.  `cast_name`
//! spawns the callee as New and returns at once: the caller never blocks on
//! it and never sees its result.

use vstd::prelude::*;
use crate::context::{Context, ContextList, Status, KERNEL_MODULE};
use crate::cxmem::ContextMemory;
use crate::error::KError;
use crate::loader::{ModuleCache, table_lookup};
use crate::mem::{EntryFlags, PAGE_SIZE, FLAG_GLOBAL, FLAG_WRITABLE, FLAG_NO_EXECUTE,
    FLAG_USER_ACCESSIBLE};
use crate::ring::Ring;
use crate::rpc::{CallQueue, BUFFER_SIZE};
use crate::sched::{Kernel, UserEntry, fuse_switch, kstack_ok};
use crate::sos::{Value, dviews, encodable, enc_list, enc_list_len};
use crate::consts::{USER_ARG_OFFSET, USER_HEAP_OFFSET, USER_STACK_OFFSET, USER_STACK_SIZE,
    KSTACK_SIZE};

verus! {

/// Every image region of every cached module is shared and well-formed, so
/// spawning can reference-clone them.
pub open spec fn module_images_ok(c: ModuleCache) -> bool {
    forall|m: int, r: int| 0 <= m < c.modules@.len() && 0 <= r < c.modules@[m].image@.len()
        ==> (#[trigger] c.modules@[m].image@[r]).is_shared() && c.modules@[m].image@[r].wf()
}

/// The id cursor can still mint a fresh id - the one thing short of which
/// enqueueing a context cannot fail.
pub open spec fn ids_fresh(k: Kernel) -> bool {
    k.contexts.ids_below_cursor() && k.contexts.next_id < crate::context::CONTEXT_MAX_CONTEXTS
}

/// One image region as a spawned context receives it: same bytes, address
/// and flags, mapped into the new address space; a writable region is a
/// deep copy with its staging mapping dropped, a read-only one shares the
/// module's frames.
pub open spec fn region_cloned(s: ContextMemory, d: ContextMemory) -> bool {
    &&& d.bytes() == s.bytes()
    &&& d.spec_context_address() == s.spec_context_address()
    &&& d.spec_flags() == s.spec_flags()
    &&& d.is_context_mapped()
    &&& (s.spec_flags().spec_contains(EntryFlags { bits: FLAG_WRITABLE }) ==> !d.is_shared()
        && !d.is_kernel_mapped())
    &&& (!s.spec_flags().spec_contains(EntryFlags { bits: FLAG_WRITABLE }) ==> d.is_shared())
}

/// The whole image, region by region.
pub open spec fn image_cloned(src: Seq<ContextMemory>, dst: Seq<ContextMemory>) -> bool {
    &&& dst.len() == src.len()
    &&& forall|j: int| 0 <= j < src.len() ==> region_cloned(#[trigger] src[j], #[trigger] dst[j])
}

/// A freshly staged user region: the asked-for pages at the asked-for
/// address with the asked-for flags, mapped in, and every byte zero.
pub open spec fn fresh_zeroed(m: ContextMemory, pages: int, address: u64, bits: u64) -> bool {
    &&& m.wf()
    &&& m.spec_page_count() == pages
    &&& m.spec_context_address() == address
    &&& m.spec_flags() == (EntryFlags { bits })
    &&& m.is_context_mapped()
    &&& forall|b: int| 0 <= b < m.bytes().len() ==> m.bytes()[b] == 0
}

/// What `spawn` promises of a fresh context.
pub open spec fn spawned_ok(c: Context, module: int) -> bool {
    &&& c.status == Status::Blocked
    &&& c.module == module
    &&& c.ret_link is None
    &&& c.result is None
    &&& kstack_ok(c)
    &&& c.kstack is Some
    &&& c.args.wf()
    &&& c.args.spec_memory() is Some
    &&& c.args.spec_offset() == 0
    &&& c.args.spec_memory()->0.bytes().len() == PAGE_SIZE
    &&& c.args.spec_memory()->0.spec_context_address() <= crate::consts::KERNEL_OFFSET
}

/// A blank FX save area: 512 zeroed bytes.
fn fresh_fx() -> (fx: Vec<u8>)
    ensures
        fx@.len() == 512,
{
    let mut fx: Vec<u8> = Vec::new();
    let mut i: usize = 0;
    while i < 512
        invariant
            fx@.len() == i,
            i <= 512,
        decreases 512 - i,
    {
        fx.push(0);
        i = i + 1;
    }
    fx
}

/// Build a kernel-module context: kernel stack and a kernel-side argument
/// page, no user address space.
pub fn spawn_kernel() -> (r: Result<Context, KError>)
    ensures
        r is Ok,
        r matches Ok(c) ==> spawned_ok(c, KERNEL_MODULE as int),
{
    let mut context = Context::new(KERNEL_MODULE);
    let fx = fresh_fx();
    let (stack, address) = match ContextMemory::new_kernel(
        (KSTACK_SIZE / 4096) as usize,
        EntryFlags::new(FLAG_GLOBAL | FLAG_WRITABLE | FLAG_NO_EXECUTE),
    ) {
        Option::Some(p) => p,
        Option::None => {
            return Err(KError::AllocationFailure);
        },
    };
    let (args, _) = match ContextMemory::new_kernel(
        1,
        EntryFlags::new(FLAG_GLOBAL | FLAG_WRITABLE | FLAG_NO_EXECUTE),
    ) {
        Option::Some(p) => p,
        Option::None => {
            return Err(KError::AllocationFailure);
        },
    };
    context.args.set_memory(args);
    context.arch.set_page_table(0);
    context.arch.set_fx(0);
    let top = stack.len_bytes();
    context.arch.set_stack(address + top as u64);
    context.kfx = Some(fx);
    context.kstack = Some(stack);
    proof {
        assert(context.args.spec_memory()->0.spec_context_address()
            == crate::consts::KERNEL_VALLOC_OFFSET);
    }
    Ok(context)
}

/// Build a context for a module: kernel stack, fresh page table with the
/// kernel slots copied, image cloned in, and zeroed argument, stack and
/// heap regions mapped into the new address space.
pub fn spawn(k: &Kernel, module: usize) -> (r: Result<Context, KError>)
    requires
        k.wf(),
        module_images_ok(k.cache),
    ensures
        r is Ok <==> module < k.cache.modules@.len(),
        r matches Ok(c) ==> spawned_ok(c, module as int),
        module >= k.cache.modules@.len() ==> r == Err::<Context, KError>(KError::NoSuchModule),
        r matches Ok(c) ==> module != KERNEL_MODULE ==> {
            &&& image_cloned(k.cache.modules@[module as int].image@, c.image@)
            &&& (c.args.spec_memory() matches Some(m) && fresh_zeroed(
                m,
                1,
                USER_ARG_OFFSET,
                FLAG_NO_EXECUTE | FLAG_WRITABLE | FLAG_USER_ACCESSIBLE,
            ))
            &&& (c.stack matches Some(m) && fresh_zeroed(
                m,
                (USER_STACK_SIZE / 4096) as int,
                USER_STACK_OFFSET,
                FLAG_NO_EXECUTE | FLAG_WRITABLE | FLAG_USER_ACCESSIBLE,
            ))
            &&& (c.heap matches Some(m) && fresh_zeroed(
                m,
                1,
                USER_HEAP_OFFSET,
                FLAG_NO_EXECUTE | FLAG_WRITABLE | FLAG_USER_ACCESSIBLE,
            ))
        },
{
    if module >= k.cache.modules.len() {
        return Err(KError::NoSuchModule);
    }
    if module == KERNEL_MODULE {
        return spawn_kernel();
    }
    let mut context = Context::new(module);
    let fx = fresh_fx();
    let (stack_mem, address) = match ContextMemory::new_kernel(
        (KSTACK_SIZE / 4096) as usize,
        EntryFlags::new(FLAG_GLOBAL | FLAG_WRITABLE | FLAG_NO_EXECUTE),
    ) {
        Option::Some(p) => p,
        Option::None => {
            return Err(KError::AllocationFailure);
        },
    };
    let top = stack_mem.len_bytes();
    context.arch.set_stack(address + top as u64);
    context.kstack = Some(stack_mem);
    context.arch.set_fx(0);
    context.kfx = Some(fx);
    // A fresh address space with the kernel's PML4 slots copied over is
    // platform work; the model records only that the context got one.
    context.arch.set_page_table(0);
    // Clone the image: read-only regions share the module's frames,
    // writable ones are deep-copied and lose their staging mapping.
    let src = vstd::std_specs::vec::vec_index(&k.cache.modules, module);
    let image_len = src.image.len();
    let mut image: Vec<ContextMemory> = Vec::new();
    let mut j: usize = 0;
    while j < image_len
        invariant
            j <= image_len,
            image_len == src.image@.len(),
            image@.len() == j,
            forall|a: int| 0 <= a < j ==> region_cloned(src.image@[a], #[trigger] image@[a]),
            forall|a: int| 0 <= a < src.image@.len() ==> (
            #[trigger] src.image@[a]).is_shared() && src.image@[a].wf(),
        decreases image_len - j,
    {
        let region = vstd::std_specs::vec::vec_index(&src.image, j);
        if !region.flags().contains(EntryFlags::new(FLAG_WRITABLE)) {
            let mut clone = region.ref_clone(None);
            let mapped = clone.map_context();
            mapped.ignore();
            image.push(clone);
        } else {
            let mut clone = match region.copy_clone(None) {
                Option::Some(c) => c,
                Option::None => {
                    return Err(KError::AllocationFailure);
                },
            };
            clone.drop_kernel_mapping();
            let mapped = clone.map_context();
            mapped.ignore();
            image.push(clone);
        }
        j = j + 1;
    }
    // Argument page, user stack, user heap: staged, zeroed, mapped in.
    let mut args = match ContextMemory::new(
        1,
        USER_ARG_OFFSET,
        EntryFlags::new(FLAG_NO_EXECUTE | FLAG_WRITABLE | FLAG_USER_ACCESSIBLE),
    ) {
        Option::Some(m) => m,
        Option::None => {
            return Err(KError::AllocationFailure);
        },
    };
    let _ = args.map_to_kernel(EntryFlags::new(FLAG_WRITABLE | FLAG_NO_EXECUTE));
    args.zero();
    let mut ustack = match ContextMemory::new(
        (USER_STACK_SIZE / 4096) as usize,
        USER_STACK_OFFSET,
        EntryFlags::new(FLAG_NO_EXECUTE | FLAG_WRITABLE | FLAG_USER_ACCESSIBLE),
    ) {
        Option::Some(m) => m,
        Option::None => {
            return Err(KError::AllocationFailure);
        },
    };
    let _ = ustack.map_to_kernel(EntryFlags::new(FLAG_WRITABLE | FLAG_NO_EXECUTE));
    ustack.zero();
    let mut heap = match ContextMemory::new(
        1,
        USER_HEAP_OFFSET,
        EntryFlags::new(FLAG_NO_EXECUTE | FLAG_WRITABLE | FLAG_USER_ACCESSIBLE),
    ) {
        Option::Some(m) => m,
        Option::None => {
            return Err(KError::AllocationFailure);
        },
    };
    let _ = heap.map_to_kernel(EntryFlags::new(FLAG_WRITABLE | FLAG_NO_EXECUTE));
    heap.zero();
    let f1 = args.map_context();
    f1.ignore();
    let f2 = ustack.map_context();
    f2.ignore();
    let f3 = heap.map_context();
    f3.ignore();
    context.stack = Some(ustack);
    context.heap = Some(heap);
    context.args.set_memory(args);
    context.image = image;
    Ok(context)
}

/// The bound on argument payloads the call paths accept in one go.
pub const CALL_ARGS_MAX: usize = 0x4000_0000;

/// Spawn a fused callee for `module::func`, seed its argument region with
/// the encoded arguments, link it to the current context, enqueue it, and
/// switch into it: the caller blocks, the callee runs.  On success the new
/// context id and the user entry to perform come back; the callee's
/// function offset is exactly what the module's table declares for `func`.
pub fn fuse_name(k: &mut Kernel, module: usize, func: &[u8], args: &[Value]) -> (r: Result<
    (u64, UserEntry),
    KError,
>)
    requires
        old(k).wf(),
        !old(k).switch_lock,
        module_images_ok(old(k).cache),
        old(k).contexts.contains_id(old(k).current_id),
        encodable(dviews(args@)),
        enc_list_len(dviews(args@)) < CALL_ARGS_MAX,
    ensures
        final(k).wf(),
        !final(k).switch_lock,
        final(k).cache == old(k).cache,
        final(k).call_queue == old(k).call_queue,
        final(k).tx == old(k).tx,
        ids_fresh(*old(k)) && module < old(k).cache.modules@.len() && table_lookup(
            old(k).cache.modules@[module as int].func_table@,
            func@,
        ) is Some ==> r is Ok,
        r matches Ok(p) ==> {
            &&& final(k).contexts.contains_id(p.0)
            &&& !old(k).contexts.contains_id(p.0)
            &&& ({
                let callee = final(k).contexts.entries@[final(k).contexts.index_of(p.0)];
                &&& callee.status == Status::Running
                &&& callee.ret_link == Some(old(k).current_id)
                &&& callee.result is None
                &&& callee.module == module
                &&& Some(callee.function) == table_lookup(
                    old(k).cache.modules@[module as int].func_table@,
                    func@,
                )
                &&& callee.args.spec_memory() is Some
                &&& callee.args.spec_memory()->0.bytes().subrange(
                    0,
                    enc_list_len(dviews(args@)) as int,
                ) == enc_list(dviews(args@))
                &&& final(k).current_id == p.0
            })
            &&& forall|id2: u64| old(k).contexts.contains_id(id2) ==> final(k).contexts.contains_id(id2)
            &&& forall|id2: u64| id2 != p.0 && id2 != old(k).current_id && old(k).contexts.contains_id(id2) ==> final(k).contexts.entries@[final(k).contexts.index_of(id2)] == old(k).contexts.entries@[old(k).contexts.index_of(id2)]
            &&& (p.0 != old(k).current_id ==> final(k).contexts.entries@[final(k).contexts.index_of(old(k).current_id)] == (Context {
                status: Status::Blocked,
                ..old(k).contexts.entries@[old(k).contexts.index_of(old(k).current_id)]
            }))
        },
        module < old(k).cache.modules@.len() && table_lookup(
            old(k).cache.modules@[module as int].func_table@,
            func@,
        ) is None ==> r == Err::<(u64, UserEntry), KError>(KError::NoSuchFunction),
{
    let m = match k.cache.get(module) {
        Option::Some(m) => m,
        Option::None => {
            return Err(KError::NoSuchModule);
        },
    };
    let f = match m.function(func) {
        Option::Some(f) => f,
        Option::None => {
            return Err(KError::NoSuchFunction);
        },
    };
    let mut context = match spawn(k, module) {
        Result::Ok(c) => c,
        Result::Err(e) => {
            return Err(e);
        },
    };
    context.name = Some(vstd::slice::slice_to_vec(func));
    fuse_inner_with(k, context, f, args)
}

/// Spawn a fused callee for an already-resolved entry offset.
pub fn fuse_ptr(k: &mut Kernel, module: usize, func: u64, args: &[Value]) -> (r: Result<
    (u64, UserEntry),
    KError,
>)
    requires
        old(k).wf(),
        !old(k).switch_lock,
        module_images_ok(old(k).cache),
        old(k).contexts.contains_id(old(k).current_id),
        encodable(dviews(args@)),
        enc_list_len(dviews(args@)) < CALL_ARGS_MAX,
    ensures
        final(k).wf(),
        !final(k).switch_lock,
        final(k).cache == old(k).cache,
        final(k).call_queue == old(k).call_queue,
        final(k).tx == old(k).tx,
        ids_fresh(*old(k)) && module < old(k).cache.modules@.len() ==> r is Ok,
{
    let context = match spawn(k, module) {
        Result::Ok(c) => c,
        Result::Err(e) => {
            return Err(e);
        },
    };
    fuse_inner_with(k, context, func, args)
}

/// Common tail of the fuse paths: set the entry offset, link the caller,
/// seed the arguments, enqueue, and switch.
fn fuse_inner(k: &mut Kernel, context: Context, func: u64) -> (r: Result<(u64, UserEntry), KError>)
    requires
        old(k).wf(),
        !old(k).switch_lock,
        old(k).contexts.contains_id(old(k).current_id),
        kstack_ok(context),
        context.result is None,
    ensures
        final(k).wf(),
        !final(k).switch_lock,
        final(k).cache == old(k).cache,
        final(k).call_queue == old(k).call_queue,
        final(k).tx == old(k).tx,
        ids_fresh(*old(k)) ==> r is Ok,
        r matches Ok(p) ==> {
            &&& final(k).contexts.contains_id(p.0)
            &&& !old(k).contexts.contains_id(p.0)
            &&& ({
                let callee = final(k).contexts.entries@[final(k).contexts.index_of(p.0)];
                &&& callee.status == Status::Running
                &&& callee.ret_link == Some(old(k).current_id)
                &&& callee.result is None
                &&& callee.module == context.module
                &&& callee.function == func
                &&& callee.args == context.args
                &&& callee.name == context.name
                &&& final(k).current_id == p.0
            })
            &&& forall|id2: u64| old(k).contexts.contains_id(id2) ==> final(k).contexts.contains_id(id2)
            &&& forall|id2: u64| id2 != p.0 && id2 != old(k).current_id && old(k).contexts.contains_id(id2) ==> final(k).contexts.entries@[final(k).contexts.index_of(id2)] == old(k).contexts.entries@[old(k).contexts.index_of(id2)]
            &&& (p.0 != old(k).current_id ==> final(k).contexts.entries@[final(k).contexts.index_of(old(k).current_id)] == (Context {
                status: Status::Blocked,
                ..old(k).contexts.entries@[old(k).contexts.index_of(old(k).current_id)]
            }))
        },
{
    let mut context = context;
    context.function = func;
    context.ret_link = Some(k.current_id);
    let cpu = match k.contexts.get(k.current_id) {
        Option::Some(c) => c.cpu_id,
        Option::None => None,
    };
    context.cpu_id = cpu;
    let ghost seeded = context;
    let id = match k.contexts.insert(context) {
        Result::Ok(id) => id,
        Result::Err(_) => {
            return Err(KError::AllocationFailure);
        },
    };
    proof {
        assert(k.contexts.entries@[k.contexts.index_of(id)] == (Context { id, ..seeded }));
        assert forall|i: int| 0 <= i < k.contexts.entries@.len() implies kstack_ok(
            #[trigger] k.contexts.entries@[i],
        ) by {
            let c = k.contexts.entries@[i];
            let id2 = c.id;
            assert(k.contexts.contains_id(id2));
            if id2 == id {
                crate::context::lemma_sorted_index_unique(
                    k.contexts.entries@,
                    k.contexts.index_of(id2),
                    i,
                );
            } else {
                assert(old(k).contexts.contains_id(id2));
                crate::context::lemma_sorted_index_unique(
                    k.contexts.entries@,
                    k.contexts.index_of(id2),
                    i,
                );
                assert(c == old(k).contexts.entries@[old(k).contexts.index_of(id2)]);
            }
        }
    }
    match fuse_switch(k, id, func) {
        Result::Ok(entry) => Ok((id, entry)),
        Result::Err(_) => Err(KError::Protocol),
    }
}

/// Seed arguments into a spawned context and run the fuse tail.
fn fuse_inner_with(k: &mut Kernel, context: Context, func: u64, args: &[Value]) -> (r: Result<
    (u64, UserEntry),
    KError,
>)
    requires
        old(k).wf(),
        !old(k).switch_lock,
        old(k).contexts.contains_id(old(k).current_id),
        spawned_ok(context, context.module as int),
        encodable(dviews(args@)),
        enc_list_len(dviews(args@)) < CALL_ARGS_MAX,
    ensures
        final(k).wf(),
        !final(k).switch_lock,
        final(k).cache == old(k).cache,
        final(k).call_queue == old(k).call_queue,
        final(k).tx == old(k).tx,
        ids_fresh(*old(k)) ==> r is Ok,
        r matches Ok(p) ==> {
            &&& final(k).contexts.contains_id(p.0)
            &&& !old(k).contexts.contains_id(p.0)
            &&& ({
                let callee = final(k).contexts.entries@[final(k).contexts.index_of(p.0)];
                &&& callee.status == Status::Running
                &&& callee.ret_link == Some(old(k).current_id)
                &&& callee.result is None
                &&& callee.module == context.module
                &&& callee.function == func
                &&& callee.args.spec_memory() is Some
                &&& callee.args.spec_memory()->0.bytes().subrange(
                    0,
                    enc_list_len(dviews(args@)) as int,
                ) == enc_list(dviews(args@))
                &&& final(k).current_id == p.0
            })
            &&& forall|id2: u64| old(k).contexts.contains_id(id2) ==> final(k).contexts.contains_id(id2)
            &&& forall|id2: u64| id2 != p.0 && id2 != old(k).current_id && old(k).contexts.contains_id(id2) ==> final(k).contexts.entries@[final(k).contexts.index_of(id2)] == old(k).contexts.entries@[old(k).contexts.index_of(id2)]
            &&& (p.0 != old(k).current_id ==> final(k).contexts.entries@[final(k).contexts.index_of(old(k).current_id)] == (Context {
                status: Status::Blocked,
                ..old(k).contexts.entries@[old(k).contexts.index_of(old(k).current_id)]
            }))
        },
{
    let mut context = context;
    match context.args.append_encode(args) {
        Option::Some(_) => {},
        Option::None => {
            return Err(KError::AllocationFailure);
        },
    }
    fuse_inner(k, context, func)
}


/// Spawn a cast callee for `module::func`: seed its arguments and enqueue
/// it as New.  The caller is left exactly as it was - it never blocks on a
/// cast and never sees the callee's result - and the remote-call registry
/// is untouched.
pub fn cast_name(k: &mut Kernel, module: usize, func: &[u8], args: &[Value]) -> (r: Result<
    u64,
    KError,
>)
    requires
        old(k).wf(),
        module_images_ok(old(k).cache),
        encodable(dviews(args@)),
        enc_list_len(dviews(args@)) < CALL_ARGS_MAX,
    ensures
        final(k).wf(),
        final(k).switch_lock == old(k).switch_lock,
        final(k).cache == old(k).cache,
        final(k).call_queue == old(k).call_queue,
        final(k).tx == old(k).tx,
        final(k).current_id == old(k).current_id,
        forall|id2: u64| old(k).contexts.contains_id(id2) ==> final(k).contexts.contains_id(id2)
            && final(k).contexts.entries@[final(k).contexts.index_of(id2)] == old(k).contexts.entries@[old(k).contexts.index_of(id2)],
        ids_fresh(*old(k)) && module < old(k).cache.modules@.len() && table_lookup(
            old(k).cache.modules@[module as int].func_table@,
            func@,
        ) is Some ==> r is Ok,
        r matches Ok(id) ==> {
            &&& final(k).contexts.contains_id(id)
            &&& !old(k).contexts.contains_id(id)
            &&& ({
                let callee = final(k).contexts.entries@[final(k).contexts.index_of(id)];
                &&& callee.status == Status::New
                &&& callee.ret_link is None
                &&& callee.result is None
                &&& callee.module == module
                &&& Some(callee.function) == table_lookup(
                    old(k).cache.modules@[module as int].func_table@,
                    func@,
                )
                &&& callee.args.spec_memory() is Some
                &&& callee.args.spec_memory()->0.bytes().subrange(
                    0,
                    enc_list_len(dviews(args@)) as int,
                ) == enc_list(dviews(args@))
            })
        },
        module < old(k).cache.modules@.len() && table_lookup(
            old(k).cache.modules@[module as int].func_table@,
            func@,
        ) is None ==> r == Err::<u64, KError>(KError::NoSuchFunction),
{
    let m = match k.cache.get(module) {
        Option::Some(m) => m,
        Option::None => {
            return Err(KError::NoSuchModule);
        },
    };
    let f = match m.function(func) {
        Option::Some(f) => f,
        Option::None => {
            return Err(KError::NoSuchFunction);
        },
    };
    let mut context = match spawn(k, module) {
        Result::Ok(c) => c,
        Result::Err(e) => {
            return Err(e);
        },
    };
    context.name = Some(vstd::slice::slice_to_vec(func));
    cast_inner(k, context, f, args)
}

/// Spawn a cast callee for an already-resolved entry offset.
pub fn cast_ptr(k: &mut Kernel, module: usize, func: u64, args: &[Value]) -> (r: Result<
    u64,
    KError,
>)
    requires
        old(k).wf(),
        module_images_ok(old(k).cache),
        encodable(dviews(args@)),
        enc_list_len(dviews(args@)) < CALL_ARGS_MAX,
    ensures
        final(k).wf(),
        final(k).switch_lock == old(k).switch_lock,
        final(k).cache == old(k).cache,
        final(k).call_queue == old(k).call_queue,
        final(k).tx == old(k).tx,
        final(k).current_id == old(k).current_id,
        forall|id2: u64| old(k).contexts.contains_id(id2) ==> final(k).contexts.contains_id(id2)
            && final(k).contexts.entries@[final(k).contexts.index_of(id2)] == old(k).contexts.entries@[old(k).contexts.index_of(id2)],
        ids_fresh(*old(k)) && module < old(k).cache.modules@.len() ==> r is Ok,
        r matches Ok(id) ==> {
            &&& final(k).contexts.contains_id(id)
            &&& !old(k).contexts.contains_id(id)
            &&& ({
                let callee = final(k).contexts.entries@[final(k).contexts.index_of(id)];
                &&& callee.status == Status::New
                &&& callee.ret_link is None
                &&& callee.result is None
                &&& callee.function == func
            })
        },
{
    let context = match spawn(k, module) {
        Result::Ok(c) => c,
        Result::Err(e) => {
            return Err(e);
        },
    };
    cast_inner(k, context, func, args)
}

/// Common tail of the cast paths: seed the arguments, seed a kernel-target
/// stack with the entry function, mark the callee New, and enqueue it.
fn cast_inner(k: &mut Kernel, context: Context, func: u64, args: &[Value]) -> (r: Result<
    u64,
    KError,
>)
    requires
        old(k).wf(),
        spawned_ok(context, context.module as int),
        encodable(dviews(args@)),
        enc_list_len(dviews(args@)) < CALL_ARGS_MAX,
    ensures
        ids_fresh(*old(k)) ==> r is Ok,
        final(k).wf(),
        final(k).switch_lock == old(k).switch_lock,
        final(k).cache == old(k).cache,
        final(k).call_queue == old(k).call_queue,
        final(k).tx == old(k).tx,
        final(k).current_id == old(k).current_id,
        forall|id2: u64| old(k).contexts.contains_id(id2) ==> final(k).contexts.contains_id(id2)
            && final(k).contexts.entries@[final(k).contexts.index_of(id2)] == old(k).contexts.entries@[old(k).contexts.index_of(id2)],
        r matches Ok(id) ==> {
            &&& final(k).contexts.contains_id(id)
            &&& !old(k).contexts.contains_id(id)
            &&& ({
                let callee = final(k).contexts.entries@[final(k).contexts.index_of(id)];
                &&& callee.status == Status::New
                &&& callee.ret_link is None
                &&& callee.result is None
                &&& callee.module == context.module
                &&& callee.function == func
                &&& callee.name == context.name
                &&& callee.args.spec_memory() is Some
                &&& callee.args.spec_memory()->0.bytes().subrange(
                    0,
                    enc_list_len(dviews(args@)) as int,
                ) == enc_list(dviews(args@))
            })
        },
{
    let mut context = context;
    match context.args.append_encode(args) {
        Option::Some(_) => {},
        Option::None => {
            return Err(KError::AllocationFailure);
        },
    }
    cast_finish(k, context, func)
}

/// Enqueue a seeded cast callee: seed a kernel-target stack, mark it New,
/// and insert it; the rest of the kernel is untouched.
fn cast_finish(k: &mut Kernel, context: Context, func: u64) -> (r: Result<u64, KError>)
    requires
        old(k).wf(),
        kstack_ok(context),
        context.kstack is Some,
        context.result is None,
        context.ret_link is None,
        !context.kstack->0.is_shared(),
        context.kstack->0.is_kernel_mapped(),
    ensures
        ids_fresh(*old(k)) ==> r is Ok,
        final(k).wf(),
        final(k).switch_lock == old(k).switch_lock,
        final(k).cache == old(k).cache,
        final(k).call_queue == old(k).call_queue,
        final(k).tx == old(k).tx,
        final(k).current_id == old(k).current_id,
        forall|id2: u64| old(k).contexts.contains_id(id2) ==> final(k).contexts.contains_id(id2)
            && final(k).contexts.entries@[final(k).contexts.index_of(id2)] == old(k).contexts.entries@[old(k).contexts.index_of(id2)],
        r matches Ok(id) ==> {
            &&& final(k).contexts.contains_id(id)
            &&& !old(k).contexts.contains_id(id)
            &&& ({
                let callee = final(k).contexts.entries@[final(k).contexts.index_of(id)];
                &&& callee.status == Status::New
                &&& callee.ret_link is None
                &&& callee.result is None
                &&& callee.module == context.module
                &&& callee.function == func
                &&& callee.name == context.name
                &&& callee.args == context.args
            })
        },
{
    let mut context = context;
    context.function = func;
    // A cast aimed at the kernel module is entered by a plain context
    // switch, so its kernel stack is pre-seeded with the entry function.
    if context.module == KERNEL_MODULE {
        let mut kstack = match context.kstack.take() {
            Option::Some(s) => s,
            Option::None => {
                return Err(KError::AllocationFailure);
            },
        };
        let top = kstack.len_bytes();
        let offset = top - 8;
        let fbytes = vstd::bytes::u64_to_le_bytes(func);
        kstack.write_bytes(offset, fbytes.as_slice());
        context.arch.set_stack(crate::consts::KERNEL_VALLOC_OFFSET + offset as u64);
        context.kstack = Some(kstack);
        proof {
            assert(kstack_ok(context));
        }
    }
    context.status = Status::New;
    let ghost seeded = context;
    let id = match k.contexts.insert(context) {
        Result::Ok(id) => id,
        Result::Err(_) => {
            return Err(KError::AllocationFailure);
        },
    };
    proof {
        assert(k.contexts.entries@[k.contexts.index_of(id)] == (Context { id, ..seeded }));
        assert forall|i: int| 0 <= i < k.contexts.entries@.len() implies kstack_ok(
            #[trigger] k.contexts.entries@[i],
        ) by {
            let c = k.contexts.entries@[i];
            let id2 = c.id;
            assert(k.contexts.contains_id(id2));
            crate::context::lemma_sorted_index_unique(
                k.contexts.entries@,
                k.contexts.index_of(id2),
                i,
            );
            if id2 != id {
                assert(old(k).contexts.contains_id(id2));
                assert(c == old(k).contexts.entries@[old(k).contexts.index_of(id2)]);
            }
        }
    }
    Ok(id)
}

/// Start a fused callee whose argument region receives an already-encoded
/// payload unchanged.
pub fn fuse_inner_bytes(k: &mut Kernel, module: usize, func: &[u8], payload: &[u8]) -> (r: Result<
    (u64, UserEntry),
    KError,
>)
    requires
        old(k).wf(),
        !old(k).switch_lock,
        module_images_ok(old(k).cache),
        old(k).contexts.contains_id(old(k).current_id),
        payload@.len() < CALL_ARGS_MAX,
    ensures
        final(k).wf(),
        !final(k).switch_lock,
        final(k).cache == old(k).cache,
        final(k).call_queue == old(k).call_queue,
        final(k).tx == old(k).tx,
        ids_fresh(*old(k)) && module < old(k).cache.modules@.len() && table_lookup(
            old(k).cache.modules@[module as int].func_table@,
            func@,
        ) is Some ==> r is Ok,
        r matches Ok(p) ==> {
            &&& final(k).contexts.contains_id(p.0)
            &&& !old(k).contexts.contains_id(p.0)
            &&& ({
                let callee = final(k).contexts.entries@[final(k).contexts.index_of(p.0)];
                &&& callee.status == Status::Running
                &&& callee.ret_link == Some(old(k).current_id)
                &&& callee.result is None
                &&& callee.module == module
                &&& Some(callee.function) == table_lookup(
                    old(k).cache.modules@[module as int].func_table@,
                    func@,
                )
                &&& callee.args.spec_memory() is Some
                &&& callee.args.wf()
                &&& callee.args.spec_offset() >= payload@.len()
                &&& callee.args.spec_memory()->0.bytes().subrange(
                    0,
                    payload@.len() as int,
                ) == payload@
                &&& final(k).current_id == p.0
            })
            &&& forall|id2: u64| old(k).contexts.contains_id(id2) ==> final(k).contexts.contains_id(id2)
            &&& forall|id2: u64| id2 != p.0 && id2 != old(k).current_id && old(k).contexts.contains_id(id2) ==> final(k).contexts.entries@[final(k).contexts.index_of(id2)] == old(k).contexts.entries@[old(k).contexts.index_of(id2)]
            &&& (p.0 != old(k).current_id ==> final(k).contexts.entries@[final(k).contexts.index_of(old(k).current_id)] == (Context {
                status: Status::Blocked,
                ..old(k).contexts.entries@[old(k).contexts.index_of(old(k).current_id)]
            }))
        },
        module < old(k).cache.modules@.len() && table_lookup(
            old(k).cache.modules@[module as int].func_table@,
            func@,
        ) is None ==> r == Err::<(u64, UserEntry), KError>(KError::NoSuchFunction),
{
    let m = match k.cache.get(module) {
        Option::Some(m) => m,
        Option::None => {
            return Err(KError::NoSuchModule);
        },
    };
    let f = match m.function(func) {
        Option::Some(f) => f,
        Option::None => {
            return Err(KError::NoSuchFunction);
        },
    };
    let mut context = match spawn(k, module) {
        Result::Ok(c) => c,
        Result::Err(e) => {
            return Err(e);
        },
    };
    context.name = Some(vstd::slice::slice_to_vec(func));
    match context.args.append_raw(payload) {
        Option::Some(_) => {},
        Option::None => {
            return Err(KError::AllocationFailure);
        },
    }
    fuse_inner(k, context, f)
}

/// Enqueue a cast callee whose argument region receives an already-encoded
/// payload unchanged.
pub fn cast_inner_bytes(k: &mut Kernel, module: usize, func: &[u8], payload: &[u8]) -> (r: Result<
    u64,
    KError,
>)
    requires
        old(k).wf(),
        module_images_ok(old(k).cache),
        payload@.len() < CALL_ARGS_MAX,
    ensures
        ids_fresh(*old(k)) && module < old(k).cache.modules@.len() && table_lookup(
            old(k).cache.modules@[module as int].func_table@,
            func@,
        ) is Some ==> r is Ok,
        final(k).wf(),
        final(k).switch_lock == old(k).switch_lock,
        final(k).cache == old(k).cache,
        final(k).call_queue == old(k).call_queue,
        final(k).tx == old(k).tx,
        final(k).current_id == old(k).current_id,
        forall|id2: u64| old(k).contexts.contains_id(id2) ==> final(k).contexts.contains_id(id2)
            && final(k).contexts.entries@[final(k).contexts.index_of(id2)] == old(k).contexts.entries@[old(k).contexts.index_of(id2)],
        r matches Ok(id) ==> {
            &&& final(k).contexts.contains_id(id)
            &&& !old(k).contexts.contains_id(id)
            &&& ({
                let callee = final(k).contexts.entries@[final(k).contexts.index_of(id)];
                &&& callee.status == Status::New
                &&& callee.ret_link is None
                &&& callee.result is None
                &&& callee.module == module
                &&& callee.args.spec_memory() is Some
                &&& callee.args.spec_memory()->0.bytes().subrange(
                    0,
                    payload@.len() as int,
                ) == payload@
            })
        },
{
    let m = match k.cache.get(module) {
        Option::Some(m) => m,
        Option::None => {
            return Err(KError::NoSuchModule);
        },
    };
    let f = match m.function(func) {
        Option::Some(f) => f,
        Option::None => {
            return Err(KError::NoSuchFunction);
        },
    };
    let mut context = match spawn(k, module) {
        Result::Ok(c) => c,
        Result::Err(e) => {
            return Err(e);
        },
    };
    context.name = Some(vstd::slice::slice_to_vec(func));
    match context.args.append_raw(payload) {
        Option::Some(_) => {},
        Option::None => {
            return Err(KError::AllocationFailure);
        },
    }
    cast_finish(k, context, f)
}

/// Take a fused callee's return payload and reap the context: the caller
/// observes exactly the bytes the callee stored, and the callee is gone.
pub fn fuse_collect(k: &mut Kernel, callee: u64) -> (r: Result<Vec<u8>, KError>)
    requires
        old(k).wf(),
    ensures
        final(k).wf(),
        final(k).cache == old(k).cache,
        final(k).call_queue == old(k).call_queue,
        final(k).tx == old(k).tx,
        final(k).current_id == old(k).current_id,
        r is Ok <==> old(k).contexts.contains_id(callee) && old(k).contexts.entries@[old(k).contexts.index_of(callee)].result is Some,
        r matches Ok(b) ==> {
            &&& old(k).contexts.contains_id(callee)
            &&& old(k).contexts.entries@[old(k).contexts.index_of(callee)].result is Some
            &&& b@ == old(k).contexts.entries@[old(k).contexts.index_of(callee)].result->0@
            &&& !final(k).contexts.contains_id(callee)
        },
        r is Err ==> final(k).contexts.entries@ == old(k).contexts.entries@,
{
    let ready = match k.contexts.get(callee) {
        Option::Some(c) => c.result.is_some(),
        Option::None => false,
    };
    if !ready {
        return Err(KError::Protocol);
    }
    match k.contexts.remove(callee) {
        Option::Some(c) => {
            match c.result {
                Option::Some(bytes) => {
                    proof {
                        assert forall|i: int| 0 <= i < k.contexts.entries@.len() implies
                            kstack_ok(#[trigger] k.contexts.entries@[i]) by {
                            let j = old(k).contexts.index_of(callee);
                            if i < j {
                                assert(k.contexts.entries@[i] == old(k).contexts.entries@[i]);
                            } else {
                                assert(k.contexts.entries@[i] == old(k).contexts.entries@[i
                                    + 1]);
                            }
                        }
                    }
                    Ok(bytes)
                },
                Option::None => {
                    // Unreachable: the result was seen present above.
                    proof {
                        assert(false);
                    }
                    Err(KError::Protocol)
                },
            }
        },
        Option::None => {
            // Unreachable: the entry was found above.
            proof {
                assert(false);
            }
            Err(KError::Protocol)
        },
    }
}

/// A fresh kernel at boot: an empty context table, the sentinel module
/// cache, an empty remote-call registry, and a transmit ring over this
/// peer's half of the shared region.
pub fn kernel_new(cpu: u32) -> (k: Kernel)
    ensures
        k.wf(),
        !k.switch_lock,
        k.contexts.entries@.len() == 0,
        k.call_queue.entries@.len() == 0,
        k.next_call_id == 0,
        k.tx.spec_size() == 0,
        k.tx.spec_capacity() > 0,
{
    let tx = Ring::new(BUFFER_SIZE / 2);
    let k = Kernel {
        contexts: ContextList::new(),
        current_id: 0,
        cpu_id: cpu,
        cpu_count: 1,
        ticks: 0,
        tss_stack: 0,
        switch_lock: false,
        cache: ModuleCache::new(),
        call_queue: CallQueue::new(),
        next_call_id: 0,
        tx,
    };
    k
}

/// Install the boot context: the kernel's own thread of control, Running
/// and owned by this CPU, becomes current.
pub fn kernel_init(k: &mut Kernel) -> (r: Result<u64, KError>)
    requires
        old(k).wf(),
    ensures
        final(k).wf(),
        !final(k).switch_lock == !old(k).switch_lock,
        r matches Ok(id) ==> final(k).contexts.contains_id(id) && final(k).current_id == id
            && final(k).contexts.entries@[final(k).contexts.index_of(id)].status
            == Status::Running,
{
    let mut context = match spawn_kernel() {
        Result::Ok(c) => c,
        Result::Err(e) => {
            return Err(e);
        },
    };
    context.status = Status::Running;
    context.cpu_id = Some(k.cpu_id);
    let ghost seeded = context;
    let id = match k.contexts.insert(context) {
        Result::Ok(id) => id,
        Result::Err(_) => {
            return Err(KError::AllocationFailure);
        },
    };
    k.current_id = id;
    proof {
        assert(k.contexts.entries@[k.contexts.index_of(id)] == (Context { id, ..seeded }));
        assert forall|i: int| 0 <= i < k.contexts.entries@.len() implies kstack_ok(
            #[trigger] k.contexts.entries@[i],
        ) by {
            let c = k.contexts.entries@[i];
            let id2 = c.id;
            assert(k.contexts.contains_id(id2));
            crate::context::lemma_sorted_index_unique(
                k.contexts.entries@,
                k.contexts.index_of(id2),
                i,
            );
            if id2 != id {
                assert(old(k).contexts.contains_id(id2));
                assert(c == old(k).contexts.entries@[old(k).contexts.index_of(id2)]);
            }
        }
    }
    Ok(id)
}

} // verus!
