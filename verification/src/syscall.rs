//! The syscall gateway and the process-level calls.
//!
//! A single entry receives a syscall number and an encoded argument stream,
//! dispatches to the fuse, cast, return, or write paths, and appends the
//! encoded result - or a one-element error stream - to the caller's
//! argument region, handing back its address there.  A fuse aimed at the
//! kernel module completes in place through the kernel's own entry points;
//! one aimed at a loaded module becomes a spawned callee that user code
//! must run.

use vstd::prelude::*;
use vstd::bytes::{spec_u32_to_le_bytes, u32_to_le_bytes};
use crate::call::{fuse_inner_bytes, cast_inner_bytes, ids_fresh, module_images_ok, spawn,
    CALL_ARGS_MAX};
use crate::context::{Context, Status, KERNEL_MODULE};
use crate::cxmem::Grant;
use crate::error::KError;
use crate::loader::{KERNEL_PRINT, table_lookup, cache_lookup, lemma_cache_lookup_in_range};
use crate::mem::{EntryFlags, FrameAlloc, PAGE_SIZE, FLAG_PRESENT, FLAG_WRITABLE,
    FLAG_NO_EXECUTE, FLAG_USER_ACCESSIBLE, FLAG_HUGE_PAGE, allocate_frames, deallocate_frames};
use crate::sched::{Kernel, UserEntry, fuse_return, kstack_ok};
use crate::sos::{Value, SosData, dview, dviews, dec_list, dec_prefix, decode_sos, encodable,
    enc_list, enc_list_len, encode_sos, lemma_dviews, DecodeIter};
use crate::consts::{USER_HEAP_OFFSET, USER_GRANT_OFFSET, KERNEL_OFFSET};

verus! {

pub const SYS_EXIT: u64 = 1;

pub const SYS_WRITE: u64 = 2;

pub const SYS_FUSE: u64 = 3;

pub const SYS_CAST: u64 = 4;

pub const SYS_RETURN: u64 = 5;

pub const SYS_GETPID: u64 = 20;

pub const SYS_BRK: u64 = 45;

pub const SYS_IOPL: u64 = 110;

pub const SYS_YIELD: u64 = 158;

pub const SYS_PHYSALLOC: u64 = 945;

pub const SYS_PHYSFREE: u64 = 946;

pub const SYS_PHYSMAP: u64 = 947;

pub const SYS_PHYSUNMAP: u64 = 948;

/// The interrupt-frame fields the gateway may edit.
#[derive(Debug, Clone, Copy, PartialEq, Eq, Structural)]
pub struct SyscallStack {
    pub rflags: u64,
}

/// Raise the I/O privilege bits of the saved flags.
pub fn iopl(level: u64, stack: &mut SyscallStack) -> (r: Result<u64, KError>)
    ensures
        level > 3 ==> r == Err::<u64, KError>(KError::BadArgumentType) && *final(stack) == *old(stack),
        level <= 3 ==> r == Ok::<u64, KError>(0) && final(stack).rflags == (old(stack).rflags & !(
        3u64 << 12)) | ((level & 3) << 12),
{
    if level > 3 {
        return Err(KError::BadArgumentType);
    }
    stack.rflags = (stack.rflags & !(3u64 << 12)) | ((level & 3) << 12);
    Ok(0)
}

/// Allocate whole frames to back `size` bytes of physical memory.
pub fn physalloc(a: &mut FrameAlloc, size: usize) -> (r: Result<u64, KError>)
    requires
        size <= usize::MAX - 4095,
        old(a).spec_used() + (size + 4095) / 4096 <= usize::MAX,
        old(a).spec_next() + (size + 4095) / 4096 <= u64::MAX / 4096,
    ensures
        r is Ok <==> (size + 4095) / 4096 <= old(a).spec_free(),
        r is Ok ==> final(a).spec_free() == old(a).spec_free() - (size + 4095) / 4096,
        r is Err ==> r == Err::<u64, KError>(KError::AllocationFailure) && *final(a) == *old(a),
{
    let count = (size + 4095) / 4096;
    match allocate_frames(a, count) {
        Option::Some(frame) => Ok(frame.number * 4096),
        Option::None => Err(KError::AllocationFailure),
    }
}

/// Return the frames backing `size` bytes at a physical address.
pub fn physfree(a: &mut FrameAlloc, physical_address: u64, size: usize) -> (r: Result<
    u64,
    KError,
>)
    requires
        size <= usize::MAX - 4095,
        old(a).spec_free() + (size + 4095) / 4096 <= usize::MAX,
    ensures
        r is Ok ==> final(a).spec_free() == old(a).spec_free() + (size + 4095) / 4096,
        r is Err ==> *final(a) == *old(a),
{
    let _ = physical_address;
    let count = (size + 4095) / 4096;
    let used = crate::mem::used_frames(a);
    if count > used {
        return Err(KError::Protocol);
    }
    deallocate_frames(a, crate::mem::Frame { number: 0 }, count);
    Ok(0)
}

/// The page-entry bits a physmap request asks for: present, user, no
/// execute, plus writable and huge-page when requested.
pub open spec fn physmap_flags(flags: u64) -> u64 {
    let base = FLAG_PRESENT | FLAG_NO_EXECUTE | FLAG_USER_ACCESSIBLE;
    let w = if flags & 1 == 1 {
        base | FLAG_WRITABLE
    } else {
        base
    };
    if flags & 2 == 2 {
        w | FLAG_HUGE_PAGE
    } else {
        w
    }
}

/// Where a grant of `full` bytes lands: walk the sorted grant list from
/// `to`, take the first gap that holds it whole, or the end of the list;
/// an oversized or address-exhausting neighbour fails the walk.
pub open spec fn grant_scan(gs: Seq<Grant>, i: int, to: u64, full: int) -> Result<
    (int, u64),
    KError,
>
    decreases gs.len() - i,
{
    if i < 0 || i >= gs.len() {
        if to > u64::MAX - full {
            Err(KError::MapFailure)
        } else {
            Ok((i, to))
        }
    } else if to <= u64::MAX - full && to + full < gs[i].start {
        Ok((i, to))
    } else if gs[i].size > 0x1000_0000 {
        Err(KError::MapFailure)
    } else if gs[i].start > u64::MAX - (gs[i].size + 4095) / 4096 * 4096 {
        Err(KError::MapFailure)
    } else {
        grant_scan(gs, i + 1, (gs[i].start + (gs[i].size + 4095) / 4096 * 4096) as u64, full)
    }
}

/// Map `size` bytes of physical memory into the caller's grant region: the
/// grant lands in the first gap of the grant list that holds it - `Ok`
/// exactly when the walk finds one - and the caller gets back the address
/// of its asked-for byte.
pub fn physmap(grants: &mut Vec<Grant>, physical_address: u64, size: usize, flags: u64) -> (r:
    Result<u64, KError>)
    ensures
        size == 0 ==> r == Ok::<u64, KError>(0) && final(grants)@ == old(grants)@,
        r is Err ==> final(grants)@ == old(grants)@,
        size > 0 ==> ({
            let offset = physical_address % 4096;
            let full = (offset + size + 4095) / 4096 * 4096;
            &&& (r is Ok <==> size <= 0x1000_0000 && grant_scan(
                old(grants)@,
                0,
                USER_GRANT_OFFSET,
                full,
            ) is Ok)
            &&& (r matches Ok(a) ==> grant_scan(old(grants)@, 0, USER_GRANT_OFFSET, full)
                matches Ok(pr) && a == pr.1 + offset && final(grants)@ == old(grants)@.insert(
                pr.0,
                Grant {
                    start: pr.1,
                    size: full as usize,
                    flags: EntryFlags { bits: physmap_flags(flags) },
                    mapped: true,
                },
            ))
        }),
{
    if size == 0 {
        return Ok(0);
    }
    if size > 0x1000_0000 {
        return Err(KError::MapFailure);
    }
    let from_address = (physical_address / 4096) * 4096;
    proof {
        assert(physical_address / 4096 * 4096 <= physical_address && physical_address
            - physical_address / 4096 * 4096 < 4096) by (nonlinear_arith);
    }
    let offset = physical_address - from_address;
    let full_size = (((offset as usize + size) + 4095) / 4096) * 4096;
    proof {
        assert(full_size <= 0x1001_0000 && full_size >= offset + size) by (nonlinear_arith)
            requires
                full_size == ((offset + size) as int + 4095) / 4096 * 4096,
                offset < 4096,
                0 <= size <= 0x1000_0000,
        ;
    }
    let mut to_address: u64 = USER_GRANT_OFFSET;
    let mut entry_flags = EntryFlags::new(
        FLAG_PRESENT | FLAG_NO_EXECUTE | FLAG_USER_ACCESSIBLE,
    );
    if flags & 1 == 1 {
        entry_flags.insert(EntryFlags::new(FLAG_WRITABLE));
    }
    if flags & 2 == 2 {
        entry_flags.insert(EntryFlags::new(FLAG_HUGE_PAGE));
    }
    proof {
        assert(entry_flags.bits == physmap_flags(flags));
        assert(full_size as int == (physical_address % 4096 + size + 4095) / 4096 * 4096);
    }
    let n = grants.len();
    let mut i: usize = 0;
    while i < n
        invariant
            i <= n,
            n == grants@.len(),
            grants@ == old(grants)@,
            full_size <= 0x1001_0000,
            full_size >= offset + size,
            size >= 1,
            offset < 4096,
            offset as int == physical_address % 4096,
            size <= 0x1000_0000,
            entry_flags.bits == physmap_flags(flags),
            full_size as int == (physical_address % 4096 + size + 4095) / 4096 * 4096,
            grant_scan(grants@, 0, USER_GRANT_OFFSET, full_size as int) == grant_scan(
                grants@,
                i as int,
                to_address,
                full_size as int,
            ),
        decreases n - i,
    {
        let g = vstd::std_specs::vec::vec_index(grants, i);
        let start = g.start;
        if to_address <= u64::MAX - full_size as u64 && to_address + (full_size as u64) < start {
            grants.insert(
                i,
                Grant::physmap(from_address, to_address, full_size, entry_flags),
            );
            proof {
                assert(grant_scan(old(grants)@, i as int, to_address, full_size as int) == Ok::<
                    (int, u64),
                    KError,
                >((i as int, to_address)));
                assert(entry_flags == (EntryFlags { bits: physmap_flags(flags) }));
                assert(grants@ == old(grants)@.insert(
                    i as int,
                    Grant {
                        start: to_address,
                        size: full_size,
                        flags: EntryFlags { bits: physmap_flags(flags) },
                        mapped: true,
                    },
                ));
            }
            return Ok(to_address + offset);
        }
        if g.size > 0x1000_0000 {
            return Err(KError::MapFailure);
        }
        let pages = (g.size + 4095) / 4096;
        if start > u64::MAX - (pages as u64) * 4096 {
            return Err(KError::MapFailure);
        }
        to_address = start + (pages as u64) * 4096;
        i = i + 1;
    }
    if to_address > u64::MAX - full_size as u64 {
        return Err(KError::MapFailure);
    }
    let ghost pre = grants@;
    grants.push(Grant::physmap(from_address, to_address, full_size, entry_flags));
    proof {
        assert(grants@ =~= pre.insert(pre.len() as int, grants@[pre.len() as int]));
    }
    Ok(to_address + offset)
}

/// A grant's span holds the address (and does not wrap).
pub open spec fn grant_covers(g: Grant, a: u64) -> bool {
    g.start + g.size <= u64::MAX && g.start <= a < g.start + g.size
}

/// First grant whose span holds the address.
pub open spec fn grant_covering(gs: Seq<Grant>, a: u64) -> Option<int>
    decreases gs.len(),
{
    if gs.len() == 0 {
        None
    } else if grant_covers(gs[0], a) {
        Some(0)
    } else {
        match grant_covering(gs.skip(1), a) {
            Some(i) => Some(i + 1),
            None => None,
        }
    }
}

/// A miss-free prefix shifts the covering search.
proof fn lemma_grant_covering_step(gs: Seq<Grant>, a: u64, i: int)
    requires
        0 <= i <= gs.len(),
        forall|j: int| 0 <= j < i ==> !grant_covers(#[trigger] gs[j], a),
    ensures
        grant_covering(gs, a) == (match grant_covering(gs.skip(i), a) {
            Some(w) => Some(w + i),
            None => None::<int>,
        }),
    decreases i,
{
    if i == 0 {
        assert(gs.skip(0) =~= gs);
    } else {
        lemma_grant_covering_step(gs, a, i - 1);
        assert(gs.skip(i - 1).len() > 0);
        assert(gs.skip(i - 1)[0] == gs[i - 1]);
        assert(gs.skip(i - 1).skip(1) =~= gs.skip(i));
    }
}

/// Unmap the grant containing a virtual address: `Ok` exactly when some
/// grant's span holds it, and exactly the first such grant is removed.
pub fn physunmap(grants: &mut Vec<Grant>, virtual_address: u64) -> (r: Result<u64, KError>)
    ensures
        virtual_address == 0 ==> r == Ok::<u64, KError>(0) && final(grants)@ == old(grants)@,
        virtual_address > 0 ==> (r is Ok <==> grant_covering(
            old(grants)@,
            virtual_address,
        ) is Some),
        virtual_address > 0 && r is Ok ==> ({
            let i = grant_covering(old(grants)@, virtual_address)->0;
            &&& 0 <= i < old(grants)@.len()
            &&& final(grants)@ == old(grants)@.subrange(0, i) + old(grants)@.skip(i + 1)
        }),
        r is Err ==> r == Err::<u64, KError>(KError::InvalidMemoryRange) && final(grants)@ == old(grants)@,
{
    if virtual_address == 0 {
        return Ok(0);
    }
    let n = grants.len();
    let mut i: usize = 0;
    while i < n
        invariant
            i <= n,
            n == grants@.len(),
            grants@ == old(grants)@,
            virtual_address != 0,
            forall|j: int| 0 <= j < i ==> !grant_covers(#[trigger] grants@[j], virtual_address),
        decreases n - i,
    {
        let g = vstd::std_specs::vec::vec_index(grants, i);
        let start = g.start;
        if start <= u64::MAX - g.size as u64 {
            let end = start + g.size as u64;
            if virtual_address >= start && virtual_address < end {
                proof {
                    lemma_grant_covering_step(grants@, virtual_address, i as int);
                    assert(grants@.skip(i as int)[0] == grants@[i as int]);
                }
                let grant = grants.remove(i);
                grant.unmap();
                proof {
                    assert(grants@ =~= old(grants)@.subrange(0, i as int) + old(
                        grants,
                    )@.skip(i as int + 1));
                }
                return Ok(0);
            }
        }
        i = i + 1;
    }
    proof {
        lemma_grant_covering_step(grants@, virtual_address, n as int);
    }
    Err(KError::InvalidMemoryRange)
}

/// The kernel module's own entry points, run in place.  `print` takes a
/// text first argument and returns its length, as the write path does.
pub fn kernel_call(func: u64, args: Vec<Value>) -> (r: Result<Vec<Value>, KError>)
    ensures
        func != KERNEL_PRINT ==> r == Err::<Vec<Value>, KError>(KError::NoSuchFunction),
        func == KERNEL_PRINT && args@.len() == 0 ==> r == Err::<Vec<Value>, KError>(
            KError::NotEnoughArguments,
        ),
        func == KERNEL_PRINT && args@.len() > 0 ==> match dview(args@[0]) {
            SosData::String(s) => r is Ok && dviews(r->Ok_0@) == seq![
                SosData::UInt64(s.len() as u64),
            ],
            SosData::Error(s) => r is Ok && dviews(r->Ok_0@) == seq![
                SosData::UInt64(s.len() as u64),
            ],
            _ => r == Err::<Vec<Value>, KError>(KError::BadArgumentType),
        },
        r is Ok ==> encodable(dviews(r->Ok_0@)) && enc_list_len(dviews(r->Ok_0@)) == 17,
{
    if func != KERNEL_PRINT {
        return Err(KError::NoSuchFunction);
    }
    let mut args = args;
    if args.len() == 0 {
        return Err(KError::NotEnoughArguments);
    }
    let first = args.remove(0);
    let ghost firstg = first;
    let text = match first.into_text() {
        Result::Ok(t) => t,
        Result::Err(_) => {
            return Err(KError::BadArgumentType);
        },
    };
    let mut out: Vec<Value> = Vec::new();
    out.push(Value::UInt64(text.len() as u64));
    proof {
        lemma_dviews(out@);
        assert(dviews(out@) =~= seq![SosData::UInt64(text@.len() as u64)]);
        assert(enc_list_len(dviews(out@)) == 17);
    }
    Ok(out)
}

/// The framing that passes a decoded tail through to a callee: the
/// remaining count, a total length, then the remaining bytes unchanged.
pub open spec fn reframe(count: u32, body: Seq<u8>) -> Seq<u8> {
    spec_u32_to_le_bytes(count) + spec_u32_to_le_bytes((8 + body.len()) as u32) + body
}

/// A reframed tail decodes to exactly the values the tail held.
pub proof fn lemma_reframe_decodes(count: u32, body: Seq<u8>)
    requires
        8 + body.len() <= u32::MAX,
    ensures
        dec_list(reframe(count, body)) == Some(dec_prefix(body, count as nat)),
{
    vstd::bytes::lemma_auto_spec_u32_to_from_le_bytes();
    let b = reframe(count, body);
    assert(b.subrange(0, 4) =~= spec_u32_to_le_bytes(count));
    assert(b.subrange(4, 8) =~= spec_u32_to_le_bytes((8 + body.len()) as u32));
    assert(b.len() == 8 + body.len());
    assert(b.subrange(8, b.len() as int) =~= body);
}

/// Build the reframed bytes for a reader's remaining values.
fn reframe_bytes(count: u32, body: &[u8]) -> (out: Vec<u8>)
    requires
        8 + body@.len() <= u32::MAX,
    ensures
        out@ == reframe(count, body@),
        out@.len() == 8 + body@.len(),
{
    let mut out = u32_to_le_bytes(count);
    let mut tot = u32_to_le_bytes(8 + body.len() as u32);
    out.append(&mut tot);
    let mut b = vstd::slice::slice_to_vec(body);
    out.append(&mut b);
    proof {
        assert(out@ =~= reframe(count, body@));
    }
    out
}

/// What a fuse through the gateway came to: completed in the kernel with a
/// payload, or started as a context that user code must run.
pub enum FuseAction {
    Done(Vec<u8>),
    Started(u64, UserEntry),
}

/// The fuse syscall: the first value names the function; a kernel-module
/// target runs in place and its encoded result comes back, a loaded-module
/// target becomes a running callee seeded with the remaining values.  A
/// name that is not in the module cache is `NoSuchModule`: images live on
/// boot media the kernel core cannot read, so the embedding pre-loads them
/// with `load_and_cache`.
pub fn sys_fuse(k: &mut Kernel, args: &[u8]) -> (r: Result<FuseAction, KError>)
    requires
        old(k).wf(),
        !old(k).switch_lock,
        module_images_ok(old(k).cache),
        old(k).contexts.contains_id(old(k).current_id),
        args@.len() + 9 < CALL_ARGS_MAX,
    ensures
        final(k).wf(),
        !final(k).switch_lock,
        final(k).cache == old(k).cache,
        final(k).call_queue == old(k).call_queue,
        final(k).tx == old(k).tx,
        dec_list(args@) is None ==> r == Err::<FuseAction, KError>(KError::Protocol),
        r matches Ok(a) ==> dec_list(args@) is Some,
        // Success is owed whenever the stream resolves to a loaded module's
        // function and a fresh id can still be minted.
        ids_fresh(*old(k)) && dec_list(args@) is Some && dec_list(args@)->0.len() > 0 && (
        dec_list(args@)->0[0] matches SosData::Function(m, n) && cache_lookup(
            old(k).cache.modules@,
            m,
        ) matches Some(mi) && mi != KERNEL_MODULE as int && table_lookup(
            old(k).cache.modules@[mi].func_table@,
            n,
        ) is Some) ==> r is Ok && r->Ok_0 is Started,
        // A kernel-module fuse completes in place: for the kernel's print,
        // the returned bytes are the encoded length of the text argument.
        r matches Ok(a) ==> (a matches FuseAction::Done(b) ==> ({
            let vals = dec_list(args@)->0;
            &&& vals.len() > 0
            &&& (vals.len() >= 2 ==> ((vals[1] matches SosData::String(s2) ==> b@ == enc_list(
                seq![SosData::UInt64(s2.len() as u64)],
            )) && (vals[1] matches SosData::Error(s2) ==> b@ == enc_list(
                seq![SosData::UInt64(s2.len() as u64)],
            ))))
        })),
        r matches Ok(a) ==> (a matches FuseAction::Started(id, _e) ==> {
            &&& final(k).contexts.contains_id(id)
            &&& dec_list(args@)->0.len() > 0
            &&& ({
                let callee = final(k).contexts.entries@[final(k).contexts.index_of(id)];
                &&& callee.status == Status::Running
                &&& callee.ret_link == Some(old(k).current_id)
                &&& callee.args.spec_memory() is Some
                &&& exists|w: int| 0 <= w <= callee.args.spec_memory()->0.bytes().len()
                    && dec_list(#[trigger] callee.args.spec_memory()->0.bytes().subrange(0, w))
                    == Some(dec_list(args@)->0.skip(1))
            })
        }),
{
    let mut it = match decode_sos(args) {
        Option::Some(it) => it,
        Option::None => {
            return Err(KError::Protocol);
        },
    };
    let ghost target = crate::sos::dec_list(args@)->0;
    let ghost rem0 = it.remaining();
    let ghost c0 = it.spec_count();
    let first = match it.next() {
        Option::Some(v) => v,
        Option::None => {
            return Err(KError::NotEnoughArguments);
        },
    };
    proof {
        // The stream opens with the function value; what remains in the
        // reader is exactly the tail of the decoded list.
        assert(dec_prefix(rem0, c0) == seq![crate::sos::dv_data(rem0)] + dec_prefix(
            it.remaining(),
            it.spec_count(),
        ));
        assert(dec_prefix(it.remaining(), it.spec_count()) =~= target.skip(1));
    }
    let function = match first.into_function() {
        Result::Ok(f) => f,
        Result::Err(_) => {
            return Err(KError::BadArgumentType);
        },
    };
    let module = match k.cache.cached_module(function.module.as_slice()) {
        Option::Some(m) => m,
        Option::None => {
            return Err(KError::NoSuchModule);
        },
    };
    if module == KERNEL_MODULE {
        let m = match k.cache.get(module) {
            Option::Some(m) => m,
            Option::None => {
                return Err(KError::NoSuchModule);
            },
        };
        let f = match m.function(function.name.as_slice()) {
            Option::Some(f) => f,
            Option::None => {
                return Err(KError::NoSuchFunction);
            },
        };
        let mut rest: Vec<Value> = Vec::new();
        proof {
            lemma_dviews(rest@);
            assert(dviews(rest@) + dec_prefix(it.remaining(), it.spec_count()) =~= target.skip(
                1,
            ));
        }
        loop
            invariant_except_break
                it.wf(),
                dviews(rest@) + dec_prefix(it.remaining(), it.spec_count()) == target.skip(1),
            ensures
                dviews(rest@) == target.skip(1),
            decreases it.spec_count(),
        {
            let ghost prev_rem = it.remaining();
            let ghost prev_count = it.spec_count();
            let ghost prev_rest = rest@;
            match it.next() {
                Option::Some(v) => {
                    rest.push(v);
                    proof {
                        crate::sos::lemma_dviews_push_pub(prev_rest, v);
                        assert(dec_prefix(prev_rem, prev_count) == seq![crate::sos::dview(v)]
                            + dec_prefix(it.remaining(), it.spec_count()));
                        assert(dviews(rest@) + dec_prefix(it.remaining(), it.spec_count())
                            =~= target.skip(1));
                    }
                },
                Option::None => {
                    proof {
                        assert(dec_prefix(prev_rem, prev_count) =~= Seq::<SosData>::empty());
                        assert(dviews(rest@) =~= target.skip(1));
                    }
                    break;
                },
            }
        }
        let out = match kernel_call(f, rest) {
            Result::Ok(vs) => vs,
            Result::Err(e) => {
                return Err(e);
            },
        };
        let encoded = encode_sos(out.as_slice());
        proof {
            lemma_dviews(rest@);
            if target.len() >= 2 {
                assert(dviews(rest@)[0] == target.skip(1)[0]);
            }
        }
        return Ok(FuseAction::Done(encoded));
    }
    // A loaded module: pass the remaining values through and start the
    // callee.
    proof {
        lemma_cache_lookup_in_range(k.cache.modules@, function.module@);
        it.lemma_remaining_bound();
    }
    let count = it.count();
    let body = it.rest();
    if count > u32::MAX as usize || body.len() > args.len() {
        return Err(KError::Protocol);
    }
    let payload = reframe_bytes(count as u32, body);
    proof {
        lemma_reframe_decodes(count as u32, body@);
        assert(dec_list(payload@) == Some(target.skip(1)));
    }
    match fuse_inner_bytes(
        k,
        module,
        function.name.as_slice(),
        payload.as_slice(),
    ) {
        Result::Ok(p) => {
            proof {
                let callee = k.contexts.entries@[k.contexts.index_of(p.0)];
                let w = payload@.len() as int;
                assert(w <= callee.args.spec_memory()->0.bytes().len());
                assert(callee.args.spec_memory()->0.bytes().subrange(0, w) == payload@);
                assert(dec_list(callee.args.spec_memory()->0.bytes().subrange(0, w)) == Some(
                    target.skip(1),
                ));
            }
            Ok(FuseAction::Started(p.0, p.1))
        },
        Result::Err(e) => Err(e),
    }
}

/// The cast syscall: like the fuse path, but the callee is enqueued as New
/// and nothing comes back; a kernel-module target runs in place and its
/// result is discarded.
pub fn sys_cast(k: &mut Kernel, args: &[u8]) -> (r: Result<(), KError>)
    requires
        old(k).wf(),
        module_images_ok(old(k).cache),
        args@.len() + 9 < CALL_ARGS_MAX,
    ensures
        final(k).wf(),
        final(k).switch_lock == old(k).switch_lock,
        final(k).cache == old(k).cache,
        final(k).call_queue == old(k).call_queue,
        final(k).tx == old(k).tx,
        final(k).current_id == old(k).current_id,
        forall|id2: u64| old(k).contexts.contains_id(id2) ==> final(k).contexts.contains_id(id2)
            && final(k).contexts.entries@[final(k).contexts.index_of(id2)] == old(k).contexts.entries@[old(k).contexts.index_of(id2)],
        dec_list(args@) is None ==> r == Err::<(), KError>(KError::Protocol),
        ids_fresh(*old(k)) && dec_list(args@) is Some && dec_list(args@)->0.len() > 0 && (
        dec_list(args@)->0[0] matches SosData::Function(m, n) && cache_lookup(
            old(k).cache.modules@,
            m,
        ) matches Some(mi) && mi != KERNEL_MODULE as int && table_lookup(
            old(k).cache.modules@[mi].func_table@,
            n,
        ) is Some) ==> r is Ok,
{
    let mut it = match decode_sos(args) {
        Option::Some(it) => it,
        Option::None => {
            return Err(KError::Protocol);
        },
    };
    let ghost target = crate::sos::dec_list(args@)->0;
    let ghost rem0 = it.remaining();
    let ghost c0 = it.spec_count();
    let first = match it.next() {
        Option::Some(v) => v,
        Option::None => {
            proof {
                assert(dec_prefix(rem0, c0).len() == 0);
            }
            return Err(KError::NotEnoughArguments);
        },
    };
    proof {
        assert(dec_prefix(rem0, c0) == seq![crate::sos::dv_data(rem0)] + dec_prefix(
            it.remaining(),
            it.spec_count(),
        ));
        assert(target.len() > 0 && target[0] == crate::sos::dview(first));
    }
    let function = match first.into_function() {
        Result::Ok(f) => f,
        Result::Err(_) => {
            return Err(KError::BadArgumentType);
        },
    };
    let module = match k.cache.cached_module(function.module.as_slice()) {
        Option::Some(m) => m,
        Option::None => {
            return Err(KError::NoSuchModule);
        },
    };
    if module == KERNEL_MODULE {
        let m = match k.cache.get(module) {
            Option::Some(m) => m,
            Option::None => {
                return Err(KError::NoSuchModule);
            },
        };
        let f = match m.function(function.name.as_slice()) {
            Option::Some(f) => f,
            Option::None => {
                proof {
                    lemma_cache_lookup_in_range(k.cache.modules@, function.module@);
                }
                return Err(KError::NoSuchFunction);
            },
        };
        let mut rest: Vec<Value> = Vec::new();
        loop
            invariant
                it.wf(),
            decreases it.spec_count(),
        {
            match it.next() {
                Option::Some(v) => {
                    rest.push(v);
                },
                Option::None => {
                    break;
                },
            }
        }
        match kernel_call(f, rest) {
            Result::Ok(_) => {
                return Ok(());
            },
            Result::Err(e) => {
                return Err(e);
            },
        }
    }
    proof {
        lemma_cache_lookup_in_range(k.cache.modules@, function.module@);
        it.lemma_remaining_bound();
    }
    let count = it.count();
    let body = it.rest();
    if count > u32::MAX as usize || body.len() > args.len() {
        return Err(KError::Protocol);
    }
    let payload = reframe_bytes(count as u32, body);
    match cast_inner_bytes(k, module, function.name.as_slice(), payload.as_slice()) {
        Result::Ok(_) => Ok(()),
        Result::Err(e) => Err(e),
    }
}

/// The return syscall: store the payload as the current context's result,
/// for the scheduler to hand to the blocked caller; the context then
/// exits.
pub fn sys_return(k: &mut Kernel, payload: &[u8]) -> (r: Result<(), KError>)
    requires
        old(k).wf(),
    ensures
        final(k).wf(),
        final(k).cache == old(k).cache,
        final(k).call_queue == old(k).call_queue,
        final(k).tx == old(k).tx,
        final(k).current_id == old(k).current_id,
        final(k).switch_lock == old(k).switch_lock,
        r is Ok <==> old(k).contexts.contains_id(old(k).current_id),
        r is Ok ==> {
            &&& final(k).contexts.contains_id(old(k).current_id)
            &&& ({
                let before = old(k).contexts.entries@[old(k).contexts.index_of(
                    old(k).current_id,
                )];
                let after = final(k).contexts.entries@[final(k).contexts.index_of(
                    old(k).current_id,
                )];
                &&& after.result is Some
                &&& after.result->0@ == payload@
                &&& after == (Context { result: after.result, ..before })
            })
            &&& forall|id2: u64| id2 != old(k).current_id && old(k).contexts.contains_id(id2)
                ==> final(k).contexts.contains_id(id2) && final(k).contexts.entries@[final(k).contexts.index_of(id2)] == old(k).contexts.entries@[old(k).contexts.index_of(id2)]
        },
        r is Err ==> *final(k) == *old(k),
{
    let i = match k.contexts.find(k.current_id) {
        Option::Some(i) => i,
        Option::None => {
            return Err(KError::Protocol);
        },
    };
    let ghost olds = k.contexts.entries@;
    let mut c = k.contexts.entries.remove(i);
    c.result = Some(vstd::slice::slice_to_vec(payload));
    k.contexts.entries.insert(i, c);
    proof {
        let ends = k.contexts.entries@;
        assert(ends =~= olds.update(i as int, ends[i as int]));
        assert forall|a: int, b: int| 0 <= a < b < ends.len() implies #[trigger] ends[a].id
            < #[trigger] ends[b].id by {
            assert(ends[a].id == olds[a].id);
            assert(ends[b].id == olds[b].id);
        }
        assert forall|a: int| 0 <= a < ends.len() implies 1 <= (#[trigger] ends[a]).id
            < crate::context::CONTEXT_MAX_CONTEXTS by {
            assert(ends[a].id == olds[a].id);
        }
        assert forall|a: int| 0 <= a < ends.len() implies kstack_ok(#[trigger] ends[a]) by {
            if a != i as int {
                assert(ends[a] == olds[a]);
            }
        }
        crate::context::lemma_sorted_index_unique(olds, old(k).contexts.index_of(k.current_id), i as int);
        assert(ends[i as int].id == k.current_id);
        assert(k.contexts.contains_id(k.current_id));
        crate::context::lemma_sorted_index_unique(ends, k.contexts.index_of(k.current_id), i as int);
        assert forall|id2: u64| id2 != k.current_id && old(k).contexts.contains_id(id2) implies
            k.contexts.contains_id(id2) && k.contexts.entries@[k.contexts.index_of(id2)]
            == olds[old(k).contexts.index_of(id2)] by {
            let j = old(k).contexts.index_of(id2);
            assert(olds[j].id == id2);
            assert(ends[j].id == id2);
            crate::context::lemma_sorted_index_unique(ends, k.contexts.index_of(id2), j);
        }
    }
    Ok(())
}

/// Exit the current context with a status: a fused callee also wakes its
/// caller, which becomes current again; its stored result is untouched, so
/// the caller can collect it.
pub fn exit(k: &mut Kernel, status: usize) -> (r: Option<u64>)
    requires
        old(k).wf(),
        !old(k).switch_lock,
    ensures
        final(k).wf(),
        !final(k).switch_lock,
        final(k).cache == old(k).cache,
        final(k).call_queue == old(k).call_queue,
        final(k).tx == old(k).tx,
        r matches Some(parent) ==> final(k).current_id == parent && final(k).contexts.contains_id(parent) && final(k).contexts.entries@[final(k).contexts.index_of(parent)].status == Status::Running,
        old(k).contexts.contains_id(old(k).current_id) ==> {
            &&& final(k).contexts.contains_id(old(k).current_id)
            &&& ({
                let before = old(k).contexts.entries@[old(k).contexts.index_of(
                    old(k).current_id,
                )];
                let after = final(k).contexts.entries@[final(k).contexts.index_of(
                    old(k).current_id,
                )];
                &&& after.status == Status::Exited(status)
                &&& after.result == before.result
                &&& (before.ret_link is Some && old(k).contexts.contains_id(before.ret_link->0)
                    && before.ret_link->0 != old(k).current_id ==> r == Some(before.ret_link->0))
            })
        },
{
    let i = match k.contexts.find(k.current_id) {
        Option::Some(i) => i,
        Option::None => {
            return None;
        },
    };
    let ghost olds = k.contexts.entries@;
    let mut c = k.contexts.entries.remove(i);
    c.status = Status::Exited(status);
    let parent = c.ret_link.take();
    let cur = c.id;
    k.contexts.entries.insert(i, c);
    proof {
        let ends = k.contexts.entries@;
        assert(ends =~= olds.update(i as int, ends[i as int]));
        assert forall|a: int, b: int| 0 <= a < b < ends.len() implies #[trigger] ends[a].id
            < #[trigger] ends[b].id by {
            assert(ends[a].id == olds[a].id);
            assert(ends[b].id == olds[b].id);
        }
        assert forall|a: int| 0 <= a < ends.len() implies 1 <= (#[trigger] ends[a]).id
            < crate::context::CONTEXT_MAX_CONTEXTS by {
            assert(ends[a].id == olds[a].id);
        }
        assert forall|a: int| 0 <= a < ends.len() implies kstack_ok(#[trigger] ends[a]) by {
            if a != i as int {
                assert(ends[a] == olds[a]);
            }
        }
        crate::context::lemma_sorted_index_unique(
            olds,
            old(k).contexts.index_of(k.current_id),
            i as int,
        );
    }
    let ghost mid = *k;
    proof {
        assert(mid.contexts.entries@[i as int].id == cur);
        assert(mid.contexts.contains_id(cur));
        crate::context::lemma_sorted_index_unique(
            mid.contexts.entries@,
            mid.contexts.index_of(cur),
            i as int,
        );
    }
    match parent {
        Option::Some(p) => {
            if p != cur {
                proof {
                    if old(k).contexts.contains_id(p) {
                        let j = old(k).contexts.index_of(p);
                        assert(olds[j].id == p);
                        assert(mid.contexts.entries@[j].id == p);
                        assert(mid.contexts.contains_id(p));
                    }
                }
                match fuse_return(k, cur, p) {
                    Result::Ok(_) => {
                        proof {
                            lemma_exit_entry_preserved(mid, *k, cur, p);
                        }
                        Some(p)
                    },
                    Result::Err(_) => {
                        proof {
                            assert(k.contexts.entries@ == mid.contexts.entries@);
                        }
                        None
                    },
                }
            } else {
                None
            }
        },
        Option::None => None,
    }
}

/// After a fuse return to the parent, the exited callee's record is
/// untouched.
proof fn lemma_exit_entry_preserved(mid: Kernel, end: Kernel, cur: u64, p: u64)
    requires
        mid.wf(),
        end.wf(),
        cur != p,
        mid.contexts.contains_id(cur),
        forall|id2: u64| mid.contexts.contains_id(id2) <==> end.contexts.contains_id(id2),
        forall|id2: u64| id2 != p && mid.contexts.contains_id(id2) ==> end.contexts.entries@[
            end.contexts.index_of(id2)
        ] == mid.contexts.entries@[mid.contexts.index_of(id2)],
    ensures
        end.contexts.contains_id(cur),
        end.contexts.entries@[end.contexts.index_of(cur)] == mid.contexts.entries@[
            mid.contexts.index_of(cur)
        ],
{
}

/// Reap an exited context out of the table.
pub fn reap(k: &mut Kernel, id: u64) -> (r: Result<u64, KError>)
    requires
        old(k).wf(),
    ensures
        final(k).wf(),
        final(k).cache == old(k).cache,
        final(k).call_queue == old(k).call_queue,
        final(k).tx == old(k).tx,
        r is Ok <==> old(k).contexts.contains_id(id) && old(k).contexts.entries@[old(k).contexts.index_of(id)].status != Status::Running,
        r is Ok ==> !final(k).contexts.contains_id(id) && old(k).contexts.contains_id(id),
        r is Err ==> final(k).contexts.entries@ == old(k).contexts.entries@,
{
    let running = match k.contexts.get(id) {
        Option::Some(c) => c.status == Status::Running,
        Option::None => {
            return Err(KError::Protocol);
        },
    };
    if running {
        return Err(KError::Protocol);
    }
    match k.contexts.remove(id) {
        Option::Some(_) => {
            proof {
                assert forall|a: int| 0 <= a < k.contexts.entries@.len() implies kstack_ok(
                    #[trigger] k.contexts.entries@[a],
                ) by {
                    let j = old(k).contexts.index_of(id);
                    if a < j {
                        assert(k.contexts.entries@[a] == old(k).contexts.entries@[a]);
                    } else {
                        assert(k.contexts.entries@[a] == old(k).contexts.entries@[a + 1]);
                    }
                }
            }
            Ok(id)
        },
        Option::None => Err(KError::Protocol),
    }
}

/// The current context's id.
pub fn getpid(k: &Kernel) -> (r: Result<u64, KError>)
    requires
        k.wf(),
    ensures
        r is Ok <==> k.contexts.contains_id(k.current_id),
        k.contexts.contains_id(k.current_id) ==> r == Ok::<u64, KError>(k.current_id),
        !k.contexts.contains_id(k.current_id) ==> r == Err::<u64, KError>(KError::Protocol),
{
    match k.contexts.find(k.current_id) {
        Option::Some(_) => Ok(k.current_id),
        Option::None => Err(KError::Protocol),
    }
}


/// Set the end of the current context's heap: zero queries the current
/// break, a target address at or above the heap base resizes the heap to
/// cover it page by page, anything below is refused.
pub fn brk(k: &mut Kernel, address: u64) -> (r: Result<u64, KError>)
    requires
        old(k).wf(),
    ensures
        final(k).wf(),
        final(k).cache == old(k).cache,
        final(k).call_queue == old(k).call_queue,
        final(k).tx == old(k).tx,
        final(k).current_id == old(k).current_id,
        address > 0 && address < USER_HEAP_OFFSET && old(k).contexts.contains_id(
            old(k).current_id,
        ) ==> r == Err::<u64, KError>(KError::AllocationFailure),
        r matches Ok(a) ==> address == 0 ==> old(k).contexts.contains_id(old(k).current_id),
        // The query: address zero returns the current break, the heap's end
        // address, when a heap exists.
        address == 0 && old(k).contexts.contains_id(old(k).current_id) ==> ({
            let before = old(k).contexts.entries@[old(k).contexts.index_of(old(k).current_id)];
            &&& *final(k) == *old(k)
            &&& (before.heap is Some && before.heap->0.spec_page_count() <= (u64::MAX
                - USER_HEAP_OFFSET) as int / PAGE_SIZE as int && before.heap->0.spec_context_address()
                + before.heap->0.spec_page_count() * PAGE_SIZE <= u64::MAX ==> r == Ok::<
                u64,
                KError,
            >(
                (before.heap->0.spec_context_address() + before.heap->0.spec_page_count()
                    * PAGE_SIZE) as u64,
            ))
            &&& (before.heap is None ==> r == Err::<u64, KError>(KError::Protocol))
        }),
        // The resize: a target at or above the heap base resizes the heap to
        // cover it, page by page; the common prefix is kept and a growing
        // tail is zero-filled.
        address >= USER_HEAP_OFFSET && address - USER_HEAP_OFFSET <= 0x1000_0000 && old(k).contexts.contains_id(old(k).current_id) ==> ({
            let before = old(k).contexts.entries@[old(k).contexts.index_of(old(k).current_id)];
            let pages = ((address - USER_HEAP_OFFSET) + (PAGE_SIZE - 1) as int) as int
                / PAGE_SIZE as int;
            &&& (pages == 0 ==> r == Err::<u64, KError>(KError::AllocationFailure))
            &&& (pages >= 1 && before.heap is Some && before.heap->0.wf() ==> {
                &&& r == Ok::<u64, KError>(address)
                &&& final(k).contexts.contains_id(old(k).current_id)
                &&& ({
                    let after = final(k).contexts.entries@[final(k).contexts.index_of(
                        old(k).current_id,
                    )];
                    &&& after == (Context { heap: after.heap, ..before })
                    &&& after.heap is Some
                    &&& after.heap->0.spec_page_count() == pages
                    &&& (pages == before.heap->0.spec_page_count() ==> after.heap
                        == before.heap)
                    &&& (pages != before.heap->0.spec_page_count() ==> (forall|b: int|
                        0 <= b < before.heap->0.bytes().len() && b
                            < after.heap->0.bytes().len() ==> #[trigger] after.heap->0.bytes()[b]
                            == before.heap->0.bytes()[b]) && (forall|b: int|
                        before.heap->0.bytes().len() <= b < after.heap->0.bytes().len()
                            ==> #[trigger] after.heap->0.bytes()[b] == 0))
                })
            })
            &&& (pages >= 1 && before.heap is None ==> r == Err::<u64, KError>(
                KError::Protocol,
            ))
        }),
{
    let i = match k.contexts.find(k.current_id) {
        Option::Some(i) => i,
        Option::None => {
            return Err(KError::Protocol);
        },
    };
    if address == 0 {
        let current = match k.contexts.get(k.current_id) {
            Option::Some(c) => match &c.heap {
                Option::Some(h) => {
                    let count = h.page_count();
                    if count as u64 > (u64::MAX - USER_HEAP_OFFSET) / PAGE_SIZE as u64 {
                        return Err(KError::Protocol);
                    }
                    h.context_address().wrapping_add((count as u64).wrapping_mul(4096))
                },
                Option::None => {
                    return Err(KError::Protocol);
                },
            },
            Option::None => {
                return Err(KError::Protocol);
            },
        };
        return Ok(current);
    }
    if address < USER_HEAP_OFFSET {
        return Err(KError::AllocationFailure);
    }
    if address - USER_HEAP_OFFSET > 0x1000_0000 {
        return Err(KError::AllocationFailure);
    }
    let span = (address - USER_HEAP_OFFSET) as usize;
    let new_count = (span + (PAGE_SIZE - 1)) / PAGE_SIZE;
    if new_count == 0 {
        return Err(KError::AllocationFailure);
    }
    let ghost olds = k.contexts.entries@;
    let mut c = k.contexts.entries.remove(i);
    let heap = match c.heap.take() {
        Option::Some(h) => h,
        Option::None => {
            k.contexts.entries.insert(i, c);
            proof {
                assert(k.contexts.entries@ =~= olds);
            }
            return Err(KError::Protocol);
        },
    };
    if heap.page_count() == new_count {
        c.heap = Some(heap);
        k.contexts.entries.insert(i, c);
        proof {
            lemma_table_fixup(olds, k.contexts.entries@, i as int);
        }
        return Ok(address);
    }
    let heap_ok = {
        let count = heap.page_count();
        count >= 1 && count <= usize::MAX / PAGE_SIZE && heap.len_bytes_raw() == count
            * PAGE_SIZE
    };
    if !heap_ok {
        c.heap = Some(heap);
        k.contexts.entries.insert(i, c);
        proof {
            lemma_table_fixup(olds, k.contexts.entries@, i as int);
        }
        return Err(KError::Protocol);
    }
    let new_heap = match heap.resize(new_count) {
        Option::Some(h) => h,
        Option::None => {
            k.contexts.entries.insert(i, c);
            proof {
                lemma_table_fixup(olds, k.contexts.entries@, i as int);
            }
            return Err(KError::AllocationFailure);
        },
    };
    c.heap = Some(new_heap);
    k.contexts.entries.insert(i, c);
    proof {
        lemma_table_fixup(olds, k.contexts.entries@, i as int);
    }
    Ok(address)
}

/// Tables whose entries carry the same ids contain the same ids.
proof fn lemma_same_ids_contains(a: Kernel, b: Kernel)
    requires
        a.contexts.entries@.len() == b.contexts.entries@.len(),
        forall|j: int| 0 <= j < a.contexts.entries@.len() ==> (
        #[trigger] a.contexts.entries@[j]).id == b.contexts.entries@[j].id,
    ensures
        forall|id2: u64| a.contexts.contains_id(id2) <==> b.contexts.contains_id(id2),
{
    assert forall|id2: u64| a.contexts.contains_id(id2) <==> b.contexts.contains_id(id2) by {
        if a.contexts.contains_id(id2) {
            let w = choose|w: int| 0 <= w < a.contexts.entries@.len() && (
            #[trigger] a.contexts.entries@[w]).id == id2;
            assert(b.contexts.entries@[w].id == id2);
        }
        if b.contexts.contains_id(id2) {
            let w = choose|w: int| 0 <= w < b.contexts.entries@.len() && (
            #[trigger] b.contexts.entries@[w]).id == id2;
            assert(a.contexts.entries@[w].id == id2);
        }
    }
}

/// After putting a single edited entry back in its place, the table is
/// still sorted, in range, and stack-sound.
proof fn lemma_table_fixup(olds: Seq<Context>, ends: Seq<Context>, i: int)
    requires
        0 <= i < olds.len(),
        ends.len() == olds.len(),
        forall|a: int| 0 <= a < ends.len() && a != i ==> #[trigger] ends[a] == olds[a],
        ends[i].id == olds[i].id,
        ends[i].kstack == olds[i].kstack,
        forall|a: int, b: int| 0 <= a < b < olds.len() ==> #[trigger] olds[a].id
            < #[trigger] olds[b].id,
        forall|a: int| 0 <= a < olds.len() ==> 1 <= (#[trigger] olds[a]).id
            < crate::context::CONTEXT_MAX_CONTEXTS,
        forall|a: int| 0 <= a < olds.len() ==> kstack_ok(#[trigger] olds[a]),
    ensures
        forall|a: int, b: int| 0 <= a < b < ends.len() ==> #[trigger] ends[a].id
            < #[trigger] ends[b].id,
        forall|a: int| 0 <= a < ends.len() ==> 1 <= (#[trigger] ends[a]).id
            < crate::context::CONTEXT_MAX_CONTEXTS,
        forall|a: int| 0 <= a < ends.len() ==> kstack_ok(#[trigger] ends[a]),
{
    assert forall|a: int, b: int| 0 <= a < b < ends.len() implies #[trigger] ends[a].id
        < #[trigger] ends[b].id by {
        assert(ends[a].id == olds[a].id);
        assert(ends[b].id == olds[b].id);
    }
    assert forall|a: int| 0 <= a < ends.len() implies 1 <= (#[trigger] ends[a]).id
        < crate::context::CONTEXT_MAX_CONTEXTS by {
        assert(ends[a].id == olds[a].id);
    }
    assert forall|a: int| 0 <= a < ends.len() implies kstack_ok(#[trigger] ends[a]) by {
        if a != i {
            assert(ends[a] == olds[a]);
        } else {
            assert(kstack_ok(olds[i]));
        }
    }
}

/// What a trip through the gateway came to: a completed call whose encoded
/// result sits at an address in the caller's argument region, a fused
/// callee the user layer must run, or an exit, possibly naming the caller
/// to re-enter.
pub enum SyscallOutcome {
    Complete(u64),
    Started(u64, UserEntry),
    Exited(Option<u64>),
}

/// The caller's argument region is ready to receive an appended result.
pub open spec fn args_ready(c: Context) -> bool {
    &&& c.args.wf()
    &&& c.args.spec_memory() is Some
    &&& c.args.spec_memory()->0.bytes().len() < 0x4000_0000
    &&& c.args.spec_memory()->0.spec_context_address() <= KERNEL_OFFSET
}

/// Append an already-encoded stream to the current context's argument
/// region and return its address there.
fn append_result(k: &mut Kernel, bytes: &[u8]) -> (r: Result<u64, KError>)
    requires
        old(k).wf(),
        bytes@.len() < 0x4000_0000,
    ensures
        final(k).wf(),
        final(k).cache == old(k).cache,
        final(k).call_queue == old(k).call_queue,
        final(k).tx == old(k).tx,
        final(k).current_id == old(k).current_id,
        final(k).switch_lock == old(k).switch_lock,
        forall|id2: u64| final(k).contexts.contains_id(id2) <==> old(k).contexts.contains_id(
            id2,
        ),
        r is Ok <==> old(k).contexts.contains_id(old(k).current_id) && args_ready(
            old(k).contexts.entries@[old(k).contexts.index_of(old(k).current_id)],
        ),
        r matches Ok(a) ==> {
            &&& old(k).contexts.contains_id(old(k).current_id)
            &&& ({
                let before = old(k).contexts.entries@[old(k).contexts.index_of(
                    old(k).current_id,
                )];
                &&& args_ready(before)
                &&& a == before.args.spec_memory()->0.spec_context_address()
                    + before.args.spec_offset()
                &&& final(k).contexts.contains_id(old(k).current_id)
                &&& ({
                    let after = final(k).contexts.entries@[final(k).contexts.index_of(
                        old(k).current_id,
                    )];
                    after.args.spec_memory()->0.bytes().subrange(
                        before.args.spec_offset() as int,
                        before.args.spec_offset() + bytes@.len() as int,
                    ) == bytes@
                })
            })
        },
{
    let i = match k.contexts.find(k.current_id) {
        Option::Some(i) => i,
        Option::None => {
            return Err(KError::Protocol);
        },
    };
    let ready = {
        let c = vstd::std_specs::vec::vec_index(&k.contexts.entries, i);
        match c.args.memory() {
            Option::Some(m) => m.page_count() < 0x4_0000 && c.args.wf_exec()
                && m.context_address() <= KERNEL_OFFSET,
            Option::None => false,
        }
    };
    if !ready {
        return Err(KError::Protocol);
    }
    let ghost olds = k.contexts.entries@;
    let mut c = k.contexts.entries.remove(i);
    let address = match c.args.append_raw(bytes) {
        Option::Some(a) => a,
        Option::None => {
            k.contexts.entries.insert(i, c);
            proof {
                lemma_table_fixup(olds, k.contexts.entries@, i as int);
                lemma_same_ids_contains(*old(k), *k);
                crate::context::lemma_sorted_index_unique(
                    olds,
                    old(k).contexts.index_of(k.current_id),
                    i as int,
                );
            }
            return Err(KError::Protocol);
        },
    };
    k.contexts.entries.insert(i, c);
    proof {
        lemma_table_fixup(olds, k.contexts.entries@, i as int);
        lemma_same_ids_contains(*old(k), *k);
        crate::context::lemma_sorted_index_unique(
            olds,
            old(k).contexts.index_of(k.current_id),
            i as int,
        );
        assert(k.contexts.entries@[i as int].id == k.current_id);
        assert(k.contexts.contains_id(k.current_id));
        crate::context::lemma_sorted_index_unique(
            k.contexts.entries@,
            k.contexts.index_of(k.current_id),
            i as int,
        );
    }
    Ok(address)
}

/// The syscall gateway: decode nothing here beyond what the call needs,
/// dispatch on the number, and leave the encoded result - or a one-element
/// error stream - in the caller's argument region, returning its address.
/// A fuse into a loaded module comes back as a started callee instead; a
/// return exits the current context.
pub fn syscall(k: &mut Kernel, number: u64, args: &[u8], stack: &mut SyscallStack) -> (r:
    SyscallOutcome)
    requires
        old(k).wf(),
        !old(k).switch_lock,
        module_images_ok(old(k).cache),
        old(k).contexts.contains_id(old(k).current_id),
        args@.len() + 9 < CALL_ARGS_MAX,
    ensures
        final(k).wf(),
        final(k).cache == old(k).cache,
        number == SYS_RETURN ==> r is Exited,
        number != SYS_FUSE && number != SYS_CAST && number != SYS_RETURN ==> r is Complete,
        number == SYS_CAST ==> r is Complete,
        // An unknown number leaves the reserved reply as a one-element
        // error stream in the caller's argument region.
        number != SYS_FUSE && number != SYS_CAST && number != SYS_RETURN && number != SYS_WRITE
            && old(k).contexts.contains_id(old(k).current_id) && args_ready(
            old(k).contexts.entries@[old(k).contexts.index_of(old(k).current_id)],
        ) ==> ({
            let before = old(k).contexts.entries@[old(k).contexts.index_of(old(k).current_id)];
            let errbytes = enc_list(
                seq![
                    SosData::Error(crate::error::spec_message_bytes(KError::NotImplemented)),
                ],
            );
            &&& r == SyscallOutcome::Complete(
                (before.args.spec_memory()->0.spec_context_address()
                    + before.args.spec_offset()) as u64,
            )
            &&& final(k).contexts.contains_id(old(k).current_id)
            &&& ({
                let after = final(k).contexts.entries@[final(k).contexts.index_of(
                    old(k).current_id,
                )];
                after.args.spec_memory()->0.bytes().subrange(
                    before.args.spec_offset() as int,
                    before.args.spec_offset() + errbytes.len() as int,
                ) == errbytes
            })
        }),
        // A write leaves the encoded length of its text argument in the
        // caller's argument region and returns that result's address.
        number == SYS_WRITE && old(k).contexts.contains_id(old(k).current_id) && args_ready(
            old(k).contexts.entries@[old(k).contexts.index_of(old(k).current_id)],
        ) && dec_list(args@) is Some && dec_list(args@)->0.len() > 0 && (dec_list(
            args@,
        )->0[0] is String || dec_list(args@)->0[0] is Error) ==> ({
            let before = old(k).contexts.entries@[old(k).contexts.index_of(old(k).current_id)];
            let tlen = (match dec_list(args@)->0[0] {
                SosData::String(s) => s.len(),
                SosData::Error(s) => s.len(),
                _ => 0,
            }) as u64;
            let outbytes = enc_list(seq![SosData::UInt64(tlen)]);
            &&& r == SyscallOutcome::Complete(
                (before.args.spec_memory()->0.spec_context_address()
                    + before.args.spec_offset()) as u64,
            )
            &&& final(k).contexts.contains_id(old(k).current_id)
            &&& ({
                let after = final(k).contexts.entries@[final(k).contexts.index_of(
                    old(k).current_id,
                )];
                after.args.spec_memory()->0.bytes().subrange(
                    before.args.spec_offset() as int,
                    before.args.spec_offset() + outbytes.len() as int,
                ) == outbytes
            })
        }),
        // A fuse never exits the caller; a started callee is the running,
        // linked context that `sys_fuse` promises, its argument region
        // seeded with the decoded tail; and when the stream resolves to a
        // loaded module's function while a fresh id remains, the fuse does
        // start it.
        number == SYS_FUSE ==> !(r is Exited),
        number == SYS_FUSE ==> (r matches SyscallOutcome::Started(id, _e) ==> final(k).contexts.contains_id(id) && ({
            let callee = final(k).contexts.entries@[final(k).contexts.index_of(id)];
            &&& callee.status == Status::Running
            &&& callee.ret_link == Some(old(k).current_id)
            &&& callee.args.spec_memory() is Some
            &&& dec_list(args@) is Some && dec_list(args@)->0.len() > 0
            &&& exists|w: int| 0 <= w <= callee.args.spec_memory()->0.bytes().len()
                && dec_list(#[trigger] callee.args.spec_memory()->0.bytes().subrange(0, w))
                == Some(dec_list(args@)->0.skip(1))
        })),
        number == SYS_FUSE && ids_fresh(*old(k)) && dec_list(args@) is Some && dec_list(
            args@,
        )->0.len() > 0 && (dec_list(args@)->0[0] matches SosData::Function(m, n) && cache_lookup(
            old(k).cache.modules@,
            m,
        ) matches Some(mi) && mi != KERNEL_MODULE as int && table_lookup(
            old(k).cache.modules@[mi].func_table@,
            n,
        ) is Some) ==> r is Started,
        // A return stores exactly the argument stream as the exiting
        // context's result, which its blocked caller will collect.
        number == SYS_RETURN && old(k).contexts.contains_id(old(k).current_id) ==> final(k).contexts.contains_id(old(k).current_id) && ({
            let after = final(k).contexts.entries@[final(k).contexts.index_of(
                old(k).current_id,
            )];
            &&& after.result is Some
            &&& after.result->0@ == args@
            &&& after.status == Status::Exited(0)
        }),
{
    let _ = stack;
    if number == SYS_FUSE {
        match sys_fuse(k, args) {
            Result::Ok(FuseAction::Done(bytes)) => {
                if bytes.len() >= 0x4000_0000 {
                    return complete_error(k, KError::Protocol);
                }
                match append_result(k, bytes.as_slice()) {
                    Result::Ok(a) => SyscallOutcome::Complete(a),
                    Result::Err(e) => complete_error(k, e),
                }
            },
            Result::Ok(FuseAction::Started(id, entry)) => SyscallOutcome::Started(id, entry),
            Result::Err(e) => complete_error(k, e),
        }
    } else if number == SYS_CAST {
        match sys_cast(k, args) {
            Result::Ok(_) => {
                let empty: Vec<Value> = Vec::new();
                proof {
                    lemma_dviews(empty@);
                    crate::sos::lemma_empty_stream();
                    assert(dviews(empty@) =~= Seq::<SosData>::empty());
                }
                let encoded = encode_sos(empty.as_slice());
                match append_result(k, encoded.as_slice()) {
                    Result::Ok(a) => SyscallOutcome::Complete(a),
                    Result::Err(e) => complete_error(k, e),
                }
            },
            Result::Err(e) => complete_error(k, e),
        }
    } else if number == SYS_RETURN {
        match sys_return(k, args) {
            Result::Ok(_) => {},
            Result::Err(_) => {
                return SyscallOutcome::Exited(None);
            },
        }
        let next = exit(k, 0);
        SyscallOutcome::Exited(next)
    } else if number == SYS_WRITE {
        let text_len: Option<usize> = {
            match decode_sos(args) {
                Option::Some(mut it) => {
                    let ghost rem0 = it.remaining();
                    let ghost c0 = it.spec_count();
                    match it.next() {
                        Option::Some(v) => {
                            proof {
                                assert(dec_prefix(rem0, c0) == seq![crate::sos::dv_data(rem0)]
                                    + dec_prefix(it.remaining(), it.spec_count()));
                            }
                            match v.into_text() {
                                Result::Ok(t) => Some(t.len()),
                                Result::Err(_) => None,
                            }
                        },
                        Option::None => None,
                    }
                },
                Option::None => None,
            }
        };
        match text_len {
            Option::Some(len) => {
                let mut out: Vec<Value> = Vec::new();
                out.push(Value::UInt64(len as u64));
                proof {
                    lemma_dviews(out@);
                    assert(dviews(out@) =~= seq![SosData::UInt64(len as u64)]);
                    assert(enc_list_len(dviews(out@)) == 17);
                }
                let encoded = encode_sos(out.as_slice());
                match append_result(k, encoded.as_slice()) {
                    Result::Ok(a) => SyscallOutcome::Complete(a),
                    Result::Err(e) => complete_error(k, e),
                }
            },
            Option::None => complete_error(k, KError::BadArgumentType),
        }
    } else {
        complete_error(k, KError::NotImplemented)
    }
}

/// Leave a one-element error stream in the caller's argument region.
fn complete_error(k: &mut Kernel, e: KError) -> (r: SyscallOutcome)
    requires
        old(k).wf(),
    ensures
        final(k).wf(),
        final(k).cache == old(k).cache,
        r is Complete,
        old(k).contexts.contains_id(old(k).current_id) && args_ready(
            old(k).contexts.entries@[old(k).contexts.index_of(old(k).current_id)],
        ) ==> ({
            let before = old(k).contexts.entries@[old(k).contexts.index_of(old(k).current_id)];
            let errbytes = enc_list(
                seq![SosData::Error(crate::error::spec_message_bytes(e))],
            );
            &&& r == SyscallOutcome::Complete(
                (before.args.spec_memory()->0.spec_context_address()
                    + before.args.spec_offset()) as u64,
            )
            &&& final(k).contexts.contains_id(old(k).current_id)
            &&& ({
                let after = final(k).contexts.entries@[final(k).contexts.index_of(
                    old(k).current_id,
                )];
                after.args.spec_memory()->0.bytes().subrange(
                    before.args.spec_offset() as int,
                    before.args.spec_offset() + errbytes.len() as int,
                ) == errbytes
            })
        }),
{
    let just = e.to_payload();
    let payload = just.encode();
    proof {
        crate::sos::lemma_enc_list_len(just.model());
    }
    if payload.len() >= 0x4000_0000 {
        return SyscallOutcome::Complete(0);
    }
    match append_result(k, payload.as_slice()) {
        Result::Ok(a) => SyscallOutcome::Complete(a),
        Result::Err(_) => SyscallOutcome::Complete(0),
    }
}

/// Collect a finished fused callee's payload and leave it in the caller's
/// argument region: the caller observes, byte for byte, what the callee
/// stored.
pub fn syscall_finish_fuse(k: &mut Kernel, callee: u64) -> (r: Result<u64, KError>)
    requires
        old(k).wf(),
    ensures
        final(k).wf(),
        final(k).cache == old(k).cache,
        r matches Ok(a) ==> {
            &&& old(k).contexts.contains_id(callee)
            &&& old(k).contexts.entries@[old(k).contexts.index_of(callee)].result is Some
            &&& !final(k).contexts.contains_id(callee)
        },
{
    let bytes = match crate::call::fuse_collect(k, callee) {
        Result::Ok(b) => b,
        Result::Err(e) => {
            return Err(e);
        },
    };
    if bytes.len() >= 0x4000_0000 {
        return Err(KError::Protocol);
    }
    append_result(k, bytes.as_slice())
}


/// One mapped region of a context covers the range with the asked-for
/// flags present.
pub open spec fn region_covers(m: crate::cxmem::ContextMemory, address: u64, size: u64, flags: EntryFlags) -> bool {
    &&& m.is_context_mapped()
    &&& m.spec_flags().spec_contains(flags)
    &&& m.spec_context_address() <= address
    &&& address + size <= m.spec_context_address() + m.bytes().len()
}

/// Some region of the context covers the range: argument page, heap, user
/// stack, or an image region.
pub open spec fn range_valid(c: Context, address: u64, size: u64, flags: EntryFlags) -> bool {
    ||| (c.args.spec_memory() matches Some(m) && region_covers(m, address, size, flags))
    ||| (c.heap matches Some(m) && region_covers(m, address, size, flags))
    ||| (c.stack matches Some(m) && region_covers(m, address, size, flags))
    ||| exists|i: int| 0 <= i < c.image@.len() && region_covers(
        #[trigger] c.image@[i],
        address,
        size,
        flags,
    )
}

/// Check one region in the walk.
fn check_region(m: &crate::cxmem::ContextMemory, address: u64, size: u64, flags: EntryFlags) -> (r:
    bool)
    ensures
        r == region_covers(*m, address, size, flags),
{
    let base = m.context_address();
    let len = m.len_bytes_raw() as u64;
    if !(m.is_context_mapped_exec() && m.flags().contains(flags) && base <= address) {
        return false;
    }
    let off = address - base;
    off <= len && size <= len - off
}

/// Validate a user range the way the gateway must before touching it: the
/// whole of `[address, address + size)` lies inside a region of the
/// current context that is mapped there with all the asked-for flags.
/// Exactly the invalid ranges are refused.
pub fn validate(k: &Kernel, address: u64, size: u64, flags: EntryFlags) -> (r: Result<(), KError>)
    requires
        k.wf(),
    ensures
        k.contexts.contains_id(k.current_id) ==> {
            let c = k.contexts.entries@[k.contexts.index_of(k.current_id)];
            r == if size > 0 && range_valid(c, address, size, flags) {
                Ok::<(), KError>(())
            } else {
                Err::<(), KError>(KError::InvalidMemoryRange)
            }
        },
{
    let c = match k.contexts.get(k.current_id) {
        Option::Some(c) => c,
        Option::None => {
            return Err(KError::InvalidMemoryRange);
        },
    };
    if size == 0 {
        return Err(KError::InvalidMemoryRange);
    }
    if let Option::Some(m) = c.args.memory() {
        if check_region(m, address, size, flags) {
            return Ok(());
        }
    }
    if let Option::Some(m) = &c.heap {
        if check_region(m, address, size, flags) {
            return Ok(());
        }
    }
    if let Option::Some(m) = &c.stack {
        if check_region(m, address, size, flags) {
            return Ok(());
        }
    }
    let n = c.image.len();
    let mut i: usize = 0;
    while i < n
        invariant
            i <= n,
            n == c.image@.len(),
            k.wf(),
            size > 0,
            k.contexts.contains_id(k.current_id),
            *c == k.contexts.entries@[k.contexts.index_of(k.current_id)],
            forall|j: int| 0 <= j < i ==> !region_covers(
                #[trigger] c.image@[j],
                address,
                size,
                flags,
            ),
        decreases n - i,
    {
        if check_region(vstd::std_specs::vec::vec_index(&c.image, i), address, size, flags) {
            proof {
                assert(region_covers(c.image@[i as int], address, size, flags));
                assert(*c == k.contexts.entries@[k.contexts.index_of(k.current_id)]);
                assert(range_valid(*c, address, size, flags));
            }
            return Ok(());
        }
        i = i + 1;
    }
    Err(KError::InvalidMemoryRange)
}

} // verus!
