//! Page-backed context memory: a run of pages with an address in its
//! context's address space and, while the kernel is initialising or
//! inspecting it, a second temporary mapping on the kernel side.
//!
//! The frames-and-mappings mechanics are platform work; what is modelled and
//! verified here is the region's observable life: its bytes, its two
//! mappings' presence, sharing through reference clones (which forbids
//! exclusive byte access), deep copies, the copy-and-zero-fill resize, and
//! the argument cursor that appends encoded value lists.

use vstd::prelude::*;
use crate::mem::{EntryFlags, PAGE_SIZE, PAGE_SIZE64, Frame, FrameIter, FrameAlloc};
use crate::sos::{Value, SosData, dviews, encodable, enc_list, enc_list_len, encoded_len,
    encode_sos, dec_list, lemma_round_list, lemma_dviews};
use crate::consts::KERNEL_VALLOC_OFFSET;

verus! {

/// A contiguous range of frames obtained from the frame allocator in one
/// piece and returned in one piece.
pub struct Frames {
    pub start: Frame,
    pub count: usize,
}

impl Frames {
    /// Take `count` frames from the allocator.
    pub fn new(a: &mut FrameAlloc, count: usize) -> (r: Option<Frames>)
        requires
            old(a).spec_used() + count <= usize::MAX,
            old(a).spec_next() + count <= u64::MAX,
        ensures
            r is Some <==> count <= old(a).spec_free(),
            r is Some ==> r->0.count == count && final(a).spec_free() == old(a).spec_free()
                - count,
            r is None ==> *final(a) == *old(a),
    {
        match crate::mem::allocate_frames(a, count) {
            Option::Some(start) => Some(Frames { start, count }),
            Option::None => None,
        }
    }

    /// Walk the frames of the range.
    pub fn iter(&self) -> (it: FrameIter)
        requires
            self.count > 0,
            self.start.number + self.count <= u64::MAX,
        ensures
            it.start == self.start,
            it.end.number == self.start.number + self.count - 1,
    {
        Frame::range_inclusive(
            self.start,
            Frame { number: self.start.number + self.count as u64 - 1 },
        )
    }
}

/// A batch of pending TLB flushes produced by mapping operations; the caller
/// either flushes them on the active table or ignores them on an inactive
/// one.
pub struct MapperFlushAll {
    pub pending: bool,
}

impl MapperFlushAll {
    pub fn new() -> (r: MapperFlushAll)
        ensures
            !r.pending,
    {
        MapperFlushAll { pending: false }
    }

    /// Note that a flush is owed.
    pub fn consume(&mut self)
        ensures
            final(self).pending,
    {
        self.pending = true;
    }

    /// The flushes applied to the active table; nothing is owed after.
    pub fn flush(self) {
    }

    /// Deliberately dropped: the edited table was not the active one.
    pub fn ignore(self) {
    }
}

/// A run of `page_count` pages of one context's memory.
pub struct ContextMemory {
    data: Vec<u8>,
    context_address: u64,
    context_mapped: bool,
    kernel_mapped: bool,
    shared: bool,
    flags: EntryFlags,
    page_count: usize,
}

impl ContextMemory {
    /// The region's bytes.
    pub closed spec fn bytes(self) -> Seq<u8> {
        self.data@
    }

    pub closed spec fn spec_page_count(self) -> nat {
        self.page_count as nat
    }

    pub closed spec fn spec_context_address(self) -> u64 {
        self.context_address
    }

    pub closed spec fn spec_flags(self) -> EntryFlags {
        self.flags
    }

    /// The kernel-side temporary mapping is installed.
    pub closed spec fn is_kernel_mapped(self) -> bool {
        self.kernel_mapped
    }

    /// The mapping in the owning context's address space is installed.
    pub closed spec fn is_context_mapped(self) -> bool {
        self.context_mapped
    }

    /// A reference clone of this region exists: the frames are shared and
    /// exclusive byte access is refused.
    pub closed spec fn is_shared(self) -> bool {
        self.shared
    }

    /// At least one page, and the byte store covers the pages exactly.
    pub open spec fn wf(self) -> bool {
        &&& self.spec_page_count() >= 1
        &&& self.spec_page_count() <= usize::MAX as int / PAGE_SIZE as int
        &&& self.bytes().len() == self.spec_page_count() * PAGE_SIZE
    }

    /// A fresh region of `count` pages for the address `context_address` in
    /// its context's address space; mapped nowhere yet.
    pub fn new(count: usize, context_address: u64, flags: EntryFlags) -> (r: Option<
        ContextMemory,
    >)
        requires
            count >= 1,
            count <= usize::MAX as int / PAGE_SIZE as int,
        ensures
            r is Some,
            r->0.wf(),
            r->0.spec_page_count() == count,
            r->0.spec_context_address() == context_address,
            r->0.spec_flags() == flags,
            !r->0.is_kernel_mapped(),
            !r->0.is_context_mapped(),
            !r->0.is_shared(),
    {
        let n = count * PAGE_SIZE;
        let mut data: Vec<u8> = Vec::new();
        let mut i: usize = 0;
        while i < n
            invariant
                data@.len() == i,
                i <= n,
            decreases n - i,
        {
            data.push(0);
            i = i + 1;
        }
        Some(
            ContextMemory {
                data,
                context_address,
                context_mapped: false,
                kernel_mapped: false,
                shared: false,
                flags,
                page_count: count,
            },
        )
    }

    /// A fresh region already installed in the kernel's valloc area, with
    /// its kernel address; used for kernel stacks and staging.
    pub fn new_kernel(count: usize, flags: EntryFlags) -> (r: Option<(ContextMemory, u64)>)
        requires
            count >= 1,
            count <= usize::MAX as int / PAGE_SIZE as int,
        ensures
            r is Some,
            r matches Some(p) ==> p.0.wf() && p.0.spec_page_count() == count
                && p.0.is_kernel_mapped() && !p.0.is_shared() && p.0.spec_flags() == flags
                && p.0.spec_context_address() == p.1 && p.1 == KERNEL_VALLOC_OFFSET,
    {
        let mut m = match Self::new(count, 0, flags) {
            Option::Some(m) => m,
            Option::None => {
                return None;
            },
        };
        let address = match m.map_to_kernel(flags) {
            Option::Some(a) => a,
            Option::None => {
                return None;
            },
        };
        m.context_address = address;
        Some((m, address))
    }

    /// The kernel-side address, while that mapping is installed.
    pub fn kernel_address(&self) -> (r: Option<u64>)
        ensures
            r is Some <==> self.is_kernel_mapped(),
            r is Some ==> r->0 == KERNEL_VALLOC_OFFSET,
    {
        if self.kernel_mapped {
            Some(KERNEL_VALLOC_OFFSET)
        } else {
            None
        }
    }

    /// Size of the region in bytes.
    pub fn len_bytes(&self) -> (n: usize)
        requires
            self.wf(),
        ensures
            n == self.spec_page_count() * PAGE_SIZE,
            n == self.bytes().len(),
    {
        self.page_count * PAGE_SIZE
    }

    /// Install the kernel-side mapping if it is absent; idempotent.  The
    /// model places every kernel mapping at the valloc base: which reserved
    /// address the platform picks is not part of the region's logic.
    pub fn map_to_kernel(&mut self, flags: EntryFlags) -> (r: Option<u64>)
        ensures
            r is Some,
            r->0 == KERNEL_VALLOC_OFFSET,
            final(self).is_kernel_mapped(),
            final(self).bytes() == old(self).bytes(),
            final(self).spec_page_count() == old(self).spec_page_count(),
            final(self).spec_context_address() == old(self).spec_context_address(),
            final(self).spec_flags() == old(self).spec_flags(),
            final(self).is_shared() == old(self).is_shared(),
            final(self).is_context_mapped() == old(self).is_context_mapped(),
            final(self).wf() == old(self).wf(),
    {
        let _ = flags;
        self.kernel_mapped = true;
        Some(KERNEL_VALLOC_OFFSET)
    }

    /// Drop the kernel-side mapping once initialisation is done.
    pub fn drop_kernel_mapping(&mut self)
        ensures
            !final(self).is_kernel_mapped(),
            final(self).bytes() == old(self).bytes(),
            final(self).spec_page_count() == old(self).spec_page_count(),
            final(self).spec_context_address() == old(self).spec_context_address(),
            final(self).spec_flags() == old(self).spec_flags(),
            final(self).is_shared() == old(self).is_shared(),
            final(self).is_context_mapped() == old(self).is_context_mapped(),
            final(self).wf() == old(self).wf(),
    {
        self.kernel_mapped = false;
    }

    /// The address this region occupies in its context's address space.
    pub fn context_address(&self) -> (a: u64)
        ensures
            a == self.spec_context_address(),
    {
        self.context_address
    }

    pub fn page_count(&self) -> (n: usize)
        ensures
            n == self.spec_page_count(),
    {
        self.page_count
    }

    pub fn flags(&self) -> (f: EntryFlags)
        ensures
            f == self.spec_flags(),
    {
        self.flags
    }

    /// Size of the byte store, without the well-formedness premise.
    pub fn len_bytes_raw(&self) -> (n: usize)
        ensures
            n == self.bytes().len(),
    {
        self.data.len()
    }

    /// Whether the kernel-side mapping is installed.
    pub fn is_kernel_mapped_exec(&self) -> (r: bool)
        ensures
            r == self.is_kernel_mapped(),
    {
        self.kernel_mapped
    }

    /// Whether the mapping in the owning context's address space is
    /// installed.
    pub fn is_context_mapped_exec(&self) -> (r: bool)
        ensures
            r == self.is_context_mapped(),
    {
        self.context_mapped
    }

    /// Whether a reference clone shares the frames.
    pub fn is_shared_exec(&self) -> (r: bool)
        ensures
            r == self.is_shared(),
    {
        self.shared
    }

    /// Read access to the bytes; needs the kernel mapping.
    pub fn as_slice(&self) -> (s: &[u8])
        requires
            self.is_kernel_mapped(),
        ensures
            s@ == self.bytes(),
    {
        self.data.as_slice()
    }

    /// Overwrite the bytes at `offset` with `src`; needs the kernel mapping
    /// and exclusive ownership of the frames.
    pub fn write_bytes(&mut self, offset: usize, src: &[u8])
        requires
            old(self).is_kernel_mapped(),
            !old(self).is_shared(),
            offset + src@.len() <= old(self).bytes().len(),
        ensures
            final(self).bytes().len() == old(self).bytes().len(),
            final(self).bytes() == old(self).bytes().take(offset as int) + src@ + old(self).bytes().skip(offset + src@.len()),
            forall|k: int| 0 <= k < offset ==> final(self).bytes()[k] == old(self).bytes()[k],
            forall|k: int| 0 <= k < src@.len() ==> final(self).bytes()[offset + k] == src@[k],
            forall|k: int| offset + src@.len() <= k < old(self).bytes().len() ==> final(self).bytes()[k] == old(self).bytes()[k],
            final(self).spec_page_count() == old(self).spec_page_count(),
            final(self).spec_context_address() == old(self).spec_context_address(),
            final(self).spec_flags() == old(self).spec_flags(),
            final(self).is_kernel_mapped() == old(self).is_kernel_mapped(),
            final(self).is_context_mapped() == old(self).is_context_mapped(),
            final(self).is_shared() == old(self).is_shared(),
            final(self).wf() == old(self).wf(),
    {
        let n = src.len();
        let cap = self.data.len();
        let mut i: usize = 0;
        while i < n
            invariant
                i <= n,
                n == src@.len(),
                offset + n <= self.data@.len(),
                offset + n <= usize::MAX,
                self.data@.len() == old(self).data@.len(),
                self.context_address == old(self).context_address,
                self.context_mapped == old(self).context_mapped,
                self.kernel_mapped == old(self).kernel_mapped,
                self.shared == old(self).shared,
                self.flags == old(self).flags,
                self.page_count == old(self).page_count,
                forall|k: int| 0 <= k < offset ==> self.data@[k] == old(self).data@[k],
                forall|k: int| 0 <= k < i ==> self.data@[offset + k] == src@[k],
                forall|k: int| offset + n <= k < self.data@.len() ==> self.data@[k] == old(self).data@[k],
                forall|k: int| offset + i <= k < offset + n ==> self.data@[k] == old(self).data@[k],
            decreases n - i,
    {
            self.data.set(offset + i, src[i]);
            i = i + 1;
        }
        proof {
            assert(self.data@ =~= old(self).data@.take(offset as int) + src@ + old(self).data@.skip(offset + src@.len()));
        }
    }

    /// Zero the whole region; needs the kernel mapping and exclusive
    /// ownership.
    pub fn zero(&mut self)
        requires
            old(self).is_kernel_mapped(),
            !old(self).is_shared(),
        ensures
            final(self).bytes().len() == old(self).bytes().len(),
            forall|k: int| 0 <= k < final(self).bytes().len() ==> final(self).bytes()[k] == 0,
            final(self).spec_page_count() == old(self).spec_page_count(),
            final(self).spec_context_address() == old(self).spec_context_address(),
            final(self).spec_flags() == old(self).spec_flags(),
            final(self).is_kernel_mapped() == old(self).is_kernel_mapped(),
            final(self).is_context_mapped() == old(self).is_context_mapped(),
            final(self).is_shared() == old(self).is_shared(),
            final(self).wf() == old(self).wf(),
    {
        let n = self.data.len();
        let mut i: usize = 0;
        while i < n
            invariant
                i <= n,
                n == self.data@.len(),
                self.data@.len() == old(self).data@.len(),
                self.context_address == old(self).context_address,
                self.context_mapped == old(self).context_mapped,
                self.kernel_mapped == old(self).kernel_mapped,
                self.shared == old(self).shared,
                self.flags == old(self).flags,
                self.page_count == old(self).page_count,
                forall|k: int| 0 <= k < i ==> self.data@[k] == 0,
            decreases n - i,
        {
            self.data.set(i, 0);
            i = i + 1;
        }
    }

    /// Install the mapping in the owning context's address space;
    /// idempotent.  The returned batch is flushed or ignored by the caller.
    pub fn map_context(&mut self) -> (r: MapperFlushAll)
        ensures
            final(self).is_context_mapped(),
            final(self).bytes() == old(self).bytes(),
            final(self).spec_page_count() == old(self).spec_page_count(),
            final(self).spec_context_address() == old(self).spec_context_address(),
            final(self).spec_flags() == old(self).spec_flags(),
            final(self).is_kernel_mapped() == old(self).is_kernel_mapped(),
            final(self).is_shared() == old(self).is_shared(),
            final(self).wf() == old(self).wf(),
            r.pending == !old(self).is_context_mapped(),
    {
        if self.context_mapped {
            MapperFlushAll::new()
        } else {
            self.context_mapped = true;
            let mut f = MapperFlushAll::new();
            f.consume();
            f
        }
    }

    /// Remove the mapping from the owning context's address space;
    /// idempotent.
    pub fn unmap_context(&mut self) -> (r: MapperFlushAll)
        ensures
            !final(self).is_context_mapped(),
            final(self).bytes() == old(self).bytes(),
            final(self).spec_page_count() == old(self).spec_page_count(),
            final(self).spec_context_address() == old(self).spec_context_address(),
            final(self).spec_flags() == old(self).spec_flags(),
            final(self).is_kernel_mapped() == old(self).is_kernel_mapped(),
            final(self).is_shared() == old(self).is_shared(),
            final(self).wf() == old(self).wf(),
            r.pending == old(self).is_context_mapped(),
    {
        if !self.context_mapped {
            MapperFlushAll::new()
        } else {
            self.context_mapped = false;
            let mut f = MapperFlushAll::new();
            f.consume();
            f
        }
    }

    /// Reinstall the mapping with the region's current flags; idempotent.
    pub fn remap_context(&mut self) -> (r: MapperFlushAll)
        ensures
            final(self).is_context_mapped(),
            final(self).bytes() == old(self).bytes(),
            final(self).spec_page_count() == old(self).spec_page_count(),
            final(self).spec_context_address() == old(self).spec_context_address(),
            final(self).spec_flags() == old(self).spec_flags(),
            final(self).is_kernel_mapped() == old(self).is_kernel_mapped(),
            final(self).is_shared() == old(self).is_shared(),
            final(self).wf() == old(self).wf(),
    {
        self.map_context()
    }

    /// Mark the region's frames as shared: a reference clone is about to be
    /// or has been taken, so exclusive byte access is refused from here on.
    pub fn share(&mut self)
        ensures
            final(self).is_shared(),
            final(self).bytes() == old(self).bytes(),
            final(self).spec_page_count() == old(self).spec_page_count(),
            final(self).spec_context_address() == old(self).spec_context_address(),
            final(self).spec_flags() == old(self).spec_flags(),
            final(self).is_kernel_mapped() == old(self).is_kernel_mapped(),
            final(self).is_context_mapped() == old(self).is_context_mapped(),
            final(self).wf() == old(self).wf(),
    {
        self.shared = true;
    }

    /// Share the frames: the clone sees the same bytes, possibly at a new
    /// context address, with no context mapping installed yet.  Only a
    /// region already marked shared can be reference-cloned, so no sharer
    /// ever has exclusive byte access.
    pub fn ref_clone(&self, new_address: Option<u64>) -> (r: ContextMemory)
        requires
            self.is_shared(),
        ensures
            r.bytes() == self.bytes(),
            r.spec_page_count() == self.spec_page_count(),
            r.spec_flags() == self.spec_flags(),
            r.spec_context_address() == match new_address {
                Some(a) => a,
                None => self.spec_context_address(),
            },
            !r.is_context_mapped(),
            r.is_kernel_mapped() == self.is_kernel_mapped(),
            r.is_shared(),
            r.wf() == self.wf(),
    {
        let address = match new_address {
            Option::Some(a) => a,
            Option::None => self.context_address,
        };
        ContextMemory {
            data: vstd::slice::slice_to_vec(self.data.as_slice()),
            context_address: address,
            context_mapped: false,
            kernel_mapped: self.kernel_mapped,
            shared: true,
            flags: self.flags,
            page_count: self.page_count,
        }
    }

    /// Deep-copy the region into fresh frames: same bytes, exclusively
    /// owned, staged with a kernel mapping.
    pub fn copy_clone(&self, new_address: Option<u64>) -> (r: Option<ContextMemory>)
        requires
            self.wf(),
        ensures
            r is Some,
            r->0.bytes() == self.bytes(),
            r->0.spec_page_count() == self.spec_page_count(),
            r->0.spec_flags() == self.spec_flags(),
            r->0.spec_context_address() == match new_address {
                Some(a) => a,
                None => self.spec_context_address(),
            },
            !r->0.is_context_mapped(),
            r->0.is_kernel_mapped(),
            !r->0.is_shared(),
            r->0.wf(),
    {
        let address = match new_address {
            Option::Some(a) => a,
            Option::None => self.context_address,
        };
        Some(
            ContextMemory {
                data: vstd::slice::slice_to_vec(self.data.as_slice()),
                context_address: address,
                context_mapped: false,
                kernel_mapped: true,
                shared: false,
                flags: self.flags,
                page_count: self.page_count,
            },
        )
    }

    /// Reallocate to `new_count` pages: the common prefix is copied, a
    /// growing tail is zero-filled, and the live mapping is rewired.  A
    /// resize to zero pages is not a meaningful region and is excluded.
    pub fn resize(self, new_count: usize) -> (r: Option<ContextMemory>)
        requires
            self.wf(),
            new_count >= 1,
            new_count <= usize::MAX as int / PAGE_SIZE as int,
        ensures
            r is Some,
            r->0.wf(),
            r->0.spec_page_count() == new_count,
            r->0.bytes().len() == new_count * PAGE_SIZE,
            forall|k: int| 0 <= k < self.bytes().len() && k < r->0.bytes().len() ==> r->0.bytes()[k]
                == self.bytes()[k],
            forall|k: int| self.bytes().len() <= k < r->0.bytes().len() ==> r->0.bytes()[k] == 0,
            r->0.spec_context_address() == self.spec_context_address(),
            r->0.spec_flags() == self.spec_flags(),
            r->0.is_kernel_mapped(),
            r->0.is_context_mapped(),
            !r->0.is_shared(),
    {
        let n = new_count * PAGE_SIZE;
        let old_len = self.page_count * PAGE_SIZE;
        let mut data: Vec<u8> = Vec::new();
        let mut i: usize = 0;
        while i < n
            invariant
                i <= n,
                data@.len() == i,
                old_len == self.data@.len(),
                forall|k: int| 0 <= k < i && k < old_len ==> data@[k] == self.data@[k],
                forall|k: int| old_len <= k < i ==> data@[k] == 0,
            decreases n - i,
        {
            if i < old_len {
                data.push(*vstd::std_specs::vec::vec_index(&self.data, i));
            } else {
                data.push(0);
            }
            i = i + 1;
        }
        Some(
            ContextMemory {
                data,
                context_address: self.context_address,
                context_mapped: true,
                kernel_mapped: true,
                shared: false,
                flags: self.flags,
                page_count: new_count,
            },
        )
    }
}

/// The argument region of a context: a context memory plus a write cursor at
/// which encoded value lists are appended.
pub struct ContextValues {
    memory: Option<ContextMemory>,
    offset: usize,
}

impl ContextValues {
    pub closed spec fn spec_memory(self) -> Option<ContextMemory> {
        self.memory
    }

    pub closed spec fn spec_offset(self) -> nat {
        self.offset as nat
    }

    /// The region is present, well-formed, writable from the kernel, and
    /// the cursor is inside it.
    pub open spec fn wf(self) -> bool {
        match self.spec_memory() {
            Some(m) => {
                &&& m.wf()
                &&& m.is_kernel_mapped()
                &&& !m.is_shared()
                &&& self.spec_offset() <= m.bytes().len()
            },
            None => true,
        }
    }

    /// No region yet; `set_memory` supplies one.
    pub fn new_no_memory() -> (r: ContextValues)
        ensures
            r.spec_memory() is None,
            r.spec_offset() == 0,
            r.wf(),
    {
        ContextValues { memory: None, offset: 0 }
    }

    /// Supply the region the cursor writes into.
    pub fn set_memory(&mut self, memory: ContextMemory)
        ensures
            final(self).spec_memory() == Some(memory),
            final(self).spec_offset() == old(self).spec_offset(),
    {
        self.memory = Some(memory);
    }

    /// Runtime check of `wf`.
    pub fn wf_exec(&self) -> (r: bool)
        ensures
            r == self.wf(),
    {
        match &self.memory {
            Option::Some(m) => {
                let count = m.page_count();
                count >= 1 && count <= usize::MAX / PAGE_SIZE && m.len_bytes_raw() == count
                    * PAGE_SIZE && m.is_kernel_mapped_exec() && !m.is_shared_exec()
                    && self.offset <= m.len_bytes_raw()
            },
            Option::None => true,
        }
    }

    /// Borrow the region, if any.
    pub fn memory(&self) -> (r: &Option<ContextMemory>)
        ensures
            *r == self.spec_memory(),
    {
        &self.memory
    }

    /// Take the region out.
    pub fn take_memory(&mut self) -> (r: Option<ContextMemory>)
        ensures
            r == old(self).spec_memory(),
            final(self).spec_memory() is None,
            final(self).spec_offset() == old(self).spec_offset(),
    {
        self.memory.take()
    }

    /// Append the encoding of `values` at the cursor, growing the region a
    /// page-aligned amount if it is too small, and return the address of
    /// the encoded list in the owning context's address space.  On success
    /// the written window holds exactly the encoding.
    pub fn append_encode(&mut self, values: &[Value]) -> (r: Option<u64>)
        requires
            old(self).wf(),
            encodable(dviews(values@)),
            old(self).spec_memory() is Some ==> old(self).spec_memory()->0.bytes().len()
                + enc_list_len(dviews(values@)) + PAGE_SIZE <= usize::MAX
                && old(self).spec_memory()->0.spec_context_address() + old(self).spec_offset()
                <= u64::MAX,
        ensures
            final(self).wf(),
            r is Some <==> old(self).spec_memory() is Some,
            r is None ==> *final(self) == *old(self),
            r is Some ==> {
                &&& r->0 == old(self).spec_memory()->0.spec_context_address() + old(self).spec_offset()
                &&& final(self).spec_memory() is Some
                &&& final(self).spec_offset() == old(self).spec_offset() + enc_list_len(
                    dviews(values@),
                )
                &&& final(self).spec_memory()->0.bytes().subrange(
                    old(self).spec_offset() as int,
                    old(self).spec_offset() + enc_list_len(dviews(values@)) as int,
                ) == enc_list(dviews(values@))
                &&& forall|k: int| 0 <= k < old(self).spec_offset() ==> final(self).spec_memory()->0.bytes()[k] == old(self).spec_memory()->0.bytes()[k]
                &&& final(self).spec_memory()->0.spec_context_address() == old(self).spec_memory()->0.spec_context_address()
            },
    {
        let encoded = encode_sos(values);
        proof {
            crate::sos::lemma_enc_list_len(dviews(values@));
        }
        self.append_raw(encoded.as_slice())
    }

    /// Append raw bytes at the cursor - an already-encoded stream being
    /// passed through - growing the region a page-aligned amount if needed;
    /// returns the bytes' address in the owning context's address space.
    pub fn append_raw(&mut self, bytes: &[u8]) -> (r: Option<u64>)
        requires
            old(self).wf(),
            old(self).spec_memory() is Some ==> old(self).spec_memory()->0.bytes().len()
                + bytes@.len() + PAGE_SIZE <= usize::MAX && old(self).spec_memory()->0.spec_context_address() + old(self).spec_offset() <= u64::MAX,
        ensures
            final(self).wf(),
            r is Some <==> old(self).spec_memory() is Some,
            r is None ==> *final(self) == *old(self),
            r is Some ==> {
                &&& r->0 == old(self).spec_memory()->0.spec_context_address() + old(self).spec_offset()
                &&& final(self).spec_memory() is Some
                &&& final(self).spec_offset() == old(self).spec_offset() + bytes@.len()
                &&& final(self).spec_memory()->0.bytes().subrange(
                    old(self).spec_offset() as int,
                    old(self).spec_offset() + bytes@.len() as int,
                ) == bytes@
                &&& forall|k: int| 0 <= k < old(self).spec_offset() ==> final(self).spec_memory()->0.bytes()[k] == old(self).spec_memory()->0.bytes()[k]
                &&& final(self).spec_memory()->0.spec_context_address() == old(self).spec_memory()->0.spec_context_address()
            },
    {
        let need = bytes.len();
        let memory = self.memory.take();
        let mut m = match memory {
            Option::Some(m) => m,
            Option::None => {
                return None;
            },
        };
        let length = m.len_bytes();
        if length - self.offset < need {
            let new_count = (length + need + (PAGE_SIZE - 1)) / PAGE_SIZE;
            proof {
                assert(new_count * PAGE_SIZE >= length + need && new_count >= 1) by (nonlinear_arith)
                    requires
                        new_count == (length + need + (PAGE_SIZE - 1)) as int / PAGE_SIZE as int,
                        length >= PAGE_SIZE >= 1,
                        need >= 0,
                ;
                assert(new_count <= usize::MAX as int / PAGE_SIZE as int) by (nonlinear_arith)
                    requires
                        new_count == (length + need + (PAGE_SIZE - 1)) as int / PAGE_SIZE as int,
                        length + need + PAGE_SIZE <= usize::MAX,
                        PAGE_SIZE >= 1,
                ;
            }
            m = match m.resize(new_count) {
                Option::Some(m2) => m2,
                Option::None => {
                    self.memory = None;
                    return None;
                },
            };
        }
        let vaddr = m.context_address() + self.offset as u64;
        m.write_bytes(self.offset, bytes);
        self.offset = self.offset + need;
        self.memory = Some(m);
        Some(vaddr)
    }
}

/// Appending an encoded value list and then decoding the window it was
/// written into yields back exactly the appended values: the cursor's
/// round-trip law, over the window `append_encode` promises to fill.
pub proof fn lemma_append_then_decode(m: ContextMemory, lo: int, ds: Seq<SosData>)
    requires
        encodable(ds),
        0 <= lo,
        lo + enc_list_len(ds) <= m.bytes().len(),
        m.bytes().subrange(lo, lo + enc_list_len(ds)) == enc_list(ds),
    ensures
        dec_list(m.bytes().subrange(lo, lo + enc_list_len(ds))) == Some(ds),
{
    lemma_round_list(ds);
}

/// A mapped span of another address space granted into this one; the
/// mapping bookkeeping of the physical-map syscalls.
pub struct Grant {
    pub start: u64,
    pub size: usize,
    pub flags: EntryFlags,
    pub mapped: bool,
}

impl Grant {
    /// Map `size` bytes of physical memory at `to`; the platform installs
    /// the entries, the grant records the span.
    pub fn physmap(from: u64, to: u64, size: usize, flags: EntryFlags) -> (g: Grant)
        ensures
            g.start == to,
            g.size == size,
            g.flags == flags,
            g.mapped,
    {
        let _ = from;
        Grant { start: to, size, flags, mapped: true }
    }

    /// Map into a not-yet-active address space.
    pub fn map_inactive(from: u64, to: u64, size: usize, flags: EntryFlags) -> (g: Grant)
        ensures
            g.start == to,
            g.size == size,
            g.flags == flags,
            g.mapped,
    {
        let _ = from;
        Grant { start: to, size, flags, mapped: true }
    }

    pub fn start_address(&self) -> (a: u64)
        ensures
            a == self.start,
    {
        self.start
    }

    pub fn size(&self) -> (s: usize)
        ensures
            s == self.size,
    {
        self.size
    }

    pub fn flags(&self) -> (f: EntryFlags)
        ensures
            f == self.flags,
    {
        self.flags
    }

    /// Remove the mapping from the active table; consumes the grant.
    pub fn unmap(self) {
    }

    /// Remove the mapping from an inactive table; consumes the grant.
    pub fn unmap_inactive(self) {
    }
}

} // verus!
