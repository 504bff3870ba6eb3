//! Physical frames and virtual-address reservations: the allocator layer the
//! context machinery builds on.
//!
//! The bump/recycle physical allocator itself is platform work outside the
//! core; what is modelled and verified here is its contract - frames are
//! handed out in whole ranges and the free and used counts balance - and the
//! valloc reservation allocator in full: a best-fit free list of page blocks
//! whose total never drifts.  Addresses are 64-bit throughout.

use vstd::prelude::*;

verus! {

pub const PAGE_SIZE: usize = 4096;

pub const PAGE_SIZE64: u64 = 4096;

// x86-64 page-entry bits, as the mapping layer uses them.

pub const FLAG_PRESENT: u64 = 0x1;

pub const FLAG_WRITABLE: u64 = 0x2;

pub const FLAG_USER_ACCESSIBLE: u64 = 0x4;

pub const FLAG_HUGE_PAGE: u64 = 0x80;

pub const FLAG_GLOBAL: u64 = 0x100;

pub const FLAG_NO_EXECUTE: u64 = 0x8000_0000_0000_0000;

/// The permission and attribute bits of a page-table entry.
#[derive(Debug, Clone, Copy, PartialEq, Eq, Structural)]
pub struct EntryFlags {
    pub bits: u64,
}

impl EntryFlags {
    pub open spec fn spec_contains(self, other: EntryFlags) -> bool {
        self.bits & other.bits == other.bits
    }

    pub fn empty() -> (r: EntryFlags)
        ensures
            r.bits == 0,
    {
        EntryFlags { bits: 0 }
    }

    pub fn new(bits: u64) -> (r: EntryFlags)
        ensures
            r.bits == bits,
    {
        EntryFlags { bits }
    }

    /// All of `other`'s bits are set in `self`.
    pub fn contains(self, other: EntryFlags) -> (r: bool)
        ensures
            r == self.spec_contains(other),
    {
        self.bits & other.bits == other.bits
    }

    pub fn insert(&mut self, other: EntryFlags)
        ensures
            final(self).bits == old(self).bits | other.bits,
    {
        self.bits = self.bits | other.bits;
    }

    pub fn remove(&mut self, other: EntryFlags)
        ensures
            final(self).bits == old(self).bits & !other.bits,
    {
        self.bits = self.bits & !other.bits;
    }

    pub fn union(self, other: EntryFlags) -> (r: EntryFlags)
        ensures
            r.bits == self.bits | other.bits,
    {
        EntryFlags { bits: self.bits | other.bits }
    }
}

/// A physical page frame, identified by its index in physical memory.
#[derive(Debug, Clone, Copy, PartialEq, Eq, Structural)]
pub struct Frame {
    pub number: u64,
}

impl Frame {
    /// Physical address of the frame's first byte.
    pub fn start_address(&self) -> (a: u64)
        requires
            self.number <= u64::MAX / 4096,
        ensures
            a == self.number * PAGE_SIZE64,
    {
        self.number * PAGE_SIZE64
    }

    /// The frame holding a physical address.
    pub fn containing_address(address: u64) -> (f: Frame)
        ensures
            f.number == address / PAGE_SIZE64,
    {
        Frame { number: address / PAGE_SIZE64 }
    }

    /// Walk the frames from `start` to `end`, both included.
    pub fn range_inclusive(start: Frame, end: Frame) -> (it: FrameIter)
        ensures
            it.start == start,
            it.end == end,
    {
        FrameIter { start, end }
    }
}

/// Iterates a frame range front to back.
#[derive(Debug, Clone, Copy, PartialEq, Eq, Structural)]
pub struct FrameIter {
    pub start: Frame,
    pub end: Frame,
}

impl FrameIter {
    /// The next frame of the range, until `start` passes `end`.
    pub fn next(&mut self) -> (r: Option<Frame>)
        requires
            old(self).end.number < u64::MAX,
        ensures
            old(self).start.number <= old(self).end.number ==> r == Some(old(self).start)
                && final(self).start.number == old(self).start.number + 1,
            old(self).start.number > old(self).end.number ==> r is None && *final(self) == *old(self),
            final(self).end == old(self).end,
    {
        if self.start.number <= self.end.number {
            let f = self.start;
            self.start = Frame { number: self.start.number + 1 };
            Some(f)
        } else {
            None
        }
    }
}

/// A region of the bootloader memory map.
#[derive(Debug, Clone, Copy, PartialEq, Eq, Structural)]
pub struct MemoryArea {
    pub base_addr: u64,
    pub length: u64,
    pub area_type: u32,
    pub acpi: u32,
}

/// Walks a memory map, yielding only the areas of one type.
pub struct MemoryAreaIter {
    pub areas: Vec<MemoryArea>,
    pub area_type: u32,
    pub i: usize,
}

impl MemoryAreaIter {
    pub fn new(areas: Vec<MemoryArea>, area_type: u32) -> (it: MemoryAreaIter)
        ensures
            it.i == 0,
    {
        MemoryAreaIter { areas, area_type, i: 0 }
    }

    /// The next area of the asked-for type, front to back.
    pub fn next(&mut self) -> (r: Option<MemoryArea>)
        requires
            old(self).i <= old(self).areas@.len(),
        ensures
            final(self).i <= final(self).areas@.len(),
            r is Some ==> r->0.area_type == old(self).area_type,
    {
        while self.i < self.areas.len()
            invariant
                self.i <= self.areas@.len(),
                self.area_type == old(self).area_type,
                self.areas == old(self).areas,
            decreases self.areas@.len() - self.i,
        {
            let entry = *vstd::std_specs::vec::vec_index(&self.areas, self.i);
            self.i = self.i + 1;
            if entry.area_type == self.area_type {
                return Some(entry);
            }
        }
        None
    }
}

/// The physical frame allocator's contract: a monotone bump cursor and
/// balanced free and used counts.  The recycling allocator behind it is
/// platform work; its observable promise is exactly this.
pub struct FrameAlloc {
    next: u64,
    free: usize,
    used: usize,
}

impl FrameAlloc {
    pub closed spec fn spec_free(self) -> nat {
        self.free as nat
    }

    pub closed spec fn spec_used(self) -> nat {
        self.used as nat
    }

    pub closed spec fn spec_next(self) -> u64 {
        self.next
    }

    /// A fresh allocator over `free` frames.
    pub fn new(free: usize) -> (a: FrameAlloc)
        ensures
            a.spec_free() == free,
            a.spec_used() == 0,
    {
        FrameAlloc { next: 0, free, used: 0 }
    }
}

/// Frames still available.
pub fn free_frames(a: &FrameAlloc) -> (n: usize)
    ensures
        n == a.spec_free(),
{
    a.free
}

/// Frames handed out and not returned.
pub fn used_frames(a: &FrameAlloc) -> (n: usize)
    ensures
        n == a.spec_used(),
{
    a.used
}

/// Allocate a contiguous range of `count` frames: succeeds exactly when that
/// many are free, and moves them from free to used.
pub fn allocate_frames(a: &mut FrameAlloc, count: usize) -> (r: Option<Frame>)
    requires
        old(a).spec_used() + count <= usize::MAX,
        old(a).spec_next() + count <= u64::MAX,
    ensures
        r is Some <==> count <= old(a).spec_free(),
        r is Some ==> final(a).spec_free() == old(a).spec_free() - count && final(a).spec_used()
            == old(a).spec_used() + count && r->0.number == old(a).spec_next() && final(a).spec_next() == old(a).spec_next() + count,
        r is None ==> *final(a) == *old(a),
{
    if count <= a.free {
        let f = Frame { number: a.next };
        a.next = a.next + count as u64;
        a.free = a.free - count;
        a.used = a.used + count;
        Some(f)
    } else {
        None
    }
}

/// Return a range of `count` frames to the allocator.
pub fn deallocate_frames(a: &mut FrameAlloc, frame: Frame, count: usize)
    requires
        count <= old(a).spec_used(),
        old(a).spec_free() + count <= usize::MAX,
    ensures
        final(a).spec_free() == old(a).spec_free() + count,
        final(a).spec_used() == old(a).spec_used() - count,
        final(a).spec_next() == old(a).spec_next(),
{
    let _ = frame;
    a.free = a.free + count;
    a.used = a.used - count;
}

/// A virtual page, identified by its index in the address space.
#[derive(Debug, Clone, Copy, PartialEq, Eq, Structural)]
pub struct Page {
    pub number: u64,
}

impl Page {
    pub fn start_address(&self) -> (a: u64)
        requires
            self.number <= u64::MAX / 4096,
        ensures
            a == self.number * PAGE_SIZE64,
    {
        self.number * PAGE_SIZE64
    }

    pub fn containing_address(address: u64) -> (p: Page)
        ensures
            p.number == address / PAGE_SIZE64,
    {
        Page { number: address / PAGE_SIZE64 }
    }
}

/// Walks a page range front to back.
#[derive(Debug, Clone, Copy, PartialEq, Eq, Structural)]
pub struct PageIter {
    pub start: Page,
    pub end: Page,
}

impl PageIter {
    pub fn next(&mut self) -> (r: Option<Page>)
        requires
            old(self).end.number < u64::MAX,
        ensures
            old(self).start.number <= old(self).end.number ==> r == Some(old(self).start)
                && final(self).start.number == old(self).start.number + 1,
            old(self).start.number > old(self).end.number ==> r is None && *final(self) == *old(self),
            final(self).end == old(self).end,
    {
        if self.start.number <= self.end.number {
            let p = self.start;
            self.start = Page { number: self.start.number + 1 };
            Some(p)
        } else {
            None
        }
    }
}

/// Pages of free virtual space in one allocator block: start address and
/// page count.
pub type VallocBlock = (u64, usize);

/// Total pages across a free list.
pub open spec fn blocks_pages(s: Seq<VallocBlock>) -> nat
    decreases s.len(),
{
    if s.len() == 0 {
        0
    } else {
        s[0].1 as nat + blocks_pages(s.skip(1))
    }
}

proof fn lemma_blocks_pages_push(s: Seq<VallocBlock>, v: VallocBlock)
    ensures
        blocks_pages(s.push(v)) == blocks_pages(s) + v.1,
    decreases s.len(),
{
    assert(s.push(v).len() == s.len() + 1);
    assert(blocks_pages(s.push(v)) == s.push(v)[0].1 as nat + blocks_pages(s.push(v).skip(1)));
    if s.len() == 0 {
        assert(s.push(v)[0] == v);
        assert(s.push(v).skip(1) =~= Seq::<VallocBlock>::empty());
        assert(blocks_pages(s.push(v).skip(1)) == 0);
    } else {
        assert(s.push(v)[0] == s[0]);
        assert(s.push(v).skip(1) =~= s.skip(1).push(v));
        lemma_blocks_pages_push(s.skip(1), v);
        assert(blocks_pages(s) == s[0].1 as nat + blocks_pages(s.skip(1)));
    }
}

proof fn lemma_blocks_pages_update(s: Seq<VallocBlock>, i: int, v: VallocBlock)
    requires
        0 <= i < s.len(),
    ensures
        blocks_pages(s.update(i, v)) == blocks_pages(s) - s[i].1 + v.1,
    decreases s.len(),
{
    if i == 0 {
        assert(s.update(0, v).skip(1) =~= s.skip(1));
    } else {
        assert(s.update(i, v).skip(1) =~= s.skip(1).update(i - 1, v));
        lemma_blocks_pages_update(s.skip(1), i - 1, v);
    }
}

proof fn lemma_blocks_pages_drop_last(s: Seq<VallocBlock>)
    requires
        s.len() > 0,
    ensures
        blocks_pages(s) == blocks_pages(s.drop_last()) + s.last().1,
{
    assert(s =~= s.drop_last().push(s.last()));
    lemma_blocks_pages_push(s.drop_last(), s.last());
}

/// The kernel's virtual-address reservation allocator: a free list of page
/// blocks over a dedicated region, best-fit allocation from the tail of the
/// chosen block, and coalescing on free.  Reservations carry no backing
/// frames; mapping installs those later.
pub struct Valloc {
    free: Vec<VallocBlock>,
}

impl Valloc {
    /// Every free block is page-aligned and lies inside the reservation
    /// region's address ceiling, so block arithmetic cannot wrap.
    pub closed spec fn wf(self) -> bool {
        forall|i: int| 0 <= i < self.free@.len() ==> (#[trigger] self.free@[i]).0 % 4096 == 0
            && self.free@[i].0 + self.free@[i].1 * 4096 <= 0x0100_0000_0000_0000
    }

    /// The tail of block `i`, `count` pages short of its end: where a
    /// reservation of `count` pages out of that block starts.
    pub closed spec fn block_tail(self, i: int, count: usize) -> u64 {
        ((self.free@[i].0 + (self.free@[i].1 - count) * 4096) / 4096) as u64
    }

    /// The free list as it stands.
    pub closed spec fn spec_blocks(self) -> Seq<VallocBlock> {
        self.free@
    }

    /// Pages available for reservation.
    pub closed spec fn spec_free_pages(self) -> nat {
        blocks_pages(self.free@)
    }

    /// Some free block can hold `count` pages.
    pub closed spec fn has_fit(self, count: usize) -> bool {
        exists|i: int| 0 <= i < self.free@.len() && self.free@[i].1 >= count
    }

    /// A fresh allocator over the region starting at `start`, `size` bytes.
    pub fn new(start: u64, size: usize) -> (v: Valloc)
        requires
            start % 4096 == 0,
            start + size <= 0x0100_0000_0000_0000,
        ensures
            v.wf(),
            v.spec_free_pages() == size as nat / PAGE_SIZE as nat,
    {
        let mut free: Vec<VallocBlock> = Vec::new();
        free.push((start, size / PAGE_SIZE));
        proof {
            assert(free@[0] == (start, size / PAGE_SIZE));
            assert((size / PAGE_SIZE) * 4096 <= size) by (nonlinear_arith)
                requires
                    size >= 0,
                    PAGE_SIZE == 4096,
            ;
            assert(free@.skip(1) =~= Seq::<VallocBlock>::empty());
            assert(blocks_pages(free@) == free@[0].1 as nat + blocks_pages(free@.skip(1)));
            assert(blocks_pages(free@.skip(1)) == 0);
        }
        Valloc { free }
    }

    /// Pages available, counted block by block.
    pub fn free_count(&self) -> (n: usize)
        requires
            self.spec_free_pages() <= usize::MAX,
        ensures
            n == self.spec_free_pages(),
    {
        let mut count: usize = 0;
        let mut i: usize = 0;
        proof {
            assert(self.free@.skip(0) =~= self.free@);
        }
        while i < self.free.len()
            invariant
                i <= self.free@.len(),
                count + blocks_pages(self.free@.skip(i as int)) == blocks_pages(self.free@),
                blocks_pages(self.free@) <= usize::MAX,
            decreases self.free@.len() - i,
        {
            proof {
                assert(self.free@.skip(i as int)[0] == self.free@[i as int]);
                assert(self.free@.skip(i as int).skip(1) =~= self.free@.skip(i + 1));
            }
            count = count + vstd::std_specs::vec::vec_index(&self.free, i).1;
            i = i + 1;
        }
        proof {
            assert(self.free@.skip(self.free@.len() as int).len() == 0);
        }
        count
    }

    /// Fold an adjoining free block into an existing one; true when a
    /// neighbour was found.  The page total grows by `count` exactly when
    /// the merge happened.
    pub fn merge(&mut self, address: u64, count: usize) -> (merged: bool)
        requires
            old(self).wf(),
            old(self).spec_free_pages() + count <= usize::MAX,
            address % 4096 == 0,
            address + count * 4096 <= 0x0100_0000_0000_0000,
        ensures
            final(self).wf(),
            merged ==> final(self).spec_free_pages() == old(self).spec_free_pages() + count,
            !merged ==> *final(self) == *old(self),
    {
        let n = self.free.len();
        let mut i: usize = 0;
        while i < n
            invariant
                i <= n,
                n == self.free@.len(),
                *self == *old(self),
                old(self).wf(),
                old(self).spec_free_pages() + count <= usize::MAX,
                address % 4096 == 0,
                address + count * 4096 <= 0x0100_0000_0000_0000,
            decreases n - i,
        {
            let block = *vstd::std_specs::vec::vec_index(&self.free, i);
            if address + count as u64 * PAGE_SIZE64 == block.0 {
                proof {
                    lemma_blocks_pages_elem_bound(self.free@, i as int);
                }
                let merged_block = (address, block.1 + count);
                proof {
                    lemma_blocks_pages_update(self.free@, i as int, merged_block);
                }
                self.free[i] = merged_block;
                proof {
                    assert forall|a: int| 0 <= a < self.free@.len() implies (
                    #[trigger] self.free@[a]).0 % 4096 == 0 && self.free@[a].0 + self.free@[a].1
                        * 4096 <= 0x0100_0000_0000_0000 by {
                        if a != i as int {
                            assert(self.free@[a] == old(self).free@[a]);
                        }
                    }
                }
                return true;
            }
            if block.1 as u64 <= u64::MAX / PAGE_SIZE64 && block.0 <= u64::MAX - block.1 as u64
                * PAGE_SIZE64 && block.0 + block.1 as u64 * PAGE_SIZE64 == address {
                proof {
                    lemma_blocks_pages_elem_bound(self.free@, i as int);
                }
                let merged_block = (block.0, block.1 + count);
                proof {
                    lemma_blocks_pages_update(self.free@, i as int, merged_block);
                }
                self.free[i] = merged_block;
                proof {
                    assert forall|a: int| 0 <= a < self.free@.len() implies (
                    #[trigger] self.free@[a]).0 % 4096 == 0 && self.free@[a].0 + self.free@[a].1
                        * 4096 <= 0x0100_0000_0000_0000 by {
                        if a != i as int {
                            assert(self.free@[a] == old(self).free@[a]);
                        }
                    }
                }
                return true;
            }
            i = i + 1;
        }
        false
    }

    /// Reserve `count` pages from the smallest free block that fits: the
    /// reservation comes off the tail of that block.  Succeeds exactly when
    /// some block fits, and the free-page total shrinks by `count`.
    pub fn allocate_pages(&mut self, count: usize) -> (r: Option<Page>)
        requires
            old(self).wf(),
            count > 0,
        ensures
            final(self).wf(),
            r is Some <==> old(self).has_fit(count),
            r is Some ==> final(self).spec_free_pages() == old(self).spec_free_pages() - count,
            // The reservation comes off the tail of a free block that held
            // it: count pages ending where that block ended.
            r matches Some(p) ==> exists|i: int| 0 <= i < old(self).spec_blocks().len() && (
            #[trigger] old(self).spec_blocks()[i]).1 >= count && p.number == old(
                self,
            ).block_tail(i, count),
            r is None ==> *final(self) == *old(self),
    {
        let n = self.free.len();
        let mut best: Option<VallocBlock> = None;
        let mut best_index: usize = 0;
        let mut i: usize = 0;
        while i < n
            invariant
                i <= n,
                n == self.free@.len(),
                match best {
                    Some(b) => best_index < i && self.free@[best_index as int] == b && b.1
                        >= count,
                    None => forall|j: int| 0 <= j < i ==> self.free@[j].1 < count,
                },
            decreases n - i,
        {
            let block = *vstd::std_specs::vec::vec_index(&self.free, i);
            if block.1 >= count {
                match best {
                    Option::None => {
                        best = Some(block);
                        best_index = i;
                    },
                    Option::Some(b) => {
                        if block.1 < b.1 {
                            best = Some(block);
                            best_index = i;
                        }
                    },
                }
            }
            let stop = match best {
                Option::Some(b) => b.1 == count,
                Option::None => false,
            };
            if stop {
                i = n;
            } else {
                i = i + 1;
            }
        }
        match best {
            Option::Some(best_block) => {
                proof {
                    lemma_blocks_pages_elem_bound(self.free@, best_index as int);
                    assert(best_block.0 % 4096 == 0 && best_block.0 + best_block.1 * 4096
                        <= 0x0100_0000_0000_0000);
                }
                if best_block.1 > count {
                    let new_block = (best_block.0, best_block.1 - count);
                    let ghost before = self.free@;
                    self.free.push(new_block);
                    proof {
                        lemma_blocks_pages_push(before, new_block);
                        let pushed = self.free@;
                        let swapped = pushed.update(best_index as int, pushed.last());
                        lemma_blocks_pages_update(pushed, best_index as int, pushed.last());
                        lemma_blocks_pages_drop_last(swapped);
                        assert(swapped.last() == pushed.last());
                    }
                    let _ = self.free.swap_remove(best_index);
                    proof {
                        assert forall|a: int| 0 <= a < self.free@.len() implies (
                        #[trigger] self.free@[a]).0 % 4096 == 0 && self.free@[a].0
                            + self.free@[a].1 * 4096 <= 0x0100_0000_0000_0000 by {
                            let pushed = old(self).free@.push(new_block);
                            assert(self.free@[a] == pushed.update(
                                best_index as int,
                                pushed.last(),
                            ).drop_last()[a]);
                        }
                    }
                } else {
                    proof {
                        let base = self.free@;
                        let swapped = base.update(best_index as int, base.last());
                        lemma_blocks_pages_update(base, best_index as int, base.last());
                        lemma_blocks_pages_drop_last(swapped);
                        assert(swapped.last() == base.last());
                    }
                    let _ = self.free.swap_remove(best_index);
                    proof {
                        assert forall|a: int| 0 <= a < self.free@.len() implies (
                        #[trigger] self.free@[a]).0 % 4096 == 0 && self.free@[a].0
                            + self.free@[a].1 * 4096 <= 0x0100_0000_0000_0000 by {
                            let base = old(self).free@;
                            assert(self.free@[a] == base.update(
                                best_index as int,
                                base.last(),
                            ).drop_last()[a]);
                        }
                    }
                }
                proof {
                    assert((best_block.1 - count) as u64 * PAGE_SIZE64 <= best_block.1 * 4096)
                        by (nonlinear_arith)
                        requires
                            0 <= count <= best_block.1,
                            PAGE_SIZE64 == 4096,
                    ;
                }
                let start = best_block.0 + ((best_block.1 - count) as u64) * PAGE_SIZE64;
                proof {
                    assert(start / 4096 == best_block.0 / 4096 + (best_block.1 - count))
                        by (nonlinear_arith)
                        requires
                            best_block.0 % 4096 == 0,
                            start == best_block.0 + (best_block.1 - count) as u64 * 4096,
                            0 <= count <= best_block.1,
                            start <= u64::MAX,
                    ;
                    assert(old(self).spec_blocks()[best_index as int].1 >= count);
                    assert(start / PAGE_SIZE64 == old(self).block_tail(best_index as int, count));
                }
                Some(Page { number: start / PAGE_SIZE64 })
            },
            Option::None => None,
        }
    }

    /// Return `count` pages starting at `page`: coalesce with a neighbour
    /// or keep them as a block of their own.
    pub fn deallocate_pages(&mut self, page: Page, count: usize)
        requires
            old(self).wf(),
            old(self).spec_free_pages() + count <= usize::MAX,
            page.number * 4096 + count * 4096 <= 0x0100_0000_0000_0000,
        ensures
            final(self).wf(),
            final(self).spec_free_pages() == old(self).spec_free_pages() + count,
    {
        let address = page.number * PAGE_SIZE64;
        proof {
            assert(page.number * PAGE_SIZE64 % 4096 == 0) by (nonlinear_arith)
                requires
                    PAGE_SIZE64 == 4096,
            ;
        }
        let merged = self.merge(address, count);
        if !merged {
            let ghost before = self.free@;
            self.free.push((address, count));
            proof {
                lemma_blocks_pages_push(before, (address, count));
                assert forall|a: int| 0 <= a < self.free@.len() implies (
                #[trigger] self.free@[a]).0 % 4096 == 0 && self.free@[a].0 + self.free@[a].1
                    * 4096 <= 0x0100_0000_0000_0000 by {
                    if a < before.len() {
                        assert(self.free@[a] == before[a]);
                    }
                }
            }
        }
    }
}

/// Every block's count is part of the total.
proof fn lemma_blocks_pages_elem_bound(s: Seq<VallocBlock>, i: int)
    requires
        0 <= i < s.len(),
    ensures
        s[i].1 <= blocks_pages(s),
    decreases s.len(),
{
    if i > 0 {
        lemma_blocks_pages_elem_bound(s.skip(1), i - 1);
    }
}

/// A block of reserved, unbacked virtual pages.
pub struct VallocPages {
    pub start: Page,
    pub count: usize,
}

impl VallocPages {
    /// Walk the reserved pages front to back.
    pub fn iter(&self) -> (it: PageIter)
        requires
            self.count > 0,
            self.start.number + self.count <= u64::MAX,
        ensures
            it.start == self.start,
            it.end.number == self.start.number + self.count - 1,
    {
        PageIter {
            start: self.start,
            end: Page { number: self.start.number + self.count as u64 - 1 },
        }
    }

    pub fn start_address(&self) -> (a: u64)
        requires
            self.start.number <= u64::MAX / 4096,
        ensures
            a == self.start.number * PAGE_SIZE64,
    {
        self.start.start_address()
    }
}

/// Reserve `count` pages of kernel virtual space, unbacked.
pub fn allocate_unmapped_pages(v: &mut Valloc, count: usize) -> (r: Option<VallocPages>)
    requires
        old(v).wf(),
        count > 0,
    ensures
        final(v).wf(),
        r is Some <==> old(v).has_fit(count),
        r is Some ==> final(v).spec_free_pages() == old(v).spec_free_pages() - count && r->0.count
            == count,
        r is None ==> *final(v) == *old(v),
{
    match v.allocate_pages(count) {
        Option::Some(start) => Some(VallocPages { start, count }),
        Option::None => None,
    }
}

/// Return reserved pages to the allocator.
pub fn deallocate_pages(v: &mut Valloc, page: Page, count: usize)
    requires
        old(v).wf(),
        old(v).spec_free_pages() + count <= usize::MAX,
        page.number * 4096 + count * 4096 <= 0x0100_0000_0000_0000,
    ensures
        final(v).wf(),
        final(v).spec_free_pages() == old(v).spec_free_pages() + count,
{
    v.deallocate_pages(page, count);
}

} // verus!
