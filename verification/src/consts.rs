//! The virtual-memory map: one PML4 slot per major region, the kernel in
//! the top slots, user space in the bottom ones, and the user argument
//! region in the upper half of the user image slot.

use vstd::prelude::*;

verus! {

/// Bytes covered by a single PML4 entry: 512 GiB.
pub const PML4_SIZE: u64 = 0x0000_0080_0000_0000;

/// Recursive page-table mapping, topmost slot.
pub const RECURSIVE_PAGE_OFFSET: u64 = 0xFFFF_FF80_0000_0000;

pub const RECURSIVE_PAGE_PML4: u64 = 511;

/// Kernel image.
pub const KERNEL_OFFSET: u64 = 0xFFFF_FF00_0000_0000;

pub const KERNEL_PML4: u64 = 510;

/// Kernel heap.
pub const KERNEL_HEAP_OFFSET: u64 = 0xFFFF_FE80_0000_0000;

pub const KERNEL_HEAP_PML4: u64 = 509;

pub const KERNEL_HEAP_SIZE: u64 = 0x10_0000;

/// Kernel virtual-address reservations.
pub const KERNEL_VALLOC_OFFSET: u64 = 0xFFFF_FE00_0000_0000;

pub const KERNEL_VALLOC_PML4: u64 = 508;

pub const KERNEL_VALLOC_SIZE: u64 = PML4_SIZE;

/// Kernel per-CPU variables.
pub const KERNEL_PERCPU_OFFSET: u64 = 0xFFFF_FD80_0000_0000;

pub const KERNEL_PERCPU_PML4: u64 = 507;

pub const KERNEL_PERCPU_SIZE: u64 = 0x1_0000;

/// User image, bottom slot.
pub const USER_OFFSET: u64 = 0;

pub const USER_PML4: u64 = 0;

/// User argument region: upper half of the user image slot.
pub const USER_ARG_OFFSET: u64 = PML4_SIZE / 2;

/// User heap.
pub const USER_HEAP_OFFSET: u64 = PML4_SIZE;

pub const USER_HEAP_PML4: u64 = 1;

/// User grants.
pub const USER_GRANT_OFFSET: u64 = 2 * PML4_SIZE;

pub const USER_GRANT_PML4: u64 = 2;

/// User stack.
pub const USER_STACK_OFFSET: u64 = 3 * PML4_SIZE;

pub const USER_STACK_PML4: u64 = 3;

pub const USER_STACK_SIZE: u64 = 0x10_0000;

/// Size of a kernel stack in bytes.
pub const KSTACK_SIZE: u64 = 0x1_0000;

} // verus!
