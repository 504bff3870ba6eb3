//! A function-oriented microkernel core, modelled and verified: the SOS value
//! codec used as the wire format for arguments and results, the SPSC byte ring
//! buffer behind the shared-memory RPC channel, the framed RPC transport, the
//! context and module lifecycle, the cooperative scheduler with its cast and
//! fuse call paths, and the syscall gateway.

pub mod call;
pub mod consts;
pub mod context;
pub mod cxmem;
pub mod debug;
pub mod error;
pub mod gdt;
pub mod host;
pub mod ivshmem;
pub mod loader;
pub mod mem;
pub mod ring;
pub mod rpc;
pub mod sched;
pub mod sos;
pub mod syscall;
