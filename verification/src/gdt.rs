//! Global descriptor table entries: the bit packing of a segment
//! descriptor's offset and limit across its scattered fields.

use vstd::prelude::*;

verus! {

/// One descriptor-table entry, fields laid out as the hardware reads them.
#[derive(Debug, Clone, Copy, PartialEq, Eq, Structural)]
pub struct GdtEntry {
    pub limitl: u16,
    pub offsetl: u16,
    pub offsetm: u8,
    pub access: u8,
    pub flags_limith: u8,
    pub offseth: u8,
}

impl GdtEntry {
    /// Pack a descriptor: the 32-bit offset splits into low, middle, and
    /// high fields, the 20-bit limit into its low half and the flag
    /// nibble.
    pub fn new(offset: u32, limit: u32, access: u8, flags: u8) -> (r: GdtEntry)
        ensures
            r.limitl == limit as u16,
            r.offsetl == offset as u16,
            r.offsetm == (offset >> 16) as u8,
            r.offseth == (offset >> 24) as u8,
            r.access == access,
            r.flags_limith == (flags & 0xF0) | (((limit >> 16) as u8) & 0x0F),
            (r.offsetl as u32) | ((r.offsetm as u32) << 16) | ((r.offseth as u32) << 24)
                == offset,
    {
        let r = GdtEntry {
            limitl: limit as u16,
            offsetl: offset as u16,
            offsetm: (offset >> 16) as u8,
            access,
            flags_limith: (flags & 0xF0) | (((limit >> 16) as u8) & 0x0F),
            offseth: (offset >> 24) as u8,
        };
        proof {
            assert(((offset as u16) as u32) | ((((offset >> 16) as u8) as u32) << 16) | ((((
            offset >> 24) as u8) as u32) << 24) == offset) by (bit_vector);
        }
        r
    }

    /// Store the low 32 bits of a 64-bit offset.
    pub fn set_offset_low(&mut self, offset: u64)
        ensures
            final(self).offsetl == offset as u16,
            final(self).offsetm == (offset >> 16) as u8,
            final(self).offseth == (offset >> 24) as u8,
            final(self).limitl == old(self).limitl,
            final(self).access == old(self).access,
            final(self).flags_limith == old(self).flags_limith,
    {
        self.offsetl = offset as u16;
        self.offsetm = (offset >> 16) as u8;
        self.offseth = (offset >> 24) as u8;
    }

    /// Store the high 32 bits of a 64-bit offset in the fields a system
    /// descriptor's upper half reuses.
    pub fn set_offset_high(&mut self, offset: u64)
        ensures
            final(self).limitl == (offset >> 32) as u16,
            final(self).offsetl == (offset >> 48) as u16,
            final(self).offsetm == old(self).offsetm,
            final(self).offseth == old(self).offseth,
            final(self).access == old(self).access,
            final(self).flags_limith == old(self).flags_limith,
    {
        self.limitl = (offset >> 32) as u16;
        self.offsetl = (offset >> 48) as u16;
    }

    /// Store a 20-bit limit: its low half, and its top nibble beside the
    /// flags.
    pub fn set_limit(&mut self, limit: u32)
        ensures
            final(self).limitl == limit as u16,
            final(self).flags_limith == (old(self).flags_limith & 0xF0) | (((limit >> 16) as u8)
                & 0x0F),
            final(self).offsetl == old(self).offsetl,
            final(self).offsetm == old(self).offsetm,
            final(self).offseth == old(self).offseth,
            final(self).access == old(self).access,
    {
        self.limitl = limit as u16;
        self.flags_limith = (self.flags_limith & 0xF0) | (((limit >> 16) as u8) & 0x0F);
    }
}

} // verus!
