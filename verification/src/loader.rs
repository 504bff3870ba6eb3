//! The module loader and cache.
//!
//! A module arrives as an ELF image whose `.manifest` section is a JSON
//! object naming the module and its exported functions with their entry
//! offsets.  Loading parses the ELF program and section tables, reads the
//! manifest, stages each loadable segment in a context-memory region - head
//! and tail padding zeroed, file bytes copied - and records the function
//! table.  Loaded modules are cached by name; index 0 of the cache is the
//! well-known "kernel" sentinel that owns kernel-side entry points.

use vstd::prelude::*;
use vstd::bytes::{spec_u16_from_le_bytes, spec_u32_from_le_bytes, spec_u64_from_le_bytes,
    u16_from_le_bytes, u32_from_le_bytes, u64_from_le_bytes};
use vstd::slice::{slice_subrange, slice_to_vec};
use crate::cxmem::ContextMemory;
use crate::mem::{EntryFlags, PAGE_SIZE, FLAG_PRESENT, FLAG_WRITABLE, FLAG_USER_ACCESSIBLE,
    FLAG_NO_EXECUTE};
use crate::consts::USER_ARG_OFFSET;
use crate::error::KError;
use crate::sos::text_bytes;

verus! {

/// Program-header type of a loadable segment.
pub const PT_LOAD: u32 = 1;

pub const PF_X: u32 = 1;

pub const PF_W: u32 = 2;

pub const PF_R: u32 = 4;

/// Two byte strings hold the same bytes.
pub fn bytes_eq(a: &[u8], b: &[u8]) -> (r: bool)
    ensures
        r == (a@ == b@),
{
    if a.len() != b.len() {
        return false;
    }
    let n = a.len();
    let mut i: usize = 0;
    while i < n
        invariant
            i <= n,
            n == a@.len() == b@.len(),
            forall|j: int| 0 <= j < i ==> a@[j] == b@[j],
        decreases n - i,
    {
        if *vstd::slice::slice_index_get(a, i) != *vstd::slice::slice_index_get(b, i) {
            return false;
        }
        i = i + 1;
    }
    proof {
        assert(a@ =~= b@);
    }
    true
}

// The ELF reader: the fields the loader consumes, read little-endian at
// their fixed offsets.

/// One program header: the fields the loader uses.
#[derive(Debug, Clone, Copy, PartialEq, Eq, Structural)]
pub struct ProgramHeader {
    pub p_type: u32,
    pub p_flags: u32,
    pub p_offset: u64,
    pub p_vaddr: u64,
    pub p_filesz: u64,
    pub p_memsz: u64,
}

/// One section header: the fields the loader uses.
#[derive(Debug, Clone, Copy, PartialEq, Eq, Structural)]
pub struct SectionHeader {
    pub sh_name: u32,
    pub sh_offset: u64,
    pub sh_size: u64,
}

/// A parsed ELF executable: the header fields the loader walks with.
pub struct Elf<'a> {
    pub data: &'a [u8],
    pub e_phoff: u64,
    pub e_phentsize: u16,
    pub e_phnum: u16,
    pub e_shoff: u64,
    pub e_shentsize: u16,
    pub e_shnum: u16,
    pub e_shstrndx: u16,
    pub e_entry: u64,
}

/// The image opens as a 64-bit ELF: long enough for the header, the magic,
/// and the 64-bit class byte.
pub open spec fn spec_elf_ok(b: Seq<u8>) -> bool {
    &&& b.len() >= 64
    &&& b[0] == 0x7f && b[1] == 0x45 && b[2] == 0x4c && b[3] == 0x46
    &&& b[4] == 2
}

/// The header fields, read little-endian at their fixed offsets.
pub open spec fn elf_entry(b: Seq<u8>) -> u64 {
    spec_u64_from_le_bytes(b.subrange(24, 32))
}

pub open spec fn elf_phoff(b: Seq<u8>) -> int {
    spec_u64_from_le_bytes(b.subrange(32, 40)) as int
}

pub open spec fn elf_shoff(b: Seq<u8>) -> int {
    spec_u64_from_le_bytes(b.subrange(40, 48)) as int
}

pub open spec fn elf_phentsize(b: Seq<u8>) -> int {
    spec_u16_from_le_bytes(b.subrange(54, 56)) as int
}

pub open spec fn elf_phnum(b: Seq<u8>) -> int {
    spec_u16_from_le_bytes(b.subrange(56, 58)) as int
}

pub open spec fn elf_shentsize(b: Seq<u8>) -> int {
    spec_u16_from_le_bytes(b.subrange(58, 60)) as int
}

pub open spec fn elf_shnum(b: Seq<u8>) -> int {
    spec_u16_from_le_bytes(b.subrange(60, 62)) as int
}

pub open spec fn elf_shstrndx(b: Seq<u8>) -> int {
    spec_u16_from_le_bytes(b.subrange(62, 64)) as int
}

/// The `i`th program-header record lies inside the image.
pub open spec fn spec_seg_ok(b: Seq<u8>, i: int) -> bool {
    &&& 0 <= i < elf_phnum(b)
    &&& elf_phentsize(b) >= 56
    &&& elf_phoff(b) + i * elf_phentsize(b) + 56 <= b.len()
}

/// The `i`th program header, field by field.
pub open spec fn spec_segment_at(b: Seq<u8>, i: int) -> ProgramHeader {
    let base = elf_phoff(b) + i * elf_phentsize(b);
    ProgramHeader {
        p_type: spec_u32_from_le_bytes(b.subrange(base, base + 4)),
        p_flags: spec_u32_from_le_bytes(b.subrange(base + 4, base + 8)),
        p_offset: spec_u64_from_le_bytes(b.subrange(base + 8, base + 16)),
        p_vaddr: spec_u64_from_le_bytes(b.subrange(base + 16, base + 24)),
        p_filesz: spec_u64_from_le_bytes(b.subrange(base + 32, base + 40)),
        p_memsz: spec_u64_from_le_bytes(b.subrange(base + 40, base + 48)),
    }
}

/// The `i`th section-header record lies inside the image.
pub open spec fn spec_sec_ok(b: Seq<u8>, i: int) -> bool {
    &&& 0 <= i < elf_shnum(b)
    &&& elf_shentsize(b) >= 64
    &&& elf_shoff(b) + i * elf_shentsize(b) + 64 <= b.len()
}

/// The `i`th section header, field by field.
pub open spec fn spec_section_at(b: Seq<u8>, i: int) -> SectionHeader {
    let base = elf_shoff(b) + i * elf_shentsize(b);
    SectionHeader {
        sh_name: spec_u32_from_le_bytes(b.subrange(base, base + 4)),
        sh_offset: spec_u64_from_le_bytes(b.subrange(base + 24, base + 32)),
        sh_size: spec_u64_from_le_bytes(b.subrange(base + 32, base + 40)),
    }
}

/// The section's data span lies inside the image.
pub open spec fn spec_sec_data_ok(b: Seq<u8>, h: SectionHeader) -> bool {
    h.sh_offset + h.sh_size <= b.len()
}

pub open spec fn spec_sec_data(b: Seq<u8>, h: SectionHeader) -> Seq<u8> {
    b.subrange(h.sh_offset as int, h.sh_offset + h.sh_size)
}

/// Position of the first NUL at or after `j`.
pub open spec fn spec_nul_end(b: Seq<u8>, j: int) -> Option<int>
    decreases b.len() - j,
{
    if j < 0 || j >= b.len() {
        None
    } else if b[j] == 0 {
        Some(j)
    } else {
        spec_nul_end(b, j + 1)
    }
}

/// The NUL-terminated name at a string-table offset.
pub open spec fn spec_section_name(strtab: Seq<u8>, index: int) -> Option<Seq<u8>> {
    if index >= strtab.len() {
        None
    } else {
        match spec_nul_end(strtab, index) {
            Some(e) => Some(strtab.subrange(index, e)),
            None => None,
        }
    }
}

/// The bytes `.manifest`.
pub open spec fn manifest_name_bytes() -> Seq<u8> {
    seq![0x2eu8, 0x6du8, 0x61u8, 0x6eu8, 0x69u8, 0x66u8, 0x65u8, 0x73u8, 0x74u8]
}

/// Walk the section table for the first section named `.manifest`; a
/// section record or name outside the image ends the walk empty-handed.
pub open spec fn spec_manifest_scan(b: Seq<u8>, strtab: Seq<u8>, i: int) -> Option<Seq<u8>>
    decreases elf_shnum(b) - i,
{
    if i < 0 || i >= elf_shnum(b) {
        None
    } else if !spec_sec_ok(b, i) {
        None
    } else {
        let h = spec_section_at(b, i);
        match spec_section_name(strtab, h.sh_name as int) {
            Some(nm) => if nm == manifest_name_bytes() {
                if spec_sec_data_ok(b, h) {
                    Some(spec_sec_data(b, h))
                } else {
                    None
                }
            } else {
                spec_manifest_scan(b, strtab, i + 1)
            },
            None => spec_manifest_scan(b, strtab, i + 1),
        }
    }
}

/// The bytes of the image's `.manifest` section, if the string table and
/// the section both resolve.
pub open spec fn spec_manifest_section(b: Seq<u8>) -> Option<Seq<u8>> {
    if !spec_sec_ok(b, elf_shstrndx(b)) {
        None
    } else {
        let h = spec_section_at(b, elf_shstrndx(b));
        if !spec_sec_data_ok(b, h) {
            None
        } else {
            spec_manifest_scan(b, spec_sec_data(b, h), 0)
        }
    }
}

impl<'a> Elf<'a> {
    /// The reader's fields are exactly the header fields of its image.
    pub open spec fn wf(self) -> bool {
        &&& spec_elf_ok(self.data@)
        &&& self.e_entry == elf_entry(self.data@)
        &&& self.e_phoff as int == elf_phoff(self.data@)
        &&& self.e_shoff as int == elf_shoff(self.data@)
        &&& self.e_phentsize as int == elf_phentsize(self.data@)
        &&& self.e_phnum as int == elf_phnum(self.data@)
        &&& self.e_shentsize as int == elf_shentsize(self.data@)
        &&& self.e_shnum as int == elf_shnum(self.data@)
        &&& self.e_shstrndx as int == elf_shstrndx(self.data@)
    }

    /// Read the ELF header: magic, 64-bit class, and the table pointers.
    pub fn from(data: &'a [u8]) -> (r: Result<Elf<'a>, KError>)
        ensures
            r is Ok <==> spec_elf_ok(data@),
            r matches Ok(e) ==> e.wf() && e.data@ == data@,
            r is Ok ==> {
                &&& data@.len() >= 64
                &&& data@[0] == 0x7f && data@[1] == 0x45 && data@[2] == 0x4c && data@[3] == 0x46
                &&& data@[4] == 2
                &&& r->Ok_0.data@ == data@
                &&& r->Ok_0.e_entry == spec_u64_from_le_bytes(data@.subrange(24, 32))
                &&& r->Ok_0.e_phoff == spec_u64_from_le_bytes(data@.subrange(32, 40))
                &&& r->Ok_0.e_shoff == spec_u64_from_le_bytes(data@.subrange(40, 48))
                &&& r->Ok_0.e_phentsize == spec_u16_from_le_bytes(data@.subrange(54, 56))
                &&& r->Ok_0.e_phnum == spec_u16_from_le_bytes(data@.subrange(56, 58))
                &&& r->Ok_0.e_shentsize == spec_u16_from_le_bytes(data@.subrange(58, 60))
                &&& r->Ok_0.e_shnum == spec_u16_from_le_bytes(data@.subrange(60, 62))
                &&& r->Ok_0.e_shstrndx == spec_u16_from_le_bytes(data@.subrange(62, 64))
            },
    {
        if data.len() < 64 {
            return Err(KError::Protocol);
        }
        let m0 = *vstd::slice::slice_index_get(data, 0);
        let m1 = *vstd::slice::slice_index_get(data, 1);
        let m2 = *vstd::slice::slice_index_get(data, 2);
        let m3 = *vstd::slice::slice_index_get(data, 3);
        let class = *vstd::slice::slice_index_get(data, 4);
        if m0 != 0x7f || m1 != 0x45 || m2 != 0x4c || m3 != 0x46 {
            return Err(KError::Protocol);
        }
        if class != 2 {
            return Err(KError::Protocol);
        }
        let e_entry = u64_from_le_bytes(slice_subrange(data, 24, 32));
        let e_phoff = u64_from_le_bytes(slice_subrange(data, 32, 40));
        let e_shoff = u64_from_le_bytes(slice_subrange(data, 40, 48));
        let e_phentsize = u16_from_le_bytes(slice_subrange(data, 54, 56));
        let e_phnum = u16_from_le_bytes(slice_subrange(data, 56, 58));
        let e_shentsize = u16_from_le_bytes(slice_subrange(data, 58, 60));
        let e_shnum = u16_from_le_bytes(slice_subrange(data, 60, 62));
        let e_shstrndx = u16_from_le_bytes(slice_subrange(data, 62, 64));
        Ok(
            Elf {
                data,
                e_phoff,
                e_phentsize,
                e_phnum,
                e_shoff,
                e_shentsize,
                e_shnum,
                e_shstrndx,
                e_entry,
            },
        )
    }

    /// Entry field of the header.
    pub fn entry(&self) -> (e: u64)
        ensures
            e == self.e_entry,
    {
        self.e_entry
    }

    /// The `i`th program header, if its record lies inside the image.
    pub fn segment(&self, i: u16) -> (r: Option<ProgramHeader>)
        ensures
            self.wf() ==> (r is Some <==> spec_seg_ok(self.data@, i as int)),
            self.wf() && r is Some ==> r->0 == spec_segment_at(self.data@, i as int),
            r is Some ==> i < self.e_phnum,
            r matches Some(h) ==> {
                let base = self.e_phoff + i * self.e_phentsize;
                &&& base + 56 <= self.data@.len()
                &&& h.p_type == spec_u32_from_le_bytes(self.data@.subrange(base as int, base + 4))
                &&& h.p_flags == spec_u32_from_le_bytes(
                    self.data@.subrange(base + 4, base + 8),
                )
                &&& h.p_offset == spec_u64_from_le_bytes(
                    self.data@.subrange(base + 8, base + 16),
                )
                &&& h.p_vaddr == spec_u64_from_le_bytes(
                    self.data@.subrange(base + 16, base + 24),
                )
                &&& h.p_filesz == spec_u64_from_le_bytes(
                    self.data@.subrange(base + 32, base + 40),
                )
                &&& h.p_memsz == spec_u64_from_le_bytes(
                    self.data@.subrange(base + 40, base + 48),
                )
            },
    {
        let dlen = self.data.len();
        if i >= self.e_phnum {
            return None;
        }
        if self.e_phentsize < 56 {
            return None;
        }
        proof {
            assert((i as u64) * (self.e_phentsize as u64) < 0x1_0000_0000u64) by (nonlinear_arith)
                requires
                    i <= 0xFFFF,
                    self.e_phentsize <= 0xFFFF,
            ;
        }
        let step = (i as u64) * (self.e_phentsize as u64);
        if self.e_phoff > u64::MAX - step {
            proof {
                assert(self.e_phoff + step > dlen);
            }
            return None;
        }
        let base64 = self.e_phoff + step;
        if base64 > u64::MAX - 56 {
            proof {
                assert(base64 + 56 > dlen);
            }
            return None;
        }
        if base64 + 56 > dlen as u64 {
            return None;
        }
        let base = base64 as usize;
        let p_type = u32_from_le_bytes(slice_subrange(self.data, base, base + 4));
        let p_flags = u32_from_le_bytes(slice_subrange(self.data, base + 4, base + 8));
        let p_offset = u64_from_le_bytes(slice_subrange(self.data, base + 8, base + 16));
        let p_vaddr = u64_from_le_bytes(slice_subrange(self.data, base + 16, base + 24));
        let p_filesz = u64_from_le_bytes(slice_subrange(self.data, base + 32, base + 40));
        let p_memsz = u64_from_le_bytes(slice_subrange(self.data, base + 40, base + 48));
        Some(ProgramHeader { p_type, p_flags, p_offset, p_vaddr, p_filesz, p_memsz })
    }

    /// The `i`th section header, if its record lies inside the image.
    pub fn section(&self, i: u16) -> (r: Option<SectionHeader>)
        ensures
            self.wf() ==> (r is Some <==> spec_sec_ok(self.data@, i as int)),
            self.wf() && r is Some ==> r->0 == spec_section_at(self.data@, i as int),
            r is Some ==> i < self.e_shnum,
            r matches Some(h) ==> {
                let base = self.e_shoff + i * self.e_shentsize;
                &&& base + 64 <= self.data@.len()
                &&& h.sh_name == spec_u32_from_le_bytes(self.data@.subrange(base as int, base + 4))
                &&& h.sh_offset == spec_u64_from_le_bytes(
                    self.data@.subrange(base + 24, base + 32),
                )
                &&& h.sh_size == spec_u64_from_le_bytes(
                    self.data@.subrange(base + 32, base + 40),
                )
            },
    {
        let dlen = self.data.len();
        if i >= self.e_shnum {
            return None;
        }
        if self.e_shentsize < 64 {
            return None;
        }
        proof {
            assert((i as u64) * (self.e_shentsize as u64) < 0x1_0000_0000u64) by (nonlinear_arith)
                requires
                    i <= 0xFFFF,
                    self.e_shentsize <= 0xFFFF,
            ;
        }
        let step = (i as u64) * (self.e_shentsize as u64);
        if self.e_shoff > u64::MAX - step {
            proof {
                assert(self.e_shoff + step > dlen);
            }
            return None;
        }
        let base64 = self.e_shoff + step;
        if base64 > u64::MAX - 64 {
            proof {
                assert(base64 + 64 > dlen);
            }
            return None;
        }
        if base64 + 64 > dlen as u64 {
            return None;
        }
        let base = base64 as usize;
        let sh_name = u32_from_le_bytes(slice_subrange(self.data, base, base + 4));
        let sh_offset = u64_from_le_bytes(slice_subrange(self.data, base + 24, base + 32));
        let sh_size = u64_from_le_bytes(slice_subrange(self.data, base + 32, base + 40));
        Some(SectionHeader { sh_name, sh_offset, sh_size })
    }

    /// The bytes of section `h`, if they lie inside the image.
    pub fn section_data(&self, h: SectionHeader) -> (r: Option<&'a [u8]>)
        ensures
            r is Some <==> spec_sec_data_ok(self.data@, h),
            r matches Some(s) ==> s@ == spec_sec_data(self.data@, h),
    {
        let dlen = self.data.len();
        if h.sh_size > u64::MAX - h.sh_offset {
            proof {
                assert(h.sh_offset + h.sh_size > dlen);
            }
            return None;
        }
        if h.sh_offset + h.sh_size > dlen as u64 {
            return None;
        }
        Some(slice_subrange(self.data, h.sh_offset as usize, (h.sh_offset + h.sh_size) as usize))
    }

    /// The NUL-terminated name at offset `index` of the section-name string
    /// table.
    pub fn lookup_section_name(&self, strtab: &'a [u8], index: u32) -> (r: Option<&'a [u8]>)
        ensures
            r is Some <==> spec_section_name(strtab@, index as int) is Some,
            r matches Some(s) ==> spec_section_name(strtab@, index as int) == Some(s@),
    {
        let start = index as usize;
        if start >= strtab.len() {
            return None;
        }
        let n = strtab.len();
        let mut end = start;
        while end < n
            invariant
                start <= end <= n,
                start < n,
                n == strtab@.len(),
                start == index as int,
                spec_nul_end(strtab@, start as int) == spec_nul_end(strtab@, end as int),
            decreases n - end,
        {
            if *vstd::slice::slice_index_get(strtab, end) == 0 {
                proof {
                    assert(spec_nul_end(strtab@, end as int) == Some(end as int));
                }
                return Some(slice_subrange(strtab, start, end));
            }
            proof {
                assert(spec_nul_end(strtab@, end as int) == spec_nul_end(
                    strtab@,
                    end as int + 1,
                ));
            }
            end = end + 1;
        }
        proof {
            assert(spec_nul_end(strtab@, end as int) is None);
        }
        None
    }

    /// The bytes of the `.manifest` section, if present.
    pub fn section_data_by_name(&self) -> (r: Option<&'a [u8]>)
        ensures
            self.wf() ==> (r is Some <==> spec_manifest_section(self.data@) is Some),
            self.wf() ==> (r matches Some(s) ==> spec_manifest_section(self.data@) == Some(s@)),
    {
        let strtab = {
            let h = match self.section(self.e_shstrndx) {
                Option::Some(h) => h,
                Option::None => {
                    return None;
                },
            };
            match self.section_data(h) {
                Option::Some(s) => s,
                Option::None => {
                    return None;
                },
            }
        };
        let wanted = {
            let w = ".manifest";
            proof {
                reveal_strlit(".manifest");
            }
            text_bytes(w)
        };
        proof {
            assert(wanted@ =~= manifest_name_bytes());
        }
        let mut i: u16 = 0;
        while i < self.e_shnum
            invariant
                i <= self.e_shnum,
                wanted@ == manifest_name_bytes(),
                self.wf() ==> spec_manifest_section(self.data@) == spec_manifest_scan(
                    self.data@,
                    strtab@,
                    i as int,
                ),
            decreases self.e_shnum - i,
        {
            let h = match self.section(i) {
                Option::Some(h) => h,
                Option::None => {
                    proof {
                        if self.wf() {
                            assert(spec_manifest_scan(self.data@, strtab@, i as int) is None);
                        }
                    }
                    return None;
                },
            };
            if let Option::Some(name) = self.lookup_section_name(strtab, h.sh_name) {
                if bytes_eq(name, wanted.as_slice()) {
                    proof {
                        if self.wf() {
                            assert(spec_manifest_scan(self.data@, strtab@, i as int) == (
                            if spec_sec_data_ok(self.data@, h) {
                                Some(spec_sec_data(self.data@, h))
                            } else {
                                None
                            }));
                        }
                    }
                    return self.section_data(h);
                }
            }
            proof {
                if self.wf() {
                    assert(spec_manifest_scan(self.data@, strtab@, i as int)
                        == spec_manifest_scan(self.data@, strtab@, i as int + 1));
                }
            }
            i = i + 1;
        }
        None
    }
}

// The manifest: a JSON object `{"ModuleName": ..., "SymbolTable": [...]}`.

/// One exported function as the manifest declares it.
pub struct SymbolTableEntry {
    pub name: Vec<u8>,
    pub offset: u64,
    pub visibility: u64,
    pub abi: u64,
}

/// The parsed manifest.
pub struct Manifest {
    pub module_name: Vec<u8>,
    pub symbol_table: Vec<SymbolTableEntry>,
}

// The manifest grammar, stated: each parsing step below has a spec mirror,
// and the executable parser is proved equal to it, so what `parse_manifest`
// accepts and returns is pinned to the input bytes.

/// One symbol-table entry as the grammar yields it.
pub ghost struct SymbolSpec {
    pub name: Seq<u8>,
    pub offset: u64,
    pub visibility: u64,
    pub abi: u64,
}

/// The parsed manifest as the grammar yields it.
pub ghost struct ManifestSpec {
    pub module_name: Seq<u8>,
    pub symbols: Seq<SymbolSpec>,
}

pub open spec fn is_json_ws(b: u8) -> bool {
    b == 0x20 || b == 0x09 || b == 0x0a || b == 0x0d
}

/// First non-whitespace position at or after `i`.
pub open spec fn spec_skip_ws(b: Seq<u8>, i: int) -> int
    decreases b.len() - i,
{
    if i < 0 || i >= b.len() {
        i
    } else if is_json_ws(b[i]) {
        spec_skip_ws(b, i + 1)
    } else {
        i
    }
}

/// The byte a JSON escape pair denotes, if the escape is accepted.
pub open spec fn spec_unescape(e: u8) -> Option<u8> {
    match e {
        0x22 => Some(0x22u8),
        0x5c => Some(0x5cu8),
        0x2f => Some(0x2fu8),
        0x6e => Some(0x0au8),
        0x72 => Some(0x0du8),
        0x74 => Some(0x09u8),
        0x62 => Some(0x08u8),
        0x66 => Some(0x0cu8),
        _ => None,
    }
}

/// A string body from just after the opening quote: the unescaped bytes
/// and the position after the closing quote.
pub open spec fn spec_str_body(b: Seq<u8>, j: int) -> Option<(Seq<u8>, int)>
    decreases b.len() - j,
{
    if j < 0 || j >= b.len() {
        None
    } else if b[j] == 0x22 {
        Some((Seq::empty(), j + 1))
    } else if b[j] == 0x5c {
        if j + 1 >= b.len() {
            None
        } else {
            match spec_unescape(b[j + 1]) {
                Some(u) => match spec_str_body(b, j + 2) {
                    Some(p) => Some((seq![u] + p.0, p.1)),
                    None => None,
                },
                None => None,
            }
        }
    } else if b[j] < 0x20 {
        None
    } else {
        match spec_str_body(b, j + 1) {
            Some(p) => Some((seq![b[j]] + p.0, p.1)),
            None => None,
        }
    }
}

/// A JSON string at `i`.
pub open spec fn spec_json_string(b: Seq<u8>, i: int) -> Option<(Seq<u8>, int)> {
    if 0 <= i < b.len() && b[i] == 0x22 {
        spec_str_body(b, i + 1)
    } else {
        None
    }
}

/// Decimal digits from `j` folded onto `value`; a fold that would overflow
/// is rejected.
pub open spec fn spec_num_body(b: Seq<u8>, j: int, value: u64) -> Option<(u64, int)>
    decreases b.len() - j,
{
    if j < 0 || j >= b.len() {
        Some((value, j))
    } else if 0x30 <= b[j] <= 0x39 {
        if value > (u64::MAX - 9) / 10 {
            None
        } else {
            spec_num_body(b, j + 1, (value * 10 + (b[j] - 0x30)) as u64)
        }
    } else {
        Some((value, j))
    }
}

/// A non-negative decimal number at `i`.
pub open spec fn spec_json_number(b: Seq<u8>, i: int) -> Option<(u64, int)> {
    if 0 <= i < b.len() && 0x30 <= b[i] <= 0x39 {
        spec_num_body(b, i + 1, (b[i] - 0x30) as u64)
    } else {
        None
    }
}

pub open spec fn key_name_bytes() -> Seq<u8> {
    seq![0x4eu8, 0x61u8, 0x6du8, 0x65u8]
}

pub open spec fn key_offset_bytes() -> Seq<u8> {
    seq![0x4fu8, 0x66u8, 0x66u8, 0x73u8, 0x65u8, 0x74u8]
}

pub open spec fn key_visibility_bytes() -> Seq<u8> {
    seq![0x56u8, 0x69u8, 0x73u8, 0x69u8, 0x62u8, 0x69u8, 0x6cu8, 0x69u8, 0x74u8, 0x79u8]
}

pub open spec fn key_abi_bytes() -> Seq<u8> {
    seq![0x41u8, 0x42u8, 0x49u8]
}

pub open spec fn key_module_name_bytes() -> Seq<u8> {
    seq![0x4du8, 0x6fu8, 0x64u8, 0x75u8, 0x6cu8, 0x65u8, 0x4eu8, 0x61u8, 0x6du8, 0x65u8]
}

pub open spec fn key_symbol_table_bytes() -> Seq<u8> {
    seq![0x53u8, 0x79u8, 0x6du8, 0x62u8, 0x6fu8, 0x6cu8, 0x54u8, 0x61u8, 0x62u8, 0x6cu8, 0x65u8]
}

/// Close out a symbol object: `Name` and `Offset` are required, the other
/// two default to zero.
pub open spec fn spec_entry_done(
    name: Option<Seq<u8>>,
    offset: Option<u64>,
    visibility: Option<u64>,
    abi: Option<u64>,
    end: int,
) -> Option<(SymbolSpec, int)> {
    match (name, offset) {
        (Some(n), Some(o)) => Some(
            (
                SymbolSpec {
                    name: n,
                    offset: o,
                    visibility: match visibility {
                        Some(v) => v,
                        None => 0,
                    },
                    abi: match abi {
                        Some(v) => v,
                        None => 0,
                    },
                },
                end,
            ),
        ),
        _ => None,
    }
}

/// The members of one symbol object, from just after `{` or a `,`.
pub open spec fn spec_entry_fields(
    b: Seq<u8>,
    j: int,
    name: Option<Seq<u8>>,
    offset: Option<u64>,
    visibility: Option<u64>,
    abi: Option<u64>,
) -> Option<(SymbolSpec, int)>
    decreases b.len() - j, 1int,
{
    let j0 = spec_skip_ws(b, j);
    match spec_json_string(b, j0) {
        None => None,
        Some(key) => {
            let j1 = spec_skip_ws(b, key.1);
            if !(0 <= j1 < b.len() && b[j1] == 0x3a) {
                None
            } else {
                let j2 = spec_skip_ws(b, j1 + 1);
                if key.0 == key_name_bytes() {
                    match spec_json_string(b, j2) {
                        None => None,
                        Some(v) => spec_entry_sep(b, j, v.1, Some(v.0), offset, visibility, abi),
                    }
                } else {
                    match spec_json_number(b, j2) {
                        None => None,
                        Some(v) => if key.0 == key_offset_bytes() {
                            spec_entry_sep(b, j, v.1, name, Some(v.0), visibility, abi)
                        } else if key.0 == key_visibility_bytes() {
                            spec_entry_sep(b, j, v.1, name, offset, Some(v.0), abi)
                        } else if key.0 == key_abi_bytes() {
                            spec_entry_sep(b, j, v.1, name, offset, visibility, Some(v.0))
                        } else {
                            None
                        },
                    }
                }
            }
        },
    }
}

/// The separator after one symbol member: a `,` continues the object, a
/// `}` closes it.
pub open spec fn spec_entry_sep(
    b: Seq<u8>,
    j: int,
    after: int,
    name: Option<Seq<u8>>,
    offset: Option<u64>,
    visibility: Option<u64>,
    abi: Option<u64>,
) -> Option<(SymbolSpec, int)>
    decreases b.len() - j, 0int,
{
    let j3 = spec_skip_ws(b, after);
    if !(0 <= j3 < b.len()) {
        None
    } else if b[j3] == 0x2c {
        if j3 < j {
            None
        } else {
            spec_entry_fields(b, j3 + 1, name, offset, visibility, abi)
        }
    } else if b[j3] == 0x7d {
        spec_entry_done(name, offset, visibility, abi, j3 + 1)
    } else {
        None
    }
}

/// One symbol object at `i`.
pub open spec fn spec_symbol_entry(b: Seq<u8>, i: int) -> Option<(SymbolSpec, int)> {
    let j = spec_skip_ws(b, i);
    if 0 <= j < b.len() && b[j] == 0x7b {
        spec_entry_fields(b, j + 1, None, None, None, None)
    } else {
        None
    }
}

/// The items of a non-empty symbol array, one object per step.
pub open spec fn spec_sym_items(b: Seq<u8>, j: int, acc: Seq<SymbolSpec>) -> Option<
    (Seq<SymbolSpec>, int),
>
    decreases b.len() - j,
{
    match spec_symbol_entry(b, j) {
        None => None,
        Some(p) => {
            let j2 = spec_skip_ws(b, p.1);
            if !(0 <= j2 < b.len()) {
                None
            } else if b[j2] == 0x2c {
                if j2 < j {
                    None
                } else {
                    spec_sym_items(b, j2 + 1, acc + seq![p.0])
                }
            } else if b[j2] == 0x5d {
                Some((acc + seq![p.0], j2 + 1))
            } else {
                None
            }
        },
    }
}

/// The symbol array from just after `[`.
pub open spec fn spec_sym_array(b: Seq<u8>, j: int) -> Option<(Seq<SymbolSpec>, int)> {
    let j1 = spec_skip_ws(b, j);
    if 0 <= j1 < b.len() && b[j1] == 0x5d {
        Some((Seq::empty(), j1 + 1))
    } else {
        spec_sym_items(b, j1, Seq::empty())
    }
}

/// Close out the manifest object: both members are required.
pub open spec fn spec_manifest_done(
    name: Option<Seq<u8>>,
    table: Option<Seq<SymbolSpec>>,
) -> Option<ManifestSpec> {
    match (name, table) {
        (Some(n), Some(t)) => Some(ManifestSpec { module_name: n, symbols: t }),
        _ => None,
    }
}

/// The members of the manifest object, from just after `{` or a `,`: only
/// `ModuleName` and `SymbolTable` are accepted.
pub open spec fn spec_manifest_fields(
    b: Seq<u8>,
    j: int,
    name: Option<Seq<u8>>,
    table: Option<Seq<SymbolSpec>>,
) -> Option<ManifestSpec>
    decreases b.len() - j, 1int,
{
    let j0 = spec_skip_ws(b, j);
    match spec_json_string(b, j0) {
        None => None,
        Some(key) => {
            let j1 = spec_skip_ws(b, key.1);
            if !(0 <= j1 < b.len() && b[j1] == 0x3a) {
                None
            } else {
                let j2 = spec_skip_ws(b, j1 + 1);
                if key.0 == key_module_name_bytes() {
                    match spec_json_string(b, j2) {
                        None => None,
                        Some(v) => spec_manifest_sep(b, j, v.1, Some(v.0), table),
                    }
                } else if key.0 == key_symbol_table_bytes() {
                    if !(0 <= j2 < b.len() && b[j2] == 0x5b) {
                        None
                    } else {
                        match spec_sym_array(b, j2 + 1) {
                            None => None,
                            Some(v) => spec_manifest_sep(b, j, v.1, name, Some(v.0)),
                        }
                    }
                } else {
                    None
                }
            }
        },
    }
}

/// The separator after one manifest member: a `,` continues the object, a
/// `}` closes it.
pub open spec fn spec_manifest_sep(
    b: Seq<u8>,
    j: int,
    after: int,
    name: Option<Seq<u8>>,
    table: Option<Seq<SymbolSpec>>,
) -> Option<ManifestSpec>
    decreases b.len() - j, 0int,
{
    let j3 = spec_skip_ws(b, after);
    if !(0 <= j3 < b.len()) {
        None
    } else if b[j3] == 0x2c {
        if j3 < j {
            None
        } else {
            spec_manifest_fields(b, j3 + 1, name, table)
        }
    } else if b[j3] == 0x7d {
        spec_manifest_done(name, table)
    } else {
        None
    }
}

/// What the manifest bytes denote, if they parse.
pub open spec fn spec_parse_manifest(b: Seq<u8>) -> Option<ManifestSpec> {
    let j = spec_skip_ws(b, 0);
    if 0 <= j < b.len() && b[j] == 0x7b {
        spec_manifest_fields(b, j + 1, None, None)
    } else {
        None
    }
}

/// A symbol record's grammar-level view.
pub open spec fn sym_view(e: SymbolTableEntry) -> SymbolSpec {
    SymbolSpec { name: e.name@, offset: e.offset, visibility: e.visibility, abi: e.abi }
}

pub open spec fn sym_views(s: Seq<SymbolTableEntry>) -> Seq<SymbolSpec> {
    s.map_values(|e: SymbolTableEntry| sym_view(e))
}

/// A parsed manifest record carries exactly what the grammar yielded.
pub open spec fn manifest_matches(m: Manifest, sm: ManifestSpec) -> bool {
    &&& m.module_name@ == sm.module_name
    &&& m.symbol_table@.len() == sm.symbols.len()
    &&& forall|i: int| 0 <= i < sm.symbols.len() ==> {
        let e = #[trigger] m.symbol_table@[i];
        &&& e.name@ == sm.symbols[i].name
        &&& e.offset == sm.symbols[i].offset
        &&& e.visibility == sm.symbols[i].visibility
        &&& e.abi == sm.symbols[i].abi
    }
}

/// Step the cursor over JSON whitespace.
fn skip_ws(data: &[u8], i: usize) -> (r: usize)
    requires
        i <= data@.len(),
    ensures
        i <= r <= data@.len(),
        r as int == spec_skip_ws(data@, i as int),
{
    let n = data.len();
    let mut j = i;
    while j < n
        invariant
            i <= j <= n,
            n == data@.len(),
            spec_skip_ws(data@, i as int) == spec_skip_ws(data@, j as int),
        decreases n - j,
    {
        let b = *vstd::slice::slice_index_get(data, j);
        if b == 0x20 || b == 0x09 || b == 0x0a || b == 0x0d {
            proof {
                assert(spec_skip_ws(data@, j as int) == spec_skip_ws(data@, j as int + 1));
            }
            j = j + 1;
        } else {
            return j;
        }
    }
    j
}

/// Parse a JSON string at the cursor: the unescaped bytes and the cursor
/// after the closing quote.
fn parse_json_string(data: &[u8], i: usize) -> (r: Option<(Vec<u8>, usize)>)
    requires
        i <= data@.len(),
    ensures
        r matches Some(p) ==> i < p.1 <= data@.len(),
        r is Some <==> spec_json_string(data@, i as int) is Some,
        r matches Some(p) ==> spec_json_string(data@, i as int) == Some((p.0@, p.1 as int)),
{
    let n = data.len();
    if i >= n || *vstd::slice::slice_index_get(data, i) != 0x22 {
        return None;
    }
    let mut out: Vec<u8> = Vec::new();
    let mut j = i + 1;
    proof {
        let sb = spec_str_body(data@, i as int + 1);
        if sb is Some {
            let q = sb->0;
            assert(Seq::<u8>::empty() + q.0 =~= q.0);
        }
    }
    while j < n
        invariant
            i < j <= n,
            n == data@.len(),
            data@[i as int] == 0x22,
            spec_str_body(data@, i as int + 1) == (match spec_str_body(data@, j as int) {
                Some(q) => Some((out@ + q.0, q.1)),
                None => None::<(Seq<u8>, int)>,
            }),
        decreases n - j,
    {
        let b = *vstd::slice::slice_index_get(data, j);
        if b == 0x22 {
            proof {
                assert(spec_str_body(data@, j as int) == Some(
                    (Seq::<u8>::empty(), j as int + 1),
                ));
                assert(out@ + Seq::<u8>::empty() =~= out@);
            }
            return Some((out, j + 1));
        }
        if b == 0x5c {
            if j + 1 >= n {
                return None;
            }
            let e = *vstd::slice::slice_index_get(data, j + 1);
            let unescaped: u8 = match e {
                0x22 => 0x22,
                0x5c => 0x5c,
                0x2f => 0x2f,
                0x6e => 0x0a,
                0x72 => 0x0d,
                0x74 => 0x09,
                0x62 => 0x08,
                0x66 => 0x0c,
                _ => {
                    return None;
                },
            };
            proof {
                let tail = spec_str_body(data@, j as int + 2);
                if tail is Some {
                    let q = tail->0;
                    assert(out@ + (seq![unescaped] + q.0) =~= out@.push(unescaped) + q.0);
                }
            }
            out.push(unescaped);
            j = j + 2;
        } else if b < 0x20 {
            return None;
        } else {
            proof {
                let tail = spec_str_body(data@, j as int + 1);
                if tail is Some {
                    let q = tail->0;
                    assert(out@ + (seq![b] + q.0) =~= out@.push(b) + q.0);
                }
            }
            out.push(b);
            j = j + 1;
        }
    }
    None
}

/// Parse a non-negative decimal number at the cursor.
fn parse_json_number(data: &[u8], i: usize) -> (r: Option<(u64, usize)>)
    requires
        i <= data@.len(),
    ensures
        r matches Some(p) ==> i < p.1 <= data@.len(),
        r is Some <==> spec_json_number(data@, i as int) is Some,
        r matches Some(p) ==> spec_json_number(data@, i as int) == Some((p.0, p.1 as int)),
{
    let n = data.len();
    if i >= n {
        return None;
    }
    let first = *vstd::slice::slice_index_get(data, i);
    if !(0x30 <= first && first <= 0x39) {
        return None;
    }
    let mut value: u64 = (first - 0x30) as u64;
    let mut j = i + 1;
    while j < n
        invariant
            i < j <= n,
            n == data@.len(),
            spec_json_number(data@, i as int) == spec_num_body(data@, j as int, value),
        decreases n - j,
    {
        let b = *vstd::slice::slice_index_get(data, j);
        if 0x30 <= b && b <= 0x39 {
            if value > (u64::MAX - 9) / 10 {
                return None;
            }
            value = value * 10 + (b - 0x30) as u64;
            j = j + 1;
        } else {
            return Some((value, j));
        }
    }
    Some((value, j))
}

/// Parse one symbol-table object: its Name, Offset, Visibility and ABI
/// members, in any order.
fn parse_symbol_entry(data: &[u8], i: usize) -> (r: Option<(SymbolTableEntry, usize)>)
    requires
        i <= data@.len(),
    ensures
        r matches Some(p) ==> i < p.1 <= data@.len(),
        r is Some <==> spec_symbol_entry(data@, i as int) is Some,
        r matches Some(p) ==> spec_symbol_entry(data@, i as int) matches Some(q) && p.0.name@
            == q.0.name && p.0.offset == q.0.offset && p.0.visibility == q.0.visibility
            && p.0.abi == q.0.abi && p.1 as int == q.1,
{
    let n = data.len();
    let mut j = skip_ws(data, i);
    if j >= n || *vstd::slice::slice_index_get(data, j) != 0x7b {
        return None;
    }
    j = j + 1;
    let mut name: Option<Vec<u8>> = None;
    let mut offset: Option<u64> = None;
    let mut visibility: Option<u64> = None;
    let mut abi: Option<u64> = None;
    loop
        invariant_except_break
            i < j <= n,
            n == data@.len(),
            spec_symbol_entry(data@, i as int) == spec_entry_fields(
                data@,
                j as int,
                match name {
                    Some(v) => Some(v@),
                    None => None,
                },
                offset,
                visibility,
                abi,
            ),
        ensures
            i < j <= n,
            n == data@.len(),
            spec_symbol_entry(data@, i as int) == spec_entry_done(
                match name {
                    Some(v) => Some(v@),
                    None => None,
                },
                offset,
                visibility,
                abi,
                j as int,
            ),
        decreases n - j,
    {
        let ghost jtop = j as int;
        let ghost name0: Option<Seq<u8>> = if name is Some {
            Some(name->0@)
        } else {
            None
        };
        let ghost offset0 = offset;
        let ghost visibility0 = visibility;
        let ghost abi0 = abi;
        j = skip_ws(data, j);
        let (key, after_key) = match parse_json_string(data, j) {
            Option::Some(p) => p,
            Option::None => {
                return None;
            },
        };
        j = skip_ws(data, after_key);
        if j >= n || *vstd::slice::slice_index_get(data, j) != 0x3a {
            return None;
        }
        j = j + 1;
        j = skip_ws(data, j);
        let key_name = {
            let w = "Name";
            proof {
                reveal_strlit("Name");
            }
            text_bytes(w)
        };
        proof {
            assert(key_name@ =~= key_name_bytes());
        }
        if bytes_eq(key.as_slice(), key_name.as_slice()) {
            let (v, after) = match parse_json_string(data, j) {
                Option::Some(p) => p,
                Option::None => {
                    return None;
                },
            };
            name = Some(v);
            j = after;
        } else {
            let (v, after) = match parse_json_number(data, j) {
                Option::Some(p) => p,
                Option::None => {
                    return None;
                },
            };
            let key_offset = {
                let w = "Offset";
                proof {
                    reveal_strlit("Offset");
                }
                text_bytes(w)
            };
            let key_vis = {
                let w = "Visibility";
                proof {
                    reveal_strlit("Visibility");
                }
                text_bytes(w)
            };
            let key_abi = {
                let w = "ABI";
                proof {
                    reveal_strlit("ABI");
                }
                text_bytes(w)
            };
            proof {
                assert(key_offset@ =~= key_offset_bytes());
                assert(key_vis@ =~= key_visibility_bytes());
                assert(key_abi@ =~= key_abi_bytes());
            }
            if bytes_eq(key.as_slice(), key_offset.as_slice()) {
                offset = Some(v);
            } else if bytes_eq(key.as_slice(), key_vis.as_slice()) {
                visibility = Some(v);
            } else if bytes_eq(key.as_slice(), key_abi.as_slice()) {
                abi = Some(v);
            } else {
                return None;
            }
            j = after;
        }
        let ghost aft = j as int;
        proof {
            assert(spec_entry_fields(data@, jtop, name0, offset0, visibility0, abi0)
                == spec_entry_sep(
                data@,
                jtop,
                aft,
                match name {
                    Some(v) => Some(v@),
                    None => None,
                },
                offset,
                visibility,
                abi,
            ));
        }
        j = skip_ws(data, j);
        if j >= n {
            return None;
        }
        let b = *vstd::slice::slice_index_get(data, j);
        if b == 0x2c {
            proof {
                assert(j as int >= jtop);
            }
            j = j + 1;
        } else if b == 0x7d {
            j = j + 1;
            break;
        } else {
            return None;
        }
    }
    match (name, offset) {
        (Option::Some(name), Option::Some(offset)) => Some(
            (
                SymbolTableEntry {
                    name,
                    offset,
                    visibility: match visibility {
                        Option::Some(v) => v,
                        Option::None => 0,
                    },
                    abi: match abi {
                        Option::Some(v) => v,
                        Option::None => 0,
                    },
                },
                j,
            ),
        ),
        _ => None,
    }
}

/// Parse the `.manifest` JSON: the module name and its symbol table.  Any
/// malformed byte fails the whole manifest; the parse always terminates and
/// never panics.  The grammar is strict - one object with exactly the
/// `ModuleName` and `SymbolTable` members, entries with `Name`, `Offset`
/// and optional `Visibility` and `ABI` - and the result is exactly what the
/// grammar yields of the bytes.
pub fn parse_manifest(data: &[u8]) -> (r: Result<Manifest, KError>)
    ensures
        r is Ok <==> spec_parse_manifest(data@) is Some,
        r matches Ok(m) ==> spec_parse_manifest(data@) matches Some(sm) && manifest_matches(
            m,
            sm,
        ),
{
    let n = data.len();
    let mut j = skip_ws(data, 0);
    if j >= n || *vstd::slice::slice_index_get(data, j) != 0x7b {
        return Err(KError::Protocol);
    }
    j = j + 1;
    let mut module_name: Option<Vec<u8>> = None;
    let mut symbol_table: Option<Vec<SymbolTableEntry>> = None;
    loop
        invariant_except_break
            j <= n,
            n == data@.len(),
            spec_parse_manifest(data@) == spec_manifest_fields(
                data@,
                j as int,
                match module_name {
                    Some(v) => Some(v@),
                    None => None,
                },
                match symbol_table {
                    Some(t) => Some(sym_views(t@)),
                    None => None,
                },
            ),
        ensures
            j <= n,
            n == data@.len(),
            spec_parse_manifest(data@) == spec_manifest_done(
                match module_name {
                    Some(v) => Some(v@),
                    None => None,
                },
                match symbol_table {
                    Some(t) => Some(sym_views(t@)),
                    None => None,
                },
            ),
        decreases n - j,
    {
        let ghost jtop = j as int;
        let ghost name0: Option<Seq<u8>> = if module_name is Some {
            Some(module_name->0@)
        } else {
            None
        };
        let ghost table0: Option<Seq<SymbolSpec>> = if symbol_table is Some {
            Some(sym_views(symbol_table->0@))
        } else {
            None
        };
        j = skip_ws(data, j);
        let (key, after_key) = match parse_json_string(data, j) {
            Option::Some(p) => p,
            Option::None => {
                return Err(KError::Protocol);
            },
        };
        j = skip_ws(data, after_key);
        if j >= n || *vstd::slice::slice_index_get(data, j) != 0x3a {
            return Err(KError::Protocol);
        }
        j = j + 1;
        j = skip_ws(data, j);
        let key_mn = {
            let w = "ModuleName";
            proof {
                reveal_strlit("ModuleName");
            }
            text_bytes(w)
        };
        let key_st = {
            let w = "SymbolTable";
            proof {
                reveal_strlit("SymbolTable");
            }
            text_bytes(w)
        };
        proof {
            assert(key_mn@ =~= key_module_name_bytes());
            assert(key_st@ =~= key_symbol_table_bytes());
        }
        if bytes_eq(key.as_slice(), key_mn.as_slice()) {
            let (v, after) = match parse_json_string(data, j) {
                Option::Some(p) => p,
                Option::None => {
                    return Err(KError::Protocol);
                },
            };
            module_name = Some(v);
            j = after;
        } else if bytes_eq(key.as_slice(), key_st.as_slice()) {
            if j >= n || *vstd::slice::slice_index_get(data, j) != 0x5b {
                return Err(KError::Protocol);
            }
            j = j + 1;
            let ghost jb = j as int;
            let mut entries: Vec<SymbolTableEntry> = Vec::new();
            j = skip_ws(data, j);
            if j < n && *vstd::slice::slice_index_get(data, j) == 0x5d {
                j = j + 1;
                proof {
                    assert(spec_sym_array(data@, jb) == Some(
                        (Seq::<SymbolSpec>::empty(), j as int),
                    ));
                    assert(sym_views(entries@) =~= Seq::<SymbolSpec>::empty());
                }
            } else {
                proof {
                    assert(sym_views(entries@) =~= Seq::<SymbolSpec>::empty());
                }
                loop
                    invariant_except_break
                        jb <= j <= n,
                        n == data@.len(),
                        spec_sym_array(data@, jb) == spec_sym_items(
                            data@,
                            j as int,
                            sym_views(entries@),
                        ),
                        spec_parse_manifest(data@) == (match spec_sym_array(data@, jb) {
                            Some(v) => spec_manifest_sep(data@, jtop, v.1, name0, Some(v.0)),
                            None => None::<ManifestSpec>,
                        }),
                    ensures
                        jb <= j <= n,
                        n == data@.len(),
                        spec_sym_array(data@, jb) == Some((sym_views(entries@), j as int)),
                        spec_parse_manifest(data@) == (match spec_sym_array(data@, jb) {
                            Some(v) => spec_manifest_sep(data@, jtop, v.1, name0, Some(v.0)),
                            None => None::<ManifestSpec>,
                        }),
                    decreases n - j,
                {
                    let ghost jin = j as int;
                    let ghost acc0 = sym_views(entries@);
                    let (entry, after) = match parse_symbol_entry(data, j) {
                        Option::Some(p) => p,
                        Option::None => {
                            return Err(KError::Protocol);
                        },
                    };
                    proof {
                        assert(acc0 + seq![sym_view(entry)] =~= sym_views(entries@.push(
                            entry,
                        ))) by {
                            assert forall|a: int| 0 <= a < entries@.len() + 1 implies (acc0
                                + seq![sym_view(entry)])[a] == sym_views(entries@.push(
                                entry,
                            ))[a] by {
                                if a < entries@.len() {
                                    assert(entries@.push(entry)[a] == entries@[a]);
                                } else {
                                    assert(entries@.push(entry)[a] == entry);
                                }
                            }
                        }
                    }
                    entries.push(entry);
                    j = skip_ws(data, after);
                    if j >= n {
                        return Err(KError::Protocol);
                    }
                    let b = *vstd::slice::slice_index_get(data, j);
                    if b == 0x2c {
                        proof {
                            assert(j as int >= jin);
                        }
                        j = j + 1;
                    } else if b == 0x5d {
                        j = j + 1;
                        break;
                    } else {
                        return Err(KError::Protocol);
                    }
                }
            }
            symbol_table = Some(entries);
        } else {
            return Err(KError::Protocol);
        }
        let ghost aft = j as int;
        proof {
            assert(spec_manifest_fields(data@, jtop, name0, table0) == spec_manifest_sep(
                data@,
                jtop,
                aft,
                match module_name {
                    Some(v) => Some(v@),
                    None => None,
                },
                match symbol_table {
                    Some(t) => Some(sym_views(t@)),
                    None => None,
                },
            ));
        }
        j = skip_ws(data, j);
        if j >= n {
            return Err(KError::Protocol);
        }
        let b = *vstd::slice::slice_index_get(data, j);
        if b == 0x2c {
            proof {
                assert(j as int >= jtop);
            }
            j = j + 1;
        } else if b == 0x7d {
            break;
        } else {
            return Err(KError::Protocol);
        }
    }
    match (module_name, symbol_table) {
        (Option::Some(module_name), Option::Some(symbol_table)) => {
            proof {
                assert forall|a: int| 0 <= a < symbol_table@.len() implies sym_views(
                    symbol_table@,
                )[a] == sym_view(symbol_table@[a]) by {}
            }
            Ok(Manifest { module_name, symbol_table })
        },
        _ => Err(KError::Protocol),
    }
}

// Modules and the cache.

/// The page-entry bits a loadable segment's permissions ask for, W^X
/// enforced: an executable segment is never writable, even if it asks.
pub open spec fn wx_flags(p_flags: u32) -> u64 {
    let base = FLAG_NO_EXECUTE | FLAG_USER_ACCESSIBLE;
    let with_r = if p_flags & PF_R == PF_R {
        base | FLAG_PRESENT
    } else {
        base
    };
    if p_flags & PF_X == PF_X {
        with_r & !FLAG_NO_EXECUTE
    } else if p_flags & PF_W == PF_W {
        with_r | FLAG_WRITABLE
    } else {
        with_r
    }
}

/// What every staged image region satisfies: shared immutable frames,
/// user-accessible, and never both writable and executable.
pub open spec fn staged_region_ok(m: ContextMemory) -> bool {
    &&& m.is_shared()
    &&& m.wf()
    &&& !m.is_kernel_mapped()
    &&& m.spec_flags().bits & FLAG_USER_ACCESSIBLE == FLAG_USER_ACCESSIBLE
    &&& (m.spec_flags().bits & FLAG_NO_EXECUTE == 0 ==> m.spec_flags().bits & FLAG_WRITABLE
        == 0)
}

/// The W^X derivation really is exclusive: a segment whose flags clear the
/// no-execute bit never carries the writable bit, and every segment is
/// user-accessible.
pub proof fn lemma_wx_exclusive(p_flags: u32)
    ensures
        wx_flags(p_flags) & FLAG_USER_ACCESSIBLE == FLAG_USER_ACCESSIBLE,
        wx_flags(p_flags) & FLAG_NO_EXECUTE == 0 ==> wx_flags(p_flags) & FLAG_WRITABLE == 0,
{
    let base = FLAG_NO_EXECUTE | FLAG_USER_ACCESSIBLE;
    let with_r = if p_flags & PF_R == PF_R {
        base | FLAG_PRESENT
    } else {
        base
    };
    assert(0x8000_0000_0000_0000u64 | 0x4u64 == 0x8000_0000_0000_0004u64) by (bit_vector);
    assert(0x8000_0000_0000_0004u64 | 0x1u64 == 0x8000_0000_0000_0005u64) by (bit_vector);
    assert(with_r == 0x8000_0000_0000_0004u64 || with_r == 0x8000_0000_0000_0005u64);
    assert((0x8000_0000_0000_0004u64 & !0x8000_0000_0000_0000u64) & 2 == 0) by (bit_vector);
    assert((0x8000_0000_0000_0005u64 & !0x8000_0000_0000_0000u64) & 2 == 0) by (bit_vector);
    assert((0x8000_0000_0000_0004u64 | 2) & 0x8000_0000_0000_0000u64 != 0) by (bit_vector);
    assert((0x8000_0000_0000_0005u64 | 2) & 0x8000_0000_0000_0000u64 != 0) by (bit_vector);
    assert(0x8000_0000_0000_0004u64 & 0x8000_0000_0000_0000u64 != 0) by (bit_vector);
    assert(0x8000_0000_0000_0005u64 & 0x8000_0000_0000_0000u64 != 0) by (bit_vector);
    assert(forall|x: u64| #![auto] x & 4 == 4 ==> (x | 2) & 4 == 4 && (x
        & !0x8000_0000_0000_0000u64) & 4 == 4) by (bit_vector);
    assert(0x8000_0000_0000_0004u64 & 4 == 4) by (bit_vector);
    assert(0x8000_0000_0000_0005u64 & 4 == 4) by (bit_vector);
}

/// First match in a function table.
pub open spec fn table_lookup(t: Seq<(Vec<u8>, u64)>, n: Seq<u8>) -> Option<u64>
    decreases t.len(),
{
    if t.len() == 0 {
        None
    } else if t[0].0@ == n {
        Some(t[0].1)
    } else {
        table_lookup(t.skip(1), n)
    }
}

/// A NUL-free prefix of misses shifts the lookup.
proof fn lemma_table_lookup_step(t: Seq<(Vec<u8>, u64)>, n: Seq<u8>, i: int)
    requires
        0 <= i <= t.len(),
        forall|j: int| 0 <= j < i ==> (#[trigger] t[j]).0@ != n,
    ensures
        table_lookup(t, n) == table_lookup(t.skip(i), n),
    decreases i,
{
    if i == 0 {
        assert(t.skip(0) =~= t);
    } else {
        lemma_table_lookup_step(t, n, i - 1);
        assert(t.skip(i - 1).len() > 0);
        assert(t.skip(i - 1)[0] == t[i - 1]);
        assert(t.skip(i - 1).skip(1) =~= t.skip(i));
    }
}

/// The first occurrence of a name in the table is what the lookup returns.
pub proof fn lemma_first_occurrence_lookup(t: Seq<(Vec<u8>, u64)>, i: int)
    requires
        0 <= i < t.len(),
        forall|j: int| 0 <= j < i ==> (#[trigger] t[j]).0@ != t[i].0@,
    ensures
        table_lookup(t, t[i].0@) == Some(t[i].1),
{
    lemma_table_lookup_step(t, t[i].0@, i);
    assert(t.skip(i)[0] == t[i]);
}

/// An immutable loaded module: its name, its exported functions with their
/// entry offsets, and its staged image regions.
pub struct Module {
    pub name: Vec<u8>,
    pub func_table: Vec<(Vec<u8>, u64)>,
    pub image: Vec<ContextMemory>,
}

impl Module {
    /// The module's name.
    pub fn name(&self) -> (r: &Vec<u8>)
        ensures
            r@ == self.name@,
    {
        &self.name
    }

    /// Entry offset of the exported function `name`, if any: the first
    /// declaration of that name wins.
    pub fn function(&self, name: &[u8]) -> (r: Option<u64>)
        ensures
            r == table_lookup(self.func_table@, name@),
    {
        let n = self.func_table.len();
        let mut i: usize = 0;
        while i < n
            invariant
                i <= n,
                n == self.func_table@.len(),
                forall|j: int| 0 <= j < i ==> (#[trigger] self.func_table@[j]).0@ != name@,
            decreases n - i,
        {
            let entry = vstd::std_specs::vec::vec_index(&self.func_table, i);
            if bytes_eq(entry.0.as_slice(), name) {
                proof {
                    lemma_table_lookup_step(self.func_table@, name@, i as int);
                    assert(self.func_table@.skip(i as int)[0] == self.func_table@[i as int]);
                }
                return Some(entry.1);
            }
            i = i + 1;
        }
        proof {
            lemma_table_lookup_step(self.func_table@, name@, n as int);
        }
        None
    }
}

/// Build a module record from a parsed manifest and a staged image: the
/// function table carries the manifest's declarations in order.
pub fn module_from_manifest(manifest: &Manifest, image: Vec<ContextMemory>) -> (m: Module)
    ensures
        m.image == image,
        m.name@ == manifest.module_name@,
        m.func_table@.len() == manifest.symbol_table@.len(),
        forall|i: int| 0 <= i < m.func_table@.len() ==> (#[trigger] m.func_table@[i]).0@
            == manifest.symbol_table@[i].name@ && m.func_table@[i].1
            == manifest.symbol_table@[i].offset,
{
    let mut func_table: Vec<(Vec<u8>, u64)> = Vec::new();
    let n = manifest.symbol_table.len();
    let mut i: usize = 0;
    while i < n
        invariant
            i <= n,
            n == manifest.symbol_table@.len(),
            func_table@.len() == i,
            forall|j: int| 0 <= j < i ==> (#[trigger] func_table@[j]).0@
                == manifest.symbol_table@[j].name@ && func_table@[j].1
                == manifest.symbol_table@[j].offset,
        decreases n - i,
    {
        let entry = vstd::std_specs::vec::vec_index(&manifest.symbol_table, i);
        func_table.push((slice_to_vec(entry.name.as_slice()), entry.offset));
        i = i + 1;
    }
    Module { name: slice_to_vec(manifest.module_name.as_slice()), func_table, image }
}

/// A segment's geometry lets it be staged: its page count is computable
/// and fits, its file span lies inside the image.
pub open spec fn header_stageable(segment: ProgramHeader, dlen: int) -> bool {
    let voff = segment.p_vaddr as int % 4096;
    let size = segment.p_memsz + voff;
    &&& size + 4095 <= u64::MAX
    &&& (size + 4095) / 4096 <= usize::MAX as int / PAGE_SIZE as int
    &&& segment.p_filesz <= segment.p_memsz
    &&& segment.p_offset + segment.p_filesz <= dlen
}

/// A region stages a segment of `data`: a shared, immutable region of
/// `ceil((memsz + voff) / 4096)` pages at the segment's page-aligned
/// address, carrying the W^X-derived flags, its head padding zeroed, the
/// file's bytes copied in at `voff`, and the tail zeroed.
pub open spec fn staged_from(m: ContextMemory, data: Seq<u8>, segment: ProgramHeader) -> bool {
    let voff = segment.p_vaddr as int % 4096;
    let size = segment.p_memsz + voff;
    &&& m.wf()
    &&& m.is_shared()
    &&& !m.is_kernel_mapped()
    &&& m.spec_context_address() == segment.p_vaddr - segment.p_vaddr as int % 4096
    &&& m.spec_page_count() == (size + 4095) / 4096
    &&& m.spec_flags().bits == wx_flags(segment.p_flags)
    &&& forall|b: int| 0 <= b < voff ==> m.bytes()[b] == 0
    &&& forall|b: int| 0 <= b < segment.p_filesz ==> #[trigger] m.bytes()[voff + b]
        == data[segment.p_offset + b]
    &&& forall|b: int| voff + segment.p_filesz <= b < m.bytes().len() ==> m.bytes()[b] == 0
    &&& staged_region_ok(m)
}

/// The loader stages the `i`th segment: a loadable record inside the
/// image, not the empty page-aligned degenerate.
pub open spec fn seg_staged(b: Seq<u8>, i: int) -> bool {
    &&& spec_seg_ok(b, i)
    &&& spec_segment_at(b, i).p_type == PT_LOAD
    &&& !(spec_segment_at(b, i).p_vaddr % 4096 == 0 && spec_segment_at(b, i).p_memsz == 0)
}

/// The placement rule on the `i`th segment: a loadable segment's page base
/// sits below the argument region.
pub open spec fn seg_load_placed(b: Seq<u8>, i: int) -> bool {
    (spec_seg_ok(b, i) && spec_segment_at(b, i).p_type == PT_LOAD)
        ==> spec_segment_at(b, i).p_vaddr - spec_segment_at(b, i).p_vaddr % 4096
        < USER_ARG_OFFSET
}

/// The geometry rule on the `i`th segment: a staged segment must be
/// stageable.
pub open spec fn seg_load_stageable(b: Seq<u8>, i: int) -> bool {
    seg_staged(b, i) ==> header_stageable(spec_segment_at(b, i), b.len() as int)
}

/// The loadable segments the loader stages, in table order.
pub open spec fn staged_headers(b: Seq<u8>, i: int) -> Seq<ProgramHeader>
    decreases elf_phnum(b) - i,
{
    if i < 0 || i >= elf_phnum(b) {
        Seq::empty()
    } else if seg_staged(b, i) {
        seq![spec_segment_at(b, i)] + staged_headers(b, i + 1)
    } else {
        staged_headers(b, i + 1)
    }
}

/// When loading an image succeeds: the ELF header parses, every loadable
/// segment sits below the argument region, the `.manifest` section is
/// present and its JSON parses, and every staged segment is stageable.
pub open spec fn load_ok(b: Seq<u8>) -> bool {
    &&& spec_elf_ok(b)
    &&& forall|i: int| 0 <= i < elf_phnum(b) ==> #[trigger] seg_load_placed(b, i)
    &&& spec_manifest_section(b) is Some
    &&& spec_parse_manifest(spec_manifest_section(b)->0) is Some
    &&& forall|i: int| 0 <= i < elf_phnum(b) ==> #[trigger] seg_load_stageable(b, i)
}

/// Stage one loadable segment: succeeds exactly when the segment is
/// stageable, and the staged region is pinned byte for byte.
#[verifier::rlimit(100)]
#[verifier::spinoff_prover]
pub fn stage_segment(data: &[u8], segment: ProgramHeader) -> (r: Result<ContextMemory, KError>)
    requires
        segment.p_vaddr % 4096 + segment.p_memsz > 0,
    ensures
        r is Ok <==> header_stageable(segment, data@.len() as int),
        r matches Ok(m) ==> staged_from(m, data@, segment),
{
    let dlen = data.len();
    let voff = segment.p_vaddr % 4096;
    let vaddr = segment.p_vaddr - voff;
    if segment.p_memsz > u64::MAX - voff {
        return Err(KError::Protocol);
    }
    let size = segment.p_memsz + voff;
    if size > u64::MAX - 4095 {
        return Err(KError::Protocol);
    }
    let num_pages64 = (size + 4095) / 4096;
    if num_pages64 > (usize::MAX / PAGE_SIZE) as u64 {
        return Err(KError::AllocationFailure);
    }
    let num_pages = num_pages64 as usize;
    if segment.p_filesz > segment.p_memsz {
        return Err(KError::Protocol);
    }
    if segment.p_offset > u64::MAX - segment.p_filesz {
        return Err(KError::Protocol);
    }
    if segment.p_offset + segment.p_filesz > dlen as u64 {
        return Err(KError::Protocol);
    }
    let mut flags = EntryFlags::new(FLAG_NO_EXECUTE | FLAG_USER_ACCESSIBLE);
    if segment.p_flags & PF_R == PF_R {
        flags.insert(EntryFlags::new(FLAG_PRESENT));
    }
    // W^X: an executable segment is never writable, even if it asks.
    if segment.p_flags & PF_X == PF_X {
        flags.remove(EntryFlags::new(FLAG_NO_EXECUTE));
    } else if segment.p_flags & PF_W == PF_W {
        flags.insert(EntryFlags::new(FLAG_WRITABLE));
    }
    proof {
        assert(flags.bits == wx_flags(segment.p_flags));
        lemma_wx_exclusive(segment.p_flags);
    }
    let mut section = match ContextMemory::new(num_pages, vaddr, flags) {
        Option::Some(s) => s,
        Option::None => {
            return Err(KError::AllocationFailure);
        },
    };
    let _ = section.map_to_kernel(EntryFlags::new(FLAG_WRITABLE | FLAG_NO_EXECUTE));
    section.zero();
    let file_bytes = slice_subrange(
        data,
        segment.p_offset as usize,
        (segment.p_offset + segment.p_filesz) as usize,
    );
    proof {
        assert(num_pages == num_pages64);
        assert(num_pages64 == (size + 4095) as int / 4096);
        assert(num_pages * PAGE_SIZE >= size) by (nonlinear_arith)
            requires
                num_pages == (size + 4095) as int / 4096,
                size >= 0,
                PAGE_SIZE == 4096,
        ;
        assert(section.bytes().len() == num_pages * PAGE_SIZE);
        assert(file_bytes@.len() == segment.p_filesz);
        assert(voff + segment.p_filesz <= size);
    }
    section.write_bytes(voff as usize, file_bytes);
    section.drop_kernel_mapping();
    // The image is immutable from here on and will be shared with every
    // context spawned from the module.
    section.share();
    Ok(section)
}

/// Load a module from an ELF image.  It succeeds exactly when `load_ok`
/// holds of the bytes; the returned manifest is what the manifest grammar
/// yields of the `.manifest` section, the module's function table carries
/// exactly those declarations, and the image holds one region per staged
/// segment, pinned by `staged_from`.
pub fn load(data: &[u8]) -> (r: Result<(Module, Manifest), KError>)
    ensures
        r is Ok <==> load_ok(data@),
        r matches Ok(p) ==> {
            &&& spec_parse_manifest(spec_manifest_section(data@)->0) matches Some(sm)
                && manifest_matches(p.1, sm)
            &&& p.0.name@ == p.1.module_name@
            &&& p.0.func_table@.len() == p.1.symbol_table@.len()
            &&& forall|i: int| 0 <= i < p.0.func_table@.len() ==> (
            #[trigger] p.0.func_table@[i]).0@ == p.1.symbol_table@[i].name@
                && p.0.func_table@[i].1 == p.1.symbol_table@[i].offset
            &&& p.0.image@.len() == staged_headers(data@, 0).len()
            &&& forall|x: int| 0 <= x < p.0.image@.len() ==> staged_from(
                #[trigger] p.0.image@[x],
                data@,
                staged_headers(data@, 0)[x],
            )
            &&& forall|j: int| 0 <= j < p.0.image@.len() ==> staged_region_ok(
                #[trigger] p.0.image@[j],
            )
        },
{
    let elf = match Elf::from(data) {
        Result::Ok(e) => e,
        Result::Err(e) => {
            return Err(e);
        },
    };
    // Validate every loadable segment's placement first.
    let mut i: u16 = 0;
    while i < elf.e_phnum
        invariant
            elf.wf(),
            elf.data@ == data@,
            i <= elf.e_phnum,
            forall|x: int| 0 <= x < i ==> #[trigger] seg_load_placed(data@, x),
        decreases elf.e_phnum - i,
    {
        if let Option::Some(segment) = elf.segment(i) {
            if segment.p_type == PT_LOAD {
                let voff = segment.p_vaddr % 4096;
                let vaddr = segment.p_vaddr - voff;
                if vaddr >= USER_ARG_OFFSET {
                    proof {
                        assert(!seg_load_placed(data@, i as int));
                    }
                    return Err(KError::Protocol);
                }
            }
        }
        proof {
            assert(seg_load_placed(data@, i as int));
        }
        i = i + 1;
    }
    let manifest_bytes = match elf.section_data_by_name() {
        Option::Some(b) => b,
        Option::None => {
            return Err(KError::Protocol);
        },
    };
    let manifest = match parse_manifest(manifest_bytes) {
        Result::Ok(m) => m,
        Result::Err(e) => {
            return Err(e);
        },
    };
    // Stage the loadable segments.
    let mut image: Vec<ContextMemory> = Vec::new();
    let ghost mut done: Seq<ProgramHeader> = Seq::empty();
    proof {
        assert(Seq::<ProgramHeader>::empty() + staged_headers(data@, 0) =~= staged_headers(
            data@,
            0,
        ));
    }
    let mut i: u16 = 0;
    while i < elf.e_phnum
        invariant
            elf.wf(),
            elf.data@ == data@,
            i <= elf.e_phnum,
            image@.len() == done.len(),
            staged_headers(data@, 0) == done + staged_headers(data@, i as int),
            forall|x: int| 0 <= x < done.len() ==> staged_from(
                #[trigger] image@[x],
                data@,
                done[x],
            ),
            forall|x: int| 0 <= x < i ==> #[trigger] seg_load_stageable(data@, x),
            forall|j: int| 0 <= j < image@.len() ==> staged_region_ok(#[trigger] image@[j]),
        decreases elf.e_phnum - i,
    {
        let segment = match elf.segment(i) {
            Option::Some(s) => s,
            Option::None => {
                proof {
                    assert(staged_headers(data@, i as int) == staged_headers(
                        data@,
                        i as int + 1,
                    ));
                    assert(seg_load_stageable(data@, i as int));
                }
                i = i + 1;
                continue;
            },
        };
        if segment.p_type != PT_LOAD {
            proof {
                assert(staged_headers(data@, i as int) == staged_headers(data@, i as int + 1));
                assert(seg_load_stageable(data@, i as int));
            }
            i = i + 1;
            continue;
        }
        if segment.p_vaddr % 4096 == 0 && segment.p_memsz == 0 {
            proof {
                assert(staged_headers(data@, i as int) == staged_headers(data@, i as int + 1));
                assert(seg_load_stageable(data@, i as int));
            }
            i = i + 1;
            continue;
        }
        let section = match stage_segment(data, segment) {
            Result::Ok(s) => s,
            Result::Err(e) => {
                proof {
                    assert(seg_staged(data@, i as int));
                    assert(!seg_load_stageable(data@, i as int));
                }
                return Err(e);
            },
        };
        proof {
            assert(seg_staged(data@, i as int));
            assert(staged_headers(data@, i as int) == seq![spec_segment_at(data@, i as int)]
                + staged_headers(data@, i as int + 1));
            assert(done + (seq![segment] + staged_headers(data@, i as int + 1)) =~= done.push(
                segment,
            ) + staged_headers(data@, i as int + 1));
        }
        image.push(section);
        proof {
            done = done.push(segment);
        }
        i = i + 1;
    }
    proof {
        assert(staged_headers(data@, elf.e_phnum as int) =~= Seq::<ProgramHeader>::empty());
        assert(done + Seq::<ProgramHeader>::empty() =~= done);
    }
    let module = module_from_manifest(&manifest, image);
    Ok((module, manifest))
}

/// First cached module of this name.
pub open spec fn cache_lookup(t: Seq<Module>, name: Seq<u8>) -> Option<int>
    decreases t.len(),
{
    if t.len() == 0 {
        None
    } else if t[0].name@ == name {
        Some(0)
    } else {
        match cache_lookup(t.skip(1), name) {
            Some(i) => Some(i + 1),
            None => None,
        }
    }
}

proof fn lemma_cache_lookup_step(t: Seq<Module>, name: Seq<u8>, i: int)
    requires
        0 <= i <= t.len(),
        forall|j: int| 0 <= j < i ==> (#[trigger] t[j]).name@ != name,
    ensures
        cache_lookup(t, name) == match cache_lookup(t.skip(i), name) {
            Some(w) => Some(w + i),
            None => None::<int>,
        },
    decreases i,
{
    if i == 0 {
        assert(t.skip(0) =~= t);
    } else {
        lemma_cache_lookup_step(t, name, i - 1);
        assert(t.skip(i - 1).len() > 0);
        assert(t.skip(i - 1)[0] == t[i - 1]);
        assert(t.skip(i - 1).skip(1) =~= t.skip(i));
    }
}

/// A found index is the first of its name: everything before it misses.
proof fn lemma_cache_lookup_first(t: Seq<Module>, name: Seq<u8>)
    ensures
        cache_lookup(t, name) matches Some(i) ==> forall|j: int| 0 <= j < i ==> (
        #[trigger] t[j]).name@ != name,
    decreases t.len(),
{
    if t.len() > 0 && t[0].name@ != name {
        lemma_cache_lookup_first(t.skip(1), name);
        let r = cache_lookup(t, name);
        if r is Some {
            lemma_cache_lookup_in_range(t, name);
            let i = r->0;
            assert forall|j: int| 0 <= j < i implies (#[trigger] t[j]).name@ != name by {
                if j > 0 {
                    assert(t.skip(1)[j - 1] == t[j]);
                }
            }
        }
    }
}

/// A found index is inside the cache.
pub proof fn lemma_cache_lookup_in_range(t: Seq<Module>, name: Seq<u8>)
    ensures
        cache_lookup(t, name) matches Some(i) ==> 0 <= i < t.len() && t[i].name@ == name,
    decreases t.len(),
{
    if t.len() > 0 {
        lemma_cache_lookup_in_range(t.skip(1), name);
    }
}

/// The kernel sentinel's one exported entry point.
pub const KERNEL_PRINT: u64 = 1;

/// The process-wide module cache, keyed by name; index 0 is the "kernel"
/// sentinel module.
pub struct ModuleCache {
    pub modules: Vec<Module>,
}

impl ModuleCache {
    /// A fresh cache holding only the kernel sentinel, which exports
    /// `print`.
    pub fn new() -> (c: ModuleCache)
        ensures
            c.modules@.len() == 1,
            c.modules@[0].image@.len() == 0,
            c.modules@[0].func_table@.len() == 1,
    {
        let kname = {
            let w = "kernel";
            proof {
                reveal_strlit("kernel");
            }
            text_bytes(w)
        };
        let pname = {
            let w = "print";
            proof {
                reveal_strlit("print");
            }
            text_bytes(w)
        };
        let mut func_table: Vec<(Vec<u8>, u64)> = Vec::new();
        func_table.push((pname, KERNEL_PRINT));
        let kernel = Module { name: kname, func_table, image: Vec::new() };
        let mut modules: Vec<Module> = Vec::new();
        modules.push(kernel);
        ModuleCache { modules }
    }

    /// Borrow a cached module by index.
    pub fn get(&self, index: usize) -> (r: Option<&Module>)
        ensures
            r is Some <==> index < self.modules@.len(),
            r is Some ==> *r->0 == self.modules@[index as int],
    {
        if index < self.modules.len() {
            Some(vstd::std_specs::vec::vec_index(&self.modules, index))
        } else {
            None
        }
    }

    /// Index of the first cached module of this name.
    pub fn cached_module(&self, name: &[u8]) -> (r: Option<usize>)
        ensures
            r matches Some(i) ==> cache_lookup(self.modules@, name@) == Some(i as int),
            r is None ==> cache_lookup(self.modules@, name@) is None,
            r is Some ==> r->0 < self.modules@.len() && self.modules@[r->0 as int].name@ == name@,
            r is None ==> forall|i: int| 0 <= i < self.modules@.len() ==> (
            #[trigger] self.modules@[i]).name@ != name@,
    {
        let n = self.modules.len();
        let mut i: usize = 0;
        while i < n
            invariant
                i <= n,
                n == self.modules@.len(),
                forall|j: int| 0 <= j < i ==> (#[trigger] self.modules@[j]).name@ != name@,
            decreases n - i,
        {
            if bytes_eq(vstd::std_specs::vec::vec_index(&self.modules, i).name.as_slice(), name) {
                proof {
                    lemma_cache_lookup_step(self.modules@, name@, i as int);
                    assert(self.modules@.skip(i as int)[0] == self.modules@[i as int]);
                }
                return Some(i);
            }
            i = i + 1;
        }
        proof {
            lemma_cache_lookup_step(self.modules@, name@, n as int);
        }
        None
    }

    /// Load a module from an ELF image and cache it under its name, as a
    /// keyed store: loading a name that is already cached replaces that
    /// slot, a fresh name is appended, and either way the name afterwards
    /// looks up the new module.  It succeeds exactly when `load` does; on
    /// failure the cache is untouched.
    pub fn load_and_cache(&mut self, data: &[u8]) -> (r: Result<(usize, Manifest), KError>)
        ensures
            r is Ok <==> load_ok(data@),
            r matches Ok(p) ==> ({
                let slot = final(self).modules@[p.0 as int];
                &&& p.0 < final(self).modules@.len()
                &&& cache_lookup(final(self).modules@, p.1.module_name@) == Some(p.0 as int)
                &&& (match cache_lookup(old(self).modules@, p.1.module_name@) {
                    Some(i) => p.0 as int == i && final(self).modules@.len() == old(
                        self,
                    ).modules@.len(),
                    None => p.0 == old(self).modules@.len() && final(self).modules@.len()
                        == old(self).modules@.len() + 1,
                })
                &&& forall|k: int| 0 <= k < old(self).modules@.len() && k != p.0 as int
                    ==> final(self).modules@[k] == old(self).modules@[k]
                &&& spec_parse_manifest(spec_manifest_section(data@)->0) matches Some(sm)
                    && manifest_matches(p.1, sm)
                &&& slot.name@ == p.1.module_name@
                &&& slot.func_table@.len() == p.1.symbol_table@.len()
                &&& forall|i: int| 0 <= i < slot.func_table@.len() ==> (
                #[trigger] slot.func_table@[i]).0@ == p.1.symbol_table@[i].name@
                    && slot.func_table@[i].1 == p.1.symbol_table@[i].offset
                &&& forall|j: int| 0 <= j < slot.image@.len() ==> staged_region_ok(
                    #[trigger] slot.image@[j],
                )
            }),
            r is Err ==> final(self).modules@ == old(self).modules@,
    {
        match load(data) {
            Result::Ok((module, manifest)) => {
                let ghost nm = module.name@;
                match self.cached_module(module.name.as_slice()) {
                    Option::Some(index) => {
                        let ghost olds = self.modules@;
                        let _ = self.modules.remove(index);
                        self.modules.insert(index, module);
                        proof {
                            let news = self.modules@;
                            assert(news =~= olds.update(index as int, news[index as int]));
                            lemma_cache_lookup_first(olds, nm);
                            assert forall|j: int| 0 <= j < index implies (
                            #[trigger] news[j]).name@ != nm by {
                                assert(news[j] == olds[j]);
                            }
                            lemma_cache_lookup_step(news, nm, index as int);
                            assert(news.skip(index as int)[0] == news[index as int]);
                        }
                        Ok((index, manifest))
                    },
                    Option::None => {
                        let index = self.modules.len();
                        self.modules.push(module);
                        proof {
                            let news = self.modules@;
                            assert forall|j: int| 0 <= j < index implies (
                            #[trigger] news[j]).name@ != nm by {
                                assert(news[j] == old(self).modules@[j]);
                            }
                            lemma_cache_lookup_step(news, nm, index as int);
                            assert(news.skip(index as int)[0] == news[index as int]);
                        }
                        Ok((index, manifest))
                    },
                }
            },
            Result::Err(e) => Err(e),
        }
    }
}

} // verus!
