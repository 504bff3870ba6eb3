//! Context memory, the argument cursor, the allocators, and the small
//! hardware-facing encoders.

use rio::cxmem::{ContextMemory, ContextValues, Grant};
use rio::context::{KeyOrder, WaitpidKey};
use rio::debug::escape_default;
use rio::gdt::GdtEntry;
use rio::mem::{
    allocate_frames, allocate_unmapped_pages, deallocate_frames, deallocate_pages, free_frames,
    used_frames, EntryFlags, Frame, FrameAlloc, MemoryArea, MemoryAreaIter, Page, Valloc,
    FLAG_WRITABLE, PAGE_SIZE,
};
use rio::sos::{decode_values, encode_sos, Value};

#[test]
fn frame_allocator_balances_counts() {
    let mut a = FrameAlloc::new(10);
    assert_eq!(free_frames(&a), 10);
    assert_eq!(used_frames(&a), 0);
    let f = allocate_frames(&mut a, 4).expect("four frames are free");
    assert_eq!(f.number, 0);
    assert_eq!(free_frames(&a), 6);
    assert_eq!(used_frames(&a), 4);
    assert!(allocate_frames(&mut a, 7).is_none());
    deallocate_frames(&mut a, f, 4);
    assert_eq!(free_frames(&a), 10);
    let g = allocate_frames(&mut a, 10).expect("exactly the free count fits");
    assert_eq!(g.number, 4);
}

#[test]
fn frame_addresses() {
    let f = Frame::containing_address(0x5432);
    assert_eq!(f.number, 5);
    assert_eq!(f.start_address(), 0x5000);
    let mut it = Frame::range_inclusive(Frame { number: 2 }, Frame { number: 4 });
    assert_eq!(it.next(), Some(Frame { number: 2 }));
    assert_eq!(it.next(), Some(Frame { number: 3 }));
    assert_eq!(it.next(), Some(Frame { number: 4 }));
    assert_eq!(it.next(), None);
}

#[test]
fn valloc_best_fit_and_merge() {
    let mut v = Valloc::new(0x1000_0000, 64 * PAGE_SIZE);
    assert_eq!(v.free_count(), 64);
    let p = v.allocate_pages(16).expect("a block fits");
    assert_eq!(v.free_count(), 48);
    let q = v.allocate_pages(48).expect("the rest fits");
    assert_eq!(v.free_count(), 0);
    assert!(v.allocate_pages(1).is_none());
    v.deallocate_pages(q, 48);
    assert_eq!(v.free_count(), 48);
    v.deallocate_pages(p, 16);
    assert_eq!(v.free_count(), 64);
    let mut v2 = Valloc::new(0, 8 * PAGE_SIZE);
    let a = allocate_unmapped_pages(&mut v2, 3).expect("three pages fit");
    assert_eq!(a.count, 3);
    assert_eq!(v2.free_count(), 5);
    deallocate_pages(&mut v2, a.start, a.count);
    assert_eq!(v2.free_count(), 8);
}

#[test]
fn memory_area_iter_filters_by_type() {
    let areas = vec![
        MemoryArea { base_addr: 0, length: 10, area_type: 1, acpi: 0 },
        MemoryArea { base_addr: 10, length: 10, area_type: 2, acpi: 0 },
        MemoryArea { base_addr: 20, length: 10, area_type: 1, acpi: 0 },
    ];
    let mut it = MemoryAreaIter::new(areas, 1);
    assert_eq!(it.next().unwrap().base_addr, 0);
    assert_eq!(it.next().unwrap().base_addr, 20);
    assert!(it.next().is_none());
}

#[test]
fn resize_keeps_prefix_and_zero_fills() {
    let flags = EntryFlags::new(FLAG_WRITABLE);
    let (mut m, _) = ContextMemory::new_kernel(2, flags).unwrap();
    m.write_bytes(0, &[7, 8, 9]);
    m.write_bytes(2 * PAGE_SIZE - 1, &[5]);
    // Same page count: the bytes are untouched.
    let m2 = m.resize(2).unwrap();
    assert_eq!(m2.page_count(), 2);
    assert_eq!(&m2.as_slice()[0..3], &[7, 8, 9]);
    assert_eq!(m2.as_slice()[2 * PAGE_SIZE - 1], 5);
    // Growing keeps the prefix and zero-fills the new tail.
    let m3 = m2.resize(3).unwrap();
    assert_eq!(m3.page_count(), 3);
    assert_eq!(&m3.as_slice()[0..3], &[7, 8, 9]);
    assert_eq!(m3.as_slice()[2 * PAGE_SIZE - 1], 5);
    assert!(m3.as_slice()[2 * PAGE_SIZE..].iter().all(|&b| b == 0));
    // Shrinking keeps what still fits.
    let m4 = m3.resize(1).unwrap();
    assert_eq!(m4.page_count(), 1);
    assert_eq!(&m4.as_slice()[0..3], &[7, 8, 9]);
}

#[test]
fn clones_share_or_copy() {
    let flags = EntryFlags::new(FLAG_WRITABLE);
    let (mut m, _) = ContextMemory::new_kernel(1, flags).unwrap();
    m.write_bytes(0, &[1, 2, 3]);
    let copy = m.copy_clone(Some(0x1000)).unwrap();
    assert_eq!(&copy.as_slice()[0..3], &[1, 2, 3]);
    assert_eq!(copy.context_address(), 0x1000);
    m.share();
    let shared = m.ref_clone(None);
    assert_eq!(&shared.as_slice()[0..3], &[1, 2, 3]);
    assert_eq!(shared.context_address(), m.context_address());
}

#[test]
fn append_encode_window_decodes_back() {
    // Appending an encoded list and decoding the written window yields the
    // appended values.
    let flags = EntryFlags::new(FLAG_WRITABLE);
    let (m, _) = ContextMemory::new_kernel(1, flags).unwrap();
    let mut cv = ContextValues::new_no_memory();
    cv.set_memory(m);
    let vals = vec![Value::UInt64(11), Value::String(b"cursor".to_vec())];
    let addr = cv.append_encode(&vals).expect("the region is present");
    let encoded = encode_sos(&vals);
    let m = cv.memory().as_ref().unwrap();
    assert_eq!(addr, m.context_address());
    assert_eq!(&m.as_slice()[0..encoded.len()], &encoded[..]);
    assert_eq!(decode_values(&m.as_slice()[0..encoded.len()]).unwrap(), vals);

    // A second append lands after the first and grows the region if the
    // page is too small.
    let big = vec![Value::Opaque(vec![9u8; 2 * PAGE_SIZE])];
    let addr2 = cv.append_encode(&big).expect("the region grows");
    assert_eq!(addr2, addr + encoded.len() as u64);
    let big_encoded = encode_sos(&big);
    let m = cv.memory().as_ref().unwrap();
    assert!(m.page_count() >= 3);
    assert_eq!(
        &m.as_slice()[encoded.len()..encoded.len() + big_encoded.len()],
        &big_encoded[..]
    );
}

#[test]
fn grants_record_their_span() {
    let g = Grant::physmap(0x2000, 0x100, 4096, EntryFlags::new(FLAG_WRITABLE));
    assert_eq!(g.start_address(), 0x100);
    assert_eq!(g.size(), 4096);
    assert_eq!(g.flags().bits, FLAG_WRITABLE);
    g.unmap();
}

#[test]
fn gdt_entry_packs_offsets() {
    let e = GdtEntry::new(0xDEAD_BEEF, 0xFFFFF, 0x9A, 0xA0);
    assert_eq!(e.offsetl, 0xBEEF);
    assert_eq!(e.offsetm, 0xAD);
    assert_eq!(e.offseth, 0xDE);
    assert_eq!(e.limitl, 0xFFFF);
    assert_eq!(e.flags_limith, 0xAF);
    let mut e2 = e;
    e2.set_offset_low(0x1234_5678);
    assert_eq!(e2.offsetl, 0x5678);
    assert_eq!(e2.offsetm, 0x34);
    assert_eq!(e2.offseth, 0x12);
    e2.set_offset_high(0xAABB_CCDD_0000_0000);
    assert_eq!(e2.limitl, 0xCCDD);
    assert_eq!(e2.offsetl, 0xAABB);
    e2.set_limit(0x3ABCD);
    assert_eq!(e2.limitl, 0xABCD);
    assert_eq!(e2.flags_limith, 0xA3);
}

#[test]
fn escape_default_classes() {
    let mut e = escape_default(b'\n');
    assert_eq!(e.size_hint(), 2);
    assert_eq!(e.next(), Some(b'\\'));
    assert_eq!(e.next(), Some(b'n'));
    assert_eq!(e.next(), None);
    let mut p = escape_default(b'A');
    assert_eq!(p.next(), Some(b'A'));
    assert_eq!(p.next(), None);
    let mut x = escape_default(0x9B);
    assert_eq!(x.next(), Some(b'\\'));
    assert_eq!(x.next(), Some(b'x'));
    assert_eq!(x.next(), Some(b'9'));
    assert_eq!(x.next(), Some(b'b'));
    assert_eq!(x.next(), None);
}

#[test]
fn waitpid_keys_order_pids_first() {
    let a = WaitpidKey { pid: Some(1), pgid: None };
    let b = WaitpidKey { pid: Some(2), pgid: None };
    assert_eq!(a.cmp(&b), KeyOrder::Less);
    assert_eq!(b.cmp(&a), KeyOrder::Greater);
    assert_eq!(a.cmp(&a), KeyOrder::Equal);
    let g1 = WaitpidKey { pid: None, pgid: Some(3) };
    let g2 = WaitpidKey { pid: None, pgid: Some(4) };
    assert_eq!(g1.cmp(&g2), KeyOrder::Less);
    assert_eq!(a.cmp(&g1), KeyOrder::Greater);
    assert_eq!(g1.cmp(&a), KeyOrder::Less);
    let none = WaitpidKey { pid: None, pgid: None };
    assert_eq!(none.cmp(&none), KeyOrder::Equal);
    assert_eq!(g1.cmp(&none), KeyOrder::Greater);
}

#[test]
fn page_addresses() {
    let p = Page::containing_address(0x8001);
    assert_eq!(p.number, 8);
    assert_eq!(p.start_address(), 0x8000);
}
