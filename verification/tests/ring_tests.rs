//! The byte ring: framed traffic, the full and empty boundaries, and the
//! reader's strict ordering.

use rio::ring::{prev_power_of_two, Ring, HEADER_SIZE};
use rio::rpc::{write_msg, read_frame, MsgType, IVSHRPC_HEADER_SIZE};
use rio::sos::{encode_sos, Value};

#[test]
fn prev_power_of_two_values() {
    assert_eq!(prev_power_of_two(0), 0);
    assert_eq!(prev_power_of_two(1), 1);
    assert_eq!(prev_power_of_two(2), 2);
    assert_eq!(prev_power_of_two(3), 2);
    assert_eq!(prev_power_of_two(4095), 2048);
    assert_eq!(prev_power_of_two(4096), 4096);
    assert_eq!(prev_power_of_two(3904), 2048);
}

#[test]
fn ring_capacity_from_slice_length() {
    let r = Ring::new(4096);
    // 4096 bytes minus the control block leaves 3904; the data area is the
    // largest power of two below that.
    assert_eq!(r.capacity(), 2048);
    assert_eq!(r.size(), 0);
    assert_eq!(r.free_space(), 2048);
    assert_eq!(HEADER_SIZE, 192);
}

#[test]
fn frame_write_then_read() {
    // A 4096-byte shared slice; an Error frame with call id 7 whose
    // payload is the encoding of one error value: count, total length,
    // tag, length field, the text, and its terminator - 17 bytes.
    let mut r = Ring::new(4096);
    let payload = encode_sos(&[Value::Error(b"bad".to_vec())]);
    assert_eq!(payload.len(), 17);
    write_msg(&mut r, MsgType::Error, 7, &payload);
    assert_eq!(r.size(), IVSHRPC_HEADER_SIZE + 17);
    let header = r.try_read(IVSHRPC_HEADER_SIZE, 1000).expect("header pending");
    assert_eq!(header[0], 3);
    assert_eq!(&header[1..5], &17u32.to_le_bytes());
    assert_eq!(&header[5..13], &7u64.to_le_bytes());
    let body = r.read(17);
    assert_eq!(body, payload);
    assert_eq!(r.size(), 0);
}

#[test]
fn frame_read_helper_round_trip() {
    let mut r = Ring::new(4096);
    let payload = encode_sos(&[Value::UInt64(2)]);
    write_msg(&mut r, MsgType::Return, 1, &payload);
    let (header, body) = read_frame(&mut r, 1000).expect("one frame pending");
    assert_eq!(header.msgtype, 2);
    assert_eq!(header.callid, 1);
    assert_eq!(header.length as usize, payload.len());
    assert_eq!(body, payload);
    assert!(read_frame(&mut r, 1000).is_none());
}

#[test]
fn try_write_exact_boundary() {
    // A write of up to the free space succeeds; one byte more never does.
    let mut r = Ring::new(HEADER_SIZE + 64 + 1);
    assert_eq!(r.capacity(), 64);
    let m: Vec<u8> = (0..64u8).collect();
    assert!(r.try_write(&m));
    assert_eq!(r.free_space(), 0);
    assert!(!r.try_write(&[0]));
    let out = r.read(64);
    assert_eq!(out, m);
    let too_big: Vec<u8> = vec![0; 65];
    assert!(!r.try_write(&too_big));
    assert!(r.try_write(&m));
}

#[test]
fn try_write_respects_pending_bytes() {
    let mut r = Ring::new(HEADER_SIZE + 64 + 1);
    assert!(r.try_write(&[1, 2, 3, 4]));
    // Free space is capacity minus size: a fit of exactly that size works.
    let fit: Vec<u8> = vec![9; 60];
    assert!(r.try_write(&fit));
    assert!(!r.try_write(&[0]));
    assert_eq!(r.read(4), vec![1, 2, 3, 4]);
    assert!(r.try_write(&[5, 6, 7, 8]));
    assert_eq!(r.read(60), fit);
    assert_eq!(r.read(4), vec![5, 6, 7, 8]);
}

#[test]
fn reader_sees_bytes_in_write_order() {
    // Wrap the window several times; every read returns the oldest pending
    // bytes first, so offset i is seen only after all offsets below i.
    let mut r = Ring::new(HEADER_SIZE + 32 + 1);
    let mut sent: Vec<u8> = Vec::new();
    let mut got: Vec<u8> = Vec::new();
    let mut x: u8 = 0;
    for round in 0..10 {
        let chunk: Vec<u8> = (0..(7 + round % 5)).map(|_| {
            x = x.wrapping_add(1);
            x
        }).collect();
        assert!(r.try_write(&chunk));
        sent.extend_from_slice(&chunk);
        let take = chunk.len() - 1;
        got.extend_from_slice(&r.read(take));
        got.extend_from_slice(&r.read(1));
    }
    assert_eq!(sent, got);
}

#[test]
fn try_read_needs_enough_pending() {
    let mut r = Ring::new(4096);
    assert!(r.try_read(1, 1000).is_none());
    r.write(&[10, 20]);
    // Exactly the pending amount is readable; the spin count does not
    // change the outcome.
    assert!(r.try_read(3, 1000).is_none());
    let two = r.try_read(2, 1).expect("two bytes pending");
    assert_eq!(two, vec![10, 20]);
}

#[test]
fn skip_n_drops_at_most_pending() {
    let mut r = Ring::new(4096);
    r.write(&[1, 2, 3, 4, 5]);
    assert_eq!(r.skip_n(2), 2);
    assert_eq!(r.skip_n(10), 3);
    assert_eq!(r.skip_n(1), 0);
    r.write(&[9]);
    assert_eq!(r.read(1), vec![9]);
}
