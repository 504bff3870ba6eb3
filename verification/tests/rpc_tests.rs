//! The remote transport: header framing, the dispatch loop on inbound
//! frames, the call registry, and the host's dispatch decisions.

use rio::call::{kernel_init, kernel_new};
use rio::context::Status;
use rio::error::KError;
use rio::host::{dispatch, HostEndpoint, HostTable};
use rio::ivshmem::{isr, ivshrpc_cast, ivshrpc_fuse, ivshrpc_take_result};
use rio::ring::Ring;
use rio::rpc::{read_frame, write_msg, MsgHeader, MsgType, IVSHRPC_HEADER_SIZE};
use rio::sos::{decode_values, encode_sos, OwnedFunction, Value};

fn fun(module: &str, name: &str) -> Value {
    Value::Function(OwnedFunction::new(module.as_bytes(), name.as_bytes()))
}

#[test]
fn header_round_trip() {
    let h = MsgHeader { msgtype: 1, length: 11, callid: 7 };
    let bytes = h.to_slice();
    assert_eq!(bytes.len(), IVSHRPC_HEADER_SIZE);
    let back = MsgHeader::from_slice(&bytes);
    assert_eq!(back, h);
    assert_eq!(MsgType::from_u8(0), Some(MsgType::Cast));
    assert_eq!(MsgType::from_u8(1), Some(MsgType::Fuse));
    assert_eq!(MsgType::from_u8(2), Some(MsgType::Return));
    assert_eq!(MsgType::from_u8(3), Some(MsgType::Error));
    assert_eq!(MsgType::from_u8(4), None);
}

#[test]
fn remote_fuse_on_kernel_print_returns_length() {
    // The host sends a fuse for kernel:print with one string; the kernel
    // answers with a Return frame echoing the call id and carrying the
    // string's length.
    let mut k = kernel_new(0);
    let _ = kernel_init(&mut k).unwrap();
    let mut rx = Ring::new(4096);
    let payload = encode_sos(&[fun("kernel", "print"), Value::String(b"hi".to_vec())]);
    write_msg(&mut rx, MsgType::Fuse, 1, &payload);

    let work = isr(&mut k, &mut rx);
    assert!(work.is_empty());

    let (header, reply) = read_frame(&mut k.tx, 1000).expect("a Return frame was sent");
    assert_eq!(MsgType::from_u8(header.msgtype), Some(MsgType::Return));
    assert_eq!(header.callid, 1);
    assert_eq!(reply, encode_sos(&[Value::UInt64(2)]));
}

#[test]
fn remote_fuse_on_unknown_function_answers_error() {
    let mut k = kernel_new(0);
    let _ = kernel_init(&mut k).unwrap();
    let mut rx = Ring::new(4096);
    let payload = encode_sos(&[fun("kernel", "does_not_exist")]);
    write_msg(&mut rx, MsgType::Fuse, 2, &payload);

    let work = isr(&mut k, &mut rx);
    assert!(work.is_empty());

    let (header, reply) = read_frame(&mut k.tx, 1000).expect("an Error frame was sent");
    assert_eq!(MsgType::from_u8(header.msgtype), Some(MsgType::Error));
    assert_eq!(header.callid, 2);
    assert_eq!(reply, encode_sos(&[Value::Error(b"No such function".to_vec())]));
}

fn mini_elf(manifest: &[u8]) -> Vec<u8> {
    let mut d = vec![0u8; 192];
    d[0] = 0x7f;
    d[1] = b'E';
    d[2] = b'L';
    d[3] = b'F';
    d[4] = 2;
    d[40..48].copy_from_slice(&64u64.to_le_bytes());
    d[58..60].copy_from_slice(&64u16.to_le_bytes());
    d[60..62].copy_from_slice(&2u16.to_le_bytes());
    d[62..64].copy_from_slice(&0u16.to_le_bytes());
    d[88..96].copy_from_slice(&192u64.to_le_bytes());
    d[96..104].copy_from_slice(&11u64.to_le_bytes());
    d[128..132].copy_from_slice(&1u32.to_le_bytes());
    d[152..160].copy_from_slice(&203u64.to_le_bytes());
    d[160..168].copy_from_slice(&(manifest.len() as u64).to_le_bytes());
    d.extend_from_slice(b"\0.manifest\0");
    d.extend_from_slice(manifest);
    d
}

#[test]
fn remote_fuse_on_loaded_module_becomes_work() {
    let mut k = kernel_new(0);
    let _ = kernel_init(&mut k).unwrap();
    let manifest: &[u8] = br#"{"ModuleName": "call", "SymbolTable": [{"Name": "passthrough", "Offset": 4096, "Visibility": 0, "ABI": 0}]}"#;
    let _ = k.cache.load_and_cache(&mini_elf(manifest)).unwrap().0;
    let mut rx = Ring::new(4096);
    // A fuse aimed at a loaded module is not answered in place: it comes
    // back as work for user code, carrying the inbound call id and frame.
    let payload = encode_sos(&[fun("call", "passthrough"), Value::UInt64(9)]);
    write_msg(&mut rx, MsgType::Fuse, 5, &payload);
    // An unknown module name, by contrast, is refused outright.
    let other = encode_sos(&[fun("elsewhere", "f")]);
    write_msg(&mut rx, MsgType::Fuse, 3, &other);
    let work = isr(&mut k, &mut rx);
    assert_eq!(work.len(), 1);
    assert_eq!(work[0].callid, 5);
    assert_eq!(work[0].payload, payload);
    let (header, reply) = read_frame(&mut k.tx, 1000).expect("an Error frame was sent");
    assert_eq!(MsgType::from_u8(header.msgtype), Some(MsgType::Error));
    assert_eq!(header.callid, 3);
    assert_eq!(reply, encode_sos(&[Value::Error(b"No such module".to_vec())]));
}

#[test]
fn fuse_send_parks_and_reply_delivers() {
    // A local fuse over the channel: the caller is parked under a fresh
    // call id and blocked; the matching Return stores the payload on it
    // and wakes it; the woken caller finds its result present.
    let mut k = kernel_new(0);
    let boot = kernel_init(&mut k).unwrap();
    let args = vec![fun("host", "hello_fuse"), Value::String(b"hey".to_vec())];
    let callid = ivshrpc_fuse(&mut k, &args).expect("frame fits");
    assert_eq!(callid, 0);
    assert_eq!(k.call_queue.entries.len(), 1);
    assert_eq!(k.call_queue.entries[0], (callid, boot));
    assert_eq!(k.contexts.get(boot).unwrap().status, Status::Blocked);

    // The frame on the wire is the framed encoding of the arguments.
    let (header, sent) = read_frame(&mut k.tx, 1000).expect("the Fuse frame was sent");
    assert_eq!(MsgType::from_u8(header.msgtype), Some(MsgType::Fuse));
    assert_eq!(header.callid, callid);
    assert_eq!(sent, encode_sos(&args));

    // The peer replies.
    let reply = encode_sos(&[Value::String(b"well met".to_vec())]);
    let mut rx = Ring::new(4096);
    write_msg(&mut rx, MsgType::Return, callid, &reply);
    let work = isr(&mut k, &mut rx);
    assert!(work.is_empty());
    assert_eq!(k.call_queue.entries.len(), 0);
    assert_eq!(k.contexts.get(boot).unwrap().status, Status::Runnable);
    let got = ivshrpc_take_result(&mut k)
        .expect("the result was stored before the wake")
        .expect("a Return frame is taken as Ok");
    assert_eq!(got, reply);
}

#[test]
fn error_reply_is_taken_as_err() {
    // A reply that arrives as an Error frame comes back to the host caller
    // as Err, with the frame's payload bytes.
    let mut k = kernel_new(0);
    let _boot = kernel_init(&mut k).unwrap();
    let args = vec![fun("host", "hello_fuse")];
    let callid = ivshrpc_fuse(&mut k, &args).expect("frame fits");
    let _ = read_frame(&mut k.tx, 1000);

    let failure = encode_sos(&[Value::Error(b"no such host".to_vec())]);
    let mut rx = Ring::new(4096);
    write_msg(&mut rx, MsgType::Error, callid, &failure);
    let work = isr(&mut k, &mut rx);
    assert!(work.is_empty());
    let got = ivshrpc_take_result(&mut k).expect("the result was stored");
    assert_eq!(got, Err(failure));
}

#[test]
fn reply_for_unknown_callid_is_discarded() {
    // An unrelated in-flight call stays parked and untouched when a reply
    // arrives for a call id nobody registered.
    let mut k = kernel_new(0);
    let boot = kernel_init(&mut k).unwrap();
    let args = vec![fun("host", "hello_fuse")];
    let callid = ivshrpc_fuse(&mut k, &args).unwrap();
    let _ = read_frame(&mut k.tx, 1000);

    let mut rx = Ring::new(4096);
    write_msg(&mut rx, MsgType::Return, 999, &encode_sos(&[Value::UInt64(1)]));
    let work = isr(&mut k, &mut rx);
    assert!(work.is_empty());
    assert_eq!(k.call_queue.entries.len(), 1);
    assert_eq!(k.call_queue.entries[0], (callid, boot));
    assert_eq!(k.contexts.get(boot).unwrap().status, Status::Blocked);
    assert!(k.contexts.get(boot).unwrap().result.is_none());
}

#[test]
fn cast_frame_does_not_park() {
    let mut k = kernel_new(0);
    let _ = kernel_init(&mut k).unwrap();
    let args = vec![fun("host", "hello")];
    let callid = ivshrpc_cast(&mut k, &args).expect("frame fits");
    assert_eq!(callid, 0);
    assert_eq!(k.next_call_id, 1);
    assert_eq!(k.call_queue.entries.len(), 0);
    let (header, sent) = read_frame(&mut k.tx, 1000).expect("the Cast frame was sent");
    assert_eq!(MsgType::from_u8(header.msgtype), Some(MsgType::Cast));
    assert_eq!(sent, encode_sos(&args));
}

fn host_table() -> HostTable {
    HostTable {
        entries: vec![
            HostEndpoint { module: b"host".to_vec(), name: b"hello".to_vec(), fuse_only: false },
            HostEndpoint {
                module: b"host".to_vec(),
                name: b"hello_fuse".to_vec(),
                fuse_only: true,
            },
        ],
    }
}

#[test]
fn host_dispatch_resolves_and_checks_kind() {
    let t = host_table();
    let fuse_args = encode_sos(&[fun("host", "hello_fuse")]);
    assert_eq!(dispatch(&t, &fuse_args, true), Ok(1));
    let cast_args = encode_sos(&[fun("host", "hello")]);
    assert_eq!(dispatch(&t, &cast_args, false), Ok(0));
    // A fuse aimed at a cast-only endpoint, and the other way around.
    assert_eq!(dispatch(&t, &cast_args, true), Err(KError::FuseOnCastOnly));
    assert_eq!(dispatch(&t, &fuse_args, false), Err(KError::CastOnFuseOnly));
    let unknown = encode_sos(&[fun("host", "absent")]);
    assert_eq!(dispatch(&t, &unknown, true), Err(KError::NoSuchFunction));
    let empty = encode_sos(&[]);
    assert_eq!(dispatch(&t, &empty, true), Err(KError::NotEnoughArguments));
    let not_a_function = encode_sos(&[Value::UInt64(3)]);
    assert_eq!(dispatch(&t, &not_a_function, true), Err(KError::BadArgumentType));
    assert_eq!(dispatch(&t, b"junk", true), Err(KError::Protocol));
    let decoded = decode_values(&fuse_args).unwrap();
    assert_eq!(decoded.len(), 1);
}
