//! The syscall gateway: dispatch, result delivery into the caller's
//! argument region, and the driver-level calls.

use rio::call::{kernel_new, kernel_init};
use rio::cxmem::Grant;
use rio::error::KError;
use rio::mem::{EntryFlags, FrameAlloc, FLAG_PRESENT, FLAG_WRITABLE};
use rio::sos::{decode_values, encode_sos, OwnedFunction, Value};
use rio::syscall::{
    brk, exit, iopl, physalloc, physfree, physmap, physunmap, syscall, syscall_finish_fuse,
    sys_return, FuseAction, sys_fuse, SyscallOutcome, SyscallStack, SYS_CAST, SYS_FUSE,
    SYS_RETURN, SYS_WRITE,
};

fn fun(module: &str, name: &str) -> Value {
    Value::Function(OwnedFunction::new(module.as_bytes(), name.as_bytes()))
}

fn mini_elf(manifest: &[u8]) -> Vec<u8> {
    let mut d = vec![0u8; 192];
    d[0] = 0x7f;
    d[1] = b'E';
    d[2] = b'L';
    d[3] = b'F';
    d[4] = 2;
    d[40..48].copy_from_slice(&64u64.to_le_bytes());
    d[58..60].copy_from_slice(&64u16.to_le_bytes());
    d[60..62].copy_from_slice(&2u16.to_le_bytes());
    d[62..64].copy_from_slice(&0u16.to_le_bytes());
    d[88..96].copy_from_slice(&192u64.to_le_bytes());
    d[96..104].copy_from_slice(&11u64.to_le_bytes());
    d[128..132].copy_from_slice(&1u32.to_le_bytes());
    d[152..160].copy_from_slice(&203u64.to_le_bytes());
    d[160..168].copy_from_slice(&(manifest.len() as u64).to_le_bytes());
    d.extend_from_slice(b"\0.manifest\0");
    d.extend_from_slice(manifest);
    d
}

const MANIFEST: &[u8] = br#"{"ModuleName": "call", "SymbolTable": [{"Name": "passthrough", "Offset": 4096, "Visibility": 0, "ABI": 0}]}"#;

fn caller_args_window(k: &rio::sched::Kernel, id: u64, from: usize, len: usize) -> Vec<u8> {
    let c = k.contexts.get(id).unwrap();
    let m = c.args.memory().as_ref().unwrap();
    m.as_slice()[from..from + len].to_vec()
}

#[test]
fn gateway_write_returns_length() {
    let mut k = kernel_new(0);
    let boot = kernel_init(&mut k).unwrap();
    let mut stack = SyscallStack { rflags: 0 };
    let args = encode_sos(&[Value::String(b"abcd".to_vec())]);
    match syscall(&mut k, SYS_WRITE, &args, &mut stack) {
        SyscallOutcome::Complete(addr) => {
            let base = k
                .contexts
                .get(boot)
                .unwrap()
                .args
                .memory()
                .as_ref()
                .unwrap()
                .context_address();
            assert_eq!(addr, base);
            let expect = encode_sos(&[Value::UInt64(4)]);
            let window = caller_args_window(&k, boot, 0, expect.len());
            assert_eq!(window, expect);
        }
        _ => panic!("write completes in place"),
    }
}

#[test]
fn gateway_write_rejects_non_text() {
    let mut k = kernel_new(0);
    let boot = kernel_init(&mut k).unwrap();
    let mut stack = SyscallStack { rflags: 0 };
    let args = encode_sos(&[Value::UInt64(1)]);
    match syscall(&mut k, SYS_WRITE, &args, &mut stack) {
        SyscallOutcome::Complete(_) => {
            let expect = encode_sos(&[Value::Error(b"Bad argument type".to_vec())]);
            let window = caller_args_window(&k, boot, 0, expect.len());
            assert_eq!(window, expect);
        }
        _ => panic!("errors complete in place"),
    }
}

#[test]
fn gateway_unknown_number_reports_not_implemented() {
    let mut k = kernel_new(0);
    let boot = kernel_init(&mut k).unwrap();
    let mut stack = SyscallStack { rflags: 0 };
    match syscall(&mut k, 9999, &[], &mut stack) {
        SyscallOutcome::Complete(_) => {
            let expect = encode_sos(&[Value::Error(b"Not implemented".to_vec())]);
            let window = caller_args_window(&k, boot, 0, expect.len());
            assert_eq!(window, expect);
        }
        _ => panic!("unknown numbers complete with an error"),
    }
}

#[test]
fn gateway_fuse_on_kernel_completes_in_place() {
    let mut k = kernel_new(0);
    let boot = kernel_init(&mut k).unwrap();
    let mut stack = SyscallStack { rflags: 0 };
    let args = encode_sos(&[fun("kernel", "print"), Value::String(b"hi".to_vec())]);
    match syscall(&mut k, SYS_FUSE, &args, &mut stack) {
        SyscallOutcome::Complete(_) => {
            let expect = encode_sos(&[Value::UInt64(2)]);
            let window = caller_args_window(&k, boot, 0, expect.len());
            assert_eq!(window, expect);
        }
        _ => panic!("a kernel fuse completes in place"),
    }
}

#[test]
fn gateway_fuse_starts_module_callee_and_finishes() {
    let mut k = kernel_new(0);
    let boot = kernel_init(&mut k).unwrap();
    let elf = mini_elf(MANIFEST);
    let _ = k.cache.load_and_cache(&elf).unwrap().0;
    let mut stack = SyscallStack { rflags: 0 };
    let args = encode_sos(&[fun("call", "passthrough"), Value::String(b"pay".to_vec())]);
    let callee = match syscall(&mut k, SYS_FUSE, &args, &mut stack) {
        SyscallOutcome::Started(id, entry) => {
            assert_eq!(entry.func, 4096);
            id
        }
        _ => panic!("a module fuse starts a callee"),
    };
    // The callee's argument region holds the passed-through tail, framed
    // as its own stream.
    let tail = encode_sos(&[Value::String(b"pay".to_vec())]);
    let callee_window = caller_args_window(&k, callee, 0, tail.len());
    assert_eq!(decode_values(&callee_window).unwrap(), decode_values(&tail).unwrap());
    // The callee returns a payload and exits; finishing the fuse appends
    // that payload to the caller's region.
    let reply = encode_sos(&[Value::String(b"done".to_vec())]);
    match syscall(&mut k, SYS_RETURN, &reply, &mut stack) {
        SyscallOutcome::Exited(next) => assert_eq!(next, Some(boot)),
        _ => panic!("return exits the callee"),
    }
    let addr = syscall_finish_fuse(&mut k, callee).expect("result is ready");
    let base = k
        .contexts
        .get(boot)
        .unwrap()
        .args
        .memory()
        .as_ref()
        .unwrap()
        .context_address();
    assert_eq!(addr, base);
    let window = caller_args_window(&k, boot, 0, reply.len());
    assert_eq!(window, reply);
}

#[test]
fn gateway_cast_returns_empty_stream() {
    let mut k = kernel_new(0);
    let boot = kernel_init(&mut k).unwrap();
    let elf = mini_elf(MANIFEST);
    let _ = k.cache.load_and_cache(&elf).unwrap().0;
    let mut stack = SyscallStack { rflags: 0 };
    let args = encode_sos(&[fun("call", "passthrough")]);
    match syscall(&mut k, SYS_CAST, &args, &mut stack) {
        SyscallOutcome::Complete(_) => {
            let expect = encode_sos(&[]);
            let window = caller_args_window(&k, boot, 0, expect.len());
            assert_eq!(window, expect);
        }
        _ => panic!("a cast completes at once"),
    }
    assert_eq!(k.call_queue.entries.len(), 0);
}

#[test]
fn sys_fuse_resolution_errors() {
    let mut k = kernel_new(0);
    let _ = kernel_init(&mut k).unwrap();
    let no_values = encode_sos(&[]);
    assert!(matches!(sys_fuse(&mut k, &no_values), Err(KError::NotEnoughArguments)));
    let wrong = encode_sos(&[Value::UInt64(1)]);
    assert!(matches!(sys_fuse(&mut k, &wrong), Err(KError::BadArgumentType)));
    let missing = encode_sos(&[fun("nowhere", "f")]);
    assert!(matches!(sys_fuse(&mut k, &missing), Err(KError::NoSuchModule)));
    let kernel_fuse = encode_sos(&[fun("kernel", "print"), Value::String(b"abc".to_vec())]);
    match sys_fuse(&mut k, &kernel_fuse) {
        Ok(FuseAction::Done(bytes)) => {
            assert_eq!(bytes, encode_sos(&[Value::UInt64(3)]));
        }
        _ => panic!("kernel print completes"),
    }
}

#[test]
fn iopl_edits_the_flag_bits() {
    let mut stack = SyscallStack { rflags: 0xFFFF_FFFF_FFFF_FFFF };
    assert_eq!(iopl(2, &mut stack), Ok(0));
    assert_eq!(stack.rflags & (3 << 12), 2 << 12);
    assert!(iopl(4, &mut stack).is_err());
}

#[test]
fn phys_calls_track_frames_and_grants() {
    let mut a = FrameAlloc::new(100);
    let addr = physalloc(&mut a, 2 * 4096 + 1).expect("three frames fit");
    assert_eq!(addr, 0);
    assert_eq!(rio::mem::free_frames(&a), 97);
    assert!(physfree(&mut a, addr, 3 * 4096).is_ok());
    assert_eq!(rio::mem::free_frames(&a), 100);

    let mut grants: Vec<Grant> = Vec::new();
    let a1 = physmap(&mut grants, 0x12345, 100, 1).expect("first grant");
    assert_eq!(grants.len(), 1);
    assert_eq!(a1 & 0xFFF, 0x345);
    let a2 = physmap(&mut grants, 0x99000, 4096, 0).expect("second grant");
    assert_eq!(grants.len(), 2);
    assert!(grants[0].flags().contains(EntryFlags::new(FLAG_PRESENT | FLAG_WRITABLE)));
    assert!(physunmap(&mut grants, a2).is_ok());
    assert_eq!(grants.len(), 1);
    assert!(matches!(physunmap(&mut grants, 0x7), Err(KError::InvalidMemoryRange)));
    assert_eq!(physmap(&mut grants, 0x1000, 0, 0), Ok(0));
}

#[test]
fn brk_queries_and_refuses_bad_targets() {
    let mut k = kernel_new(0);
    let _ = kernel_init(&mut k).unwrap();
    // The boot context has no user heap: a query is a protocol error, and
    // a target below the heap base is refused outright.
    assert!(matches!(brk(&mut k, 0), Err(KError::Protocol)));
    assert!(matches!(brk(&mut k, 0x1000), Err(KError::AllocationFailure)));
}

#[test]
fn brk_resizes_a_module_heap() {
    // A spawned module callee has a one-page heap; brk grows it to cover
    // the target, page by page, and the query returns the new break.
    let mut k = kernel_new(0);
    let _ = kernel_init(&mut k).unwrap();
    let elf = mini_elf(MANIFEST);
    let _ = k.cache.load_and_cache(&elf).unwrap().0;
    let args = encode_sos(&[fun("call", "passthrough")]);
    let mut stack = SyscallStack { rflags: 0 };
    let callee = match syscall(&mut k, SYS_FUSE, &args, &mut stack) {
        SyscallOutcome::Started(id, _) => id,
        _ => panic!("a module fuse starts a callee"),
    };
    assert_eq!(k.current_id, callee);
    assert_eq!(k.contexts.get(callee).unwrap().heap.as_ref().unwrap().page_count(), 1);
    let base = rio::consts::USER_HEAP_OFFSET;
    assert_eq!(brk(&mut k, 0), Ok(base + 4096));
    // Grow to three pages; the break moves and the query agrees.
    assert_eq!(brk(&mut k, base + 2 * 4096 + 1), Ok(base + 2 * 4096 + 1));
    assert_eq!(k.contexts.get(callee).unwrap().heap.as_ref().unwrap().page_count(), 3);
    assert_eq!(brk(&mut k, 0), Ok(base + 3 * 4096));
    // A resize to the same page count is a no-op.
    assert_eq!(brk(&mut k, base + 3 * 4096), Ok(base + 3 * 4096));
    assert_eq!(k.contexts.get(callee).unwrap().heap.as_ref().unwrap().page_count(), 3);
    // The base itself asks for zero pages: refused.
    assert!(matches!(brk(&mut k, base), Err(KError::AllocationFailure)));
}

#[test]
fn return_without_parent_just_exits() {
    let mut k = kernel_new(0);
    let boot = kernel_init(&mut k).unwrap();
    sys_return(&mut k, &encode_sos(&[Value::UInt64(1)])).unwrap();
    assert_eq!(exit(&mut k, 7), None);
    assert_eq!(
        k.contexts.get(boot).unwrap().status,
        rio::context::Status::Exited(7)
    );
}
