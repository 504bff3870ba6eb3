//! The context and module lifecycle end to end: loading a module, the
//! fuse round trip, the fire-and-forget cast, and the scheduler pick.

use rio::call::{cast_name, fuse_collect, fuse_name, kernel_init, kernel_new};
use rio::context::Status;
use rio::error::KError;
use rio::loader::{load, parse_manifest};
use rio::sched::switch;
use rio::sos::{decode_values, encode_sos, Value};
use rio::syscall::{exit, getpid, sys_return};

fn mini_elf(manifest: &[u8]) -> Vec<u8> {
    let mut d = vec![0u8; 192];
    d[0] = 0x7f;
    d[1] = b'E';
    d[2] = b'L';
    d[3] = b'F';
    d[4] = 2;
    d[40..48].copy_from_slice(&64u64.to_le_bytes());
    d[58..60].copy_from_slice(&64u16.to_le_bytes());
    d[60..62].copy_from_slice(&2u16.to_le_bytes());
    d[62..64].copy_from_slice(&0u16.to_le_bytes());
    // Section 0: the section-name string table itself.
    d[88..96].copy_from_slice(&192u64.to_le_bytes());
    d[96..104].copy_from_slice(&11u64.to_le_bytes());
    // Section 1: the manifest, named at offset 1 of the string table.
    d[128..132].copy_from_slice(&1u32.to_le_bytes());
    d[152..160].copy_from_slice(&203u64.to_le_bytes());
    d[160..168].copy_from_slice(&(manifest.len() as u64).to_le_bytes());
    d.extend_from_slice(b"\0.manifest\0");
    d.extend_from_slice(manifest);
    d
}

const MANIFEST: &[u8] = br#"{"ModuleName": "call", "SymbolTable": [{"Name": "passthrough", "Offset": 4096, "Visibility": 0, "ABI": 0}]}"#;

#[test]
fn manifest_parses() {
    let m = parse_manifest(MANIFEST).expect("well-formed manifest");
    assert_eq!(m.module_name, b"call".to_vec());
    assert_eq!(m.symbol_table.len(), 1);
    assert_eq!(m.symbol_table[0].name, b"passthrough".to_vec());
    assert_eq!(m.symbol_table[0].offset, 4096);
    assert!(parse_manifest(b"{").is_err());
    assert!(parse_manifest(b"[]").is_err());
    assert!(parse_manifest(br#"{"ModuleName": "x"}"#).is_err());
}

#[test]
fn load_then_lookup_returns_declared_offset() {
    // Loading, caching by name, and looking the function up returns
    // exactly the entry offset the manifest declared.
    let elf = mini_elf(MANIFEST);
    let (module, mf) = load(&elf).expect("module loads");
    assert_eq!(module.name, b"call".to_vec());
    assert_eq!(mf.module_name, b"call".to_vec());
    assert_eq!(mf.symbol_table.len(), 1);
    assert_eq!(module.function(b"passthrough"), Some(4096));
    assert_eq!(module.function(b"absent"), None);

    let mut k = kernel_new(0);
    let (idx, cached_mf) = k.cache.load_and_cache(&elf).expect("module loads");
    assert_eq!(cached_mf.symbol_table[0].offset, 4096);
    let found = k.cache.cached_module(b"call").expect("cached by name");
    assert_eq!(found, idx);
    let m = k.cache.get(found).unwrap();
    assert_eq!(m.function(b"passthrough"), Some(4096));
}

#[test]
fn reloading_a_name_replaces_its_slot() {
    // The cache is keyed by name: loading "call" twice reuses the slot,
    // the name resolves to the newest module, and nothing is shadowed.
    let mut k = kernel_new(0);
    let (idx, _) = k.cache.load_and_cache(&mini_elf(MANIFEST)).expect("first load");
    let before = k.cache.modules.len();
    let updated: &[u8] = br#"{"ModuleName": "call", "SymbolTable": [{"Name": "passthrough", "Offset": 8192, "Visibility": 0, "ABI": 0}]}"#;
    let (idx2, _) = k.cache.load_and_cache(&mini_elf(updated)).expect("reload");
    assert_eq!(idx2, idx);
    assert_eq!(k.cache.modules.len(), before);
    let found = k.cache.cached_module(b"call").expect("still cached");
    assert_eq!(found, idx);
    assert_eq!(k.cache.get(found).unwrap().function(b"passthrough"), Some(8192));
    // A fresh name still appends.
    let other: &[u8] = br#"{"ModuleName": "other", "SymbolTable": []}"#;
    let (idx3, _) = k.cache.load_and_cache(&mini_elf(other)).expect("new name");
    assert_eq!(idx3, before);
    assert_eq!(k.cache.modules.len(), before + 1);
}

#[test]
fn load_rejects_bad_images() {
    assert!(load(b"short").is_err());
    let mut bad_magic = mini_elf(MANIFEST);
    bad_magic[0] = 0;
    assert!(load(&bad_magic).is_err());
    let bad_manifest = mini_elf(b"{\"ModuleName\": 3}");
    assert!(load(&bad_manifest).is_err());
}

#[test]
fn fuse_round_trip_delivers_exact_payload() {
    // The fuse path: the caller blocks, the callee runs, its stored return
    // payload comes back to the caller byte for byte.
    let mut k = kernel_new(0);
    let boot = kernel_init(&mut k).expect("boot context");
    assert_eq!(getpid(&k), Ok(boot));
    let elf = mini_elf(MANIFEST);
    let (idx, _) = k.cache.load_and_cache(&elf).expect("module loads");

    let args = vec![Value::String(b"hello".to_vec())];
    let (callee, entry) = fuse_name(&mut k, idx, b"passthrough", &args).expect("fuse starts");
    assert_eq!(entry.func, 4096);
    assert_eq!(k.current_id, callee);
    assert_eq!(k.contexts.get(callee).unwrap().status, Status::Running);
    assert_eq!(k.contexts.get(boot).unwrap().status, Status::Blocked);

    // The callee is the identity: it returns its argument stream.
    let payload = encode_sos(&args);
    sys_return(&mut k, &payload).expect("current context stores its result");
    let resumed = exit(&mut k, 0);
    assert_eq!(resumed, Some(boot));
    assert_eq!(k.current_id, boot);
    assert_eq!(k.contexts.get(boot).unwrap().status, Status::Running);
    assert_eq!(k.contexts.get(callee).unwrap().status, Status::Exited(0));

    let returned = fuse_collect(&mut k, callee).expect("result is ready");
    assert_eq!(returned, payload);
    assert_eq!(decode_values(&returned).unwrap(), args);
    assert!(k.contexts.get(callee).is_none());
}

#[test]
fn unknown_function_and_module_fail_exactly() {
    let mut k = kernel_new(0);
    let _ = kernel_init(&mut k).unwrap();
    let elf = mini_elf(MANIFEST);
    let (idx, _) = k.cache.load_and_cache(&elf).unwrap();
    let args: Vec<Value> = Vec::new();
    match fuse_name(&mut k, idx, b"does_not_exist", &args) {
        Err(KError::NoSuchFunction) => {}
        other => panic!("wanted NoSuchFunction, got {:?}", other.is_ok()),
    }
    match fuse_name(&mut k, 99, b"passthrough", &args) {
        Err(KError::NoSuchModule) => {}
        other => panic!("wanted NoSuchModule, got {:?}", other.is_ok()),
    }
}

#[test]
fn cast_is_fire_and_forget() {
    // A cast never blocks its caller, leaves the remote-call registry
    // empty, and delivers no result.
    let mut k = kernel_new(0);
    let boot = kernel_init(&mut k).unwrap();
    let elf = mini_elf(MANIFEST);
    let (idx, _) = k.cache.load_and_cache(&elf).unwrap();

    let args = vec![Value::String(b"hello".to_vec())];
    let callee = cast_name(&mut k, idx, b"passthrough", &args).expect("cast enqueues");
    assert_eq!(k.current_id, boot);
    assert_eq!(k.contexts.get(boot).unwrap().status, Status::Running);
    assert_eq!(k.contexts.get(callee).unwrap().status, Status::New);
    assert!(k.contexts.get(callee).unwrap().ret_link.is_none());
    assert_eq!(k.call_queue.entries.len(), 0);

    // The scheduler enters the new context through the user path when the
    // caller yields.
    let picked = switch(&mut k, (0, 0)).expect("the cast callee is runnable");
    assert_eq!(picked, (callee, true));
    assert_eq!(k.current_id, callee);
    assert_eq!(k.contexts.get(callee).unwrap().status, Status::Running);
    assert_eq!(k.contexts.get(boot).unwrap().status, Status::Runnable);

    // The callee runs to completion; the caller never sees a result.
    let _ = exit(&mut k, 0);
    assert_eq!(k.contexts.get(callee).unwrap().status, Status::Exited(0));
    assert!(k.contexts.get(boot).unwrap().result.is_none());
    match fuse_collect(&mut k, callee) {
        Err(KError::Protocol) => {}
        _ => panic!("a cast callee has no result to collect"),
    }
}

#[test]
fn switch_with_nothing_runnable_idles() {
    let mut k = kernel_new(0);
    let boot = kernel_init(&mut k).unwrap();
    assert!(switch(&mut k, (0, 0)).is_none());
    assert_eq!(k.current_id, boot);
    assert_eq!(k.ticks, 0);
}

#[test]
fn switch_wakes_due_sleepers() {
    let mut k = kernel_new(0);
    let _boot = kernel_init(&mut k).unwrap();
    let elf = mini_elf(MANIFEST);
    let (idx, _) = k.cache.load_and_cache(&elf).unwrap();
    let args: Vec<Value> = Vec::new();
    let (callee, _) = fuse_name(&mut k, idx, b"passthrough", &args).unwrap();
    let boot = {
        // Hand control back to the caller and put the callee to sleep
        // until time (5, 0).
        let bi = (0..k.contexts.entries.len())
            .find(|&i| k.contexts.entries[i].id != callee)
            .unwrap();
        let boot = k.contexts.entries[bi].id;
        k.contexts.entries[bi].status = Status::Running;
        k.current_id = boot;
        let ci = (0..k.contexts.entries.len())
            .find(|&i| k.contexts.entries[i].id == callee)
            .unwrap();
        k.contexts.entries[ci].status = Status::Blocked;
        k.contexts.entries[ci].wake = Some((5, 0));
        boot
    };
    assert!(switch(&mut k, (4, 9)).is_none());
    assert_eq!(k.current_id, boot);
    let picked = switch(&mut k, (5, 0)).expect("the sleeper is due");
    assert_eq!(picked.0, callee);
    assert_eq!(k.contexts.get(boot).unwrap().status, Status::Runnable);
}
