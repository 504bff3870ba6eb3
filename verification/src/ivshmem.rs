//! The shared-memory RPC device: sending casts and fuses to the peer, and
//! the interrupt-driven dispatch of inbound frames.
//!
//! A fuse sender takes a fresh call id, parks the current context in the
//! call queue, frames the request, and blocks; the dispatch loop completes
//! it when the matching Return or Error arrives - a reply for an unknown
//! call id is discarded without touching the other calls.  An inbound Fuse
//! aimed at the kernel's own module is answered in place, echoing the
//! inbound call id; one aimed at a loaded module is handed out as work for
//! user code.  An inbound Cast is dispatched locally and only a failure is
//! reported back.

use vstd::prelude::*;
use vstd::bytes::{spec_u32_from_le_bytes, spec_u64_from_le_bytes};
use crate::call::module_images_ok;
use crate::context::{Context, Status, KERNEL_MODULE};
use crate::error::KError;
use crate::ring::Ring;
use crate::rpc::{MsgType, MsgHeader, CallId, write_msg, read_frame, header_bytes,
    IVSHRPC_HEADER_SIZE};
use crate::sched::{Kernel, kstack_ok};
use crate::sos::{Value, dviews, encodable, enc_list, enc_list_len, encode_sos, decode_sos,
    lemma_enc_list_len};
use crate::syscall::{sys_cast, kernel_call};

verus! {

/// An inbound fuse that user code must run: the call id to echo and the
/// argument payload.
pub struct RemoteWork {
    pub callid: CallId,
    pub payload: Vec<u8>,
}

/// Send a cast frame: a fresh call id, the encoded arguments, no parking -
/// the caller's context and the call queue are untouched.
pub fn ivshrpc_cast(k: &mut Kernel, args: &[Value]) -> (r: Result<CallId, KError>)
    requires
        old(k).wf(),
        encodable(dviews(args@)),
        enc_list_len(dviews(args@)) + IVSHRPC_HEADER_SIZE <= u32::MAX,
        old(k).next_call_id < u64::MAX,
    ensures
        final(k).wf(),
        final(k).contexts == old(k).contexts,
        final(k).call_queue == old(k).call_queue,
        final(k).cache == old(k).cache,
        final(k).current_id == old(k).current_id,
        r is Ok <==> IVSHRPC_HEADER_SIZE + enc_list_len(dviews(args@)) <= old(k).tx.spec_capacity() - old(k).tx.spec_size(),
        r matches Ok(callid) ==> {
            &&& callid == old(k).next_call_id
            &&& final(k).next_call_id == old(k).next_call_id + 1
            &&& final(k).tx.stream() == old(k).tx.stream() + header_bytes(
                MsgHeader {
                    msgtype: MsgType::Cast.spec_to_u8(),
                    length: enc_list_len(dviews(args@)) as u32,
                    callid,
                },
            ) + enc_list(dviews(args@))
        },
        r is Err ==> final(k).tx == old(k).tx && final(k).next_call_id == old(k).next_call_id,
{
    let payload = encode_sos(args);
    proof {
        lemma_enc_list_len(dviews(args@));
    }
    if k.tx.free_space() < IVSHRPC_HEADER_SIZE + payload.len() {
        return Err(KError::Protocol);
    }
    let callid = k.next_call_id;
    k.next_call_id = k.next_call_id + 1;
    write_msg(&mut k.tx, MsgType::Cast, callid, payload.as_slice());
    Ok(callid)
}

/// Send a fuse frame: a fresh call id, the caller parked in the call queue
/// under it, the frame published, and the caller blocked until the reply
/// unparks it.  The caller then yields until its status leaves Blocked and
/// takes the delivered payload with `ivshrpc_take_result`.
pub fn ivshrpc_fuse(k: &mut Kernel, args: &[Value]) -> (r: Result<CallId, KError>)
    requires
        old(k).wf(),
        encodable(dviews(args@)),
        enc_list_len(dviews(args@)) + IVSHRPC_HEADER_SIZE <= u32::MAX,
        old(k).next_call_id < u64::MAX,
        old(k).contexts.contains_id(old(k).current_id),
    ensures
        final(k).wf(),
        final(k).cache == old(k).cache,
        final(k).current_id == old(k).current_id,
        r is Ok <==> IVSHRPC_HEADER_SIZE + enc_list_len(dviews(args@)) <= old(k).tx.spec_capacity() - old(k).tx.spec_size(),
        r matches Ok(callid) ==> {
            &&& callid == old(k).next_call_id
            &&& final(k).next_call_id == old(k).next_call_id + 1
            &&& final(k).call_queue.entries@ == old(k).call_queue.entries@.push(
                (callid, old(k).current_id),
            )
            &&& final(k).tx.stream() == old(k).tx.stream() + header_bytes(
                MsgHeader {
                    msgtype: MsgType::Fuse.spec_to_u8(),
                    length: enc_list_len(dviews(args@)) as u32,
                    callid,
                },
            ) + enc_list(dviews(args@))
            &&& final(k).contexts.contains_id(old(k).current_id)
            &&& final(k).contexts.entries@[final(k).contexts.index_of(old(k).current_id)].status
                == Status::Blocked
        },
        r is Err ==> *final(k) == *old(k),
{
    let payload = encode_sos(args);
    proof {
        lemma_enc_list_len(dviews(args@));
    }
    if k.tx.free_space() < IVSHRPC_HEADER_SIZE + payload.len() {
        return Err(KError::Protocol);
    }
    let i = match k.contexts.find(k.current_id) {
        Option::Some(i) => i,
        Option::None => {
            return Err(KError::Protocol);
        },
    };
    let callid = k.next_call_id;
    k.next_call_id = k.next_call_id + 1;
    proof {
        assert(!k.call_queue.spec_contains(callid)) by {
            if k.call_queue.spec_contains(callid) {
                let w = choose|w: int| 0 <= w < k.call_queue.entries@.len() && (
                #[trigger] k.call_queue.entries@[w]).0 == callid;
            }
        }
    }
    k.call_queue.insert(callid, k.current_id);
    write_msg(&mut k.tx, MsgType::Fuse, callid, payload.as_slice());
    // Park the caller until the reply unblocks it.
    let ghost olds = k.contexts.entries@;
    let mut c = k.contexts.entries.remove(i);
    c.status = Status::Blocked;
    k.contexts.entries.insert(i, c);
    proof {
        let ends = k.contexts.entries@;
        assert(ends =~= olds.update(i as int, ends[i as int]));
        assert forall|a: int, b: int| 0 <= a < b < ends.len() implies #[trigger] ends[a].id
            < #[trigger] ends[b].id by {
            assert(ends[a].id == olds[a].id);
            assert(ends[b].id == olds[b].id);
        }
        assert forall|a: int| 0 <= a < ends.len() implies 1 <= (#[trigger] ends[a]).id
            < crate::context::CONTEXT_MAX_CONTEXTS by {
            assert(ends[a].id == olds[a].id);
        }
        assert forall|a: int| 0 <= a < ends.len() implies kstack_ok(#[trigger] ends[a]) by {
            if a != i as int {
                assert(ends[a] == olds[a]);
            }
        }
        assert forall|a: int| #![trigger k.call_queue.entries@[a]] 0 <= a
            < k.call_queue.entries@.len() implies k.call_queue.entries@[a].0 < k.next_call_id
            by {
            if a < k.call_queue.entries@.len() - 1 {
                assert(k.call_queue.entries@[a] == old(k).call_queue.entries@[a]);
            }
        }
        assert(ends[i as int].id == k.current_id);
        assert(k.contexts.contains_id(k.current_id));
        crate::context::lemma_sorted_index_unique(
            ends,
            k.contexts.index_of(k.current_id),
            i as int,
        );
    }
    Ok(callid)
}

/// Take the reply the dispatch loop stored on the current context: `Ok`
/// exactly when it arrived as a Return frame, `Err` exactly when it
/// arrived as an Error frame, the bytes those of the frame either way.
pub fn ivshrpc_take_result(k: &mut Kernel) -> (r: Option<Result<Vec<u8>, Vec<u8>>>)
    requires
        old(k).wf(),
    ensures
        final(k).wf(),
        final(k).cache == old(k).cache,
        final(k).call_queue == old(k).call_queue,
        final(k).tx == old(k).tx,
        final(k).current_id == old(k).current_id,
        r is Some ==> old(k).contexts.contains_id(old(k).current_id) && old(
            k,
        ).contexts.entries@[old(k).contexts.index_of(old(k).current_id)].result is Some,
        r matches Some(res) ==> ({
            let stored = old(k).contexts.entries@[old(k).contexts.index_of(
                old(k).current_id,
            )];
            &&& (res is Ok <==> !stored.result_error)
            &&& (match res {
                Ok(b) => b@ == stored.result->0@,
                Err(b) => b@ == stored.result->0@,
            })
        }),
{
    let i = match k.contexts.find(k.current_id) {
        Option::Some(i) => i,
        Option::None => {
            return None;
        },
    };
    let ghost olds = k.contexts.entries@;
    let mut c = k.contexts.entries.remove(i);
    let taken = c.result.take();
    let result: Option<Result<Vec<u8>, Vec<u8>>> = match taken {
        Option::Some(b) => if c.result_error {
            Some(Err(b))
        } else {
            Some(Ok(b))
        },
        Option::None => None,
    };
    k.contexts.entries.insert(i, c);
    proof {
        let ends = k.contexts.entries@;
        assert(ends =~= olds.update(i as int, ends[i as int]));
        assert forall|a: int, b: int| 0 <= a < b < ends.len() implies #[trigger] ends[a].id
            < #[trigger] ends[b].id by {
            assert(ends[a].id == olds[a].id);
            assert(ends[b].id == olds[b].id);
        }
        assert forall|a: int| 0 <= a < ends.len() implies 1 <= (#[trigger] ends[a]).id
            < crate::context::CONTEXT_MAX_CONTEXTS by {
            assert(ends[a].id == olds[a].id);
        }
        assert forall|a: int| 0 <= a < ends.len() implies kstack_ok(#[trigger] ends[a]) by {
            if a != i as int {
                assert(ends[a] == olds[a]);
            }
        }
        crate::context::lemma_sorted_index_unique(
            olds,
            old(k).contexts.index_of(k.current_id),
            i as int,
        );
    }
    result
}

/// Store an arrived reply on a parked context and wake it: the woken
/// caller always finds its result present; every other context keeps its
/// record, and a missing context changes nothing.
fn deliver_result(k: &mut Kernel, id: u64, payload: Vec<u8>, is_error: bool)
    requires
        old(k).wf(),
    ensures
        final(k).wf(),
        final(k).cache == old(k).cache,
        final(k).call_queue == old(k).call_queue,
        final(k).tx == old(k).tx,
        final(k).current_id == old(k).current_id,
        final(k).next_call_id == old(k).next_call_id,
        final(k).switch_lock == old(k).switch_lock,
        !old(k).contexts.contains_id(id) ==> *final(k) == *old(k),
        forall|id2: u64| final(k).contexts.contains_id(id2) <==> old(k).contexts.contains_id(
            id2,
        ),
        old(k).contexts.contains_id(id) ==> ({
            let before = old(k).contexts.entries@[old(k).contexts.index_of(id)];
            final(k).contexts.entries@[final(k).contexts.index_of(id)] == (Context {
                result: Some(payload),
                result_error: is_error,
                status: if before.status == Status::Blocked {
                    Status::Runnable
                } else {
                    before.status
                },
                ..before
            })
        }),
        forall|id2: u64| id2 != id && old(k).contexts.contains_id(id2) ==> final(k).contexts.entries@[final(k).contexts.index_of(id2)] == old(k).contexts.entries@[old(k).contexts.index_of(id2)],
{
    let i = match k.contexts.find(id) {
        Option::Some(i) => i,
        Option::None => {
            return;
        },
    };
    let ghost olds = k.contexts.entries@;
    let mut c = k.contexts.entries.remove(i);
    c.result = Some(payload);
    c.result_error = is_error;
    let _ = c.unblock();
    k.contexts.entries.insert(i, c);
    proof {
        let ends = k.contexts.entries@;
        assert(ends =~= olds.update(i as int, ends[i as int]));
        assert forall|a: int, b: int| 0 <= a < b < ends.len() implies #[trigger] ends[a].id
            < #[trigger] ends[b].id by {
            assert(ends[a].id == olds[a].id);
            assert(ends[b].id == olds[b].id);
        }
        assert forall|a: int| 0 <= a < ends.len() implies 1 <= (#[trigger] ends[a]).id
            < crate::context::CONTEXT_MAX_CONTEXTS by {
            assert(ends[a].id == olds[a].id);
        }
        assert forall|a: int| 0 <= a < ends.len() implies kstack_ok(#[trigger] ends[a]) by {
            if a != i as int {
                assert(ends[a] == olds[a]);
            }
        }
        crate::context::lemma_sorted_index_unique(
            olds,
            old(k).contexts.index_of(id),
            i as int,
        );
        assert(ends[i as int].id == id);
        assert(k.contexts.contains_id(id));
        crate::context::lemma_sorted_index_unique(ends, k.contexts.index_of(id), i as int);
        assert forall|id2: u64| k.contexts.contains_id(id2) <==> old(k).contexts.contains_id(
            id2,
        ) by {
            if k.contexts.contains_id(id2) {
                let w = choose|w: int| 0 <= w < ends.len() && (#[trigger] ends[w]).id == id2;
                assert(olds[w].id == id2);
            }
            if old(k).contexts.contains_id(id2) {
                let w = choose|w: int| 0 <= w < olds.len() && (#[trigger] olds[w]).id == id2;
                assert(ends[w].id == id2);
            }
        }
        assert forall|id2: u64| id2 != id && old(k).contexts.contains_id(id2) implies
            k.contexts.entries@[k.contexts.index_of(id2)] == olds[old(k).contexts.index_of(
            id2,
        )] by {
            let j = old(k).contexts.index_of(id2);
            assert(olds[j].id == id2);
            assert(ends[j].id == id2);
            crate::context::lemma_sorted_index_unique(ends, k.contexts.index_of(id2), j);
        }
    }
}

/// Send a Return frame echoing an inbound call id, with the encoded reply
/// payload.
pub fn fuse_reply(k: &mut Kernel, callid: CallId, payload: &[u8]) -> (r: Result<(), KError>)
    requires
        old(k).wf(),
        payload@.len() <= u32::MAX - IVSHRPC_HEADER_SIZE,
    ensures
        final(k).wf(),
        final(k).contexts == old(k).contexts,
        final(k).call_queue == old(k).call_queue,
        final(k).cache == old(k).cache,
        final(k).switch_lock == old(k).switch_lock,
        final(k).current_id == old(k).current_id,
        final(k).next_call_id == old(k).next_call_id,
        r is Ok <==> IVSHRPC_HEADER_SIZE + payload@.len() <= old(k).tx.spec_capacity() - old(k).tx.spec_size(),
        r is Ok ==> final(k).tx.stream() == old(k).tx.stream() + header_bytes(
            MsgHeader {
                msgtype: MsgType::Return.spec_to_u8(),
                length: payload@.len() as u32,
                callid,
            },
        ) + payload@,
        r is Err ==> final(k).tx == old(k).tx,
{
    if k.tx.free_space() < IVSHRPC_HEADER_SIZE + payload.len() {
        return Err(KError::Protocol);
    }
    write_msg(&mut k.tx, MsgType::Return, callid, payload);
    Ok(())
}

/// Send an Error frame echoing an inbound call id, carrying the error's
/// one-element message stream.
pub fn fuse_reply_error(k: &mut Kernel, callid: CallId, e: KError) -> (r: Result<(), KError>)
    requires
        old(k).wf(),
    ensures
        final(k).wf(),
        final(k).contexts == old(k).contexts,
        final(k).call_queue == old(k).call_queue,
        final(k).cache == old(k).cache,
        final(k).switch_lock == old(k).switch_lock,
        final(k).current_id == old(k).current_id,
        final(k).next_call_id == old(k).next_call_id,
        r is Ok <==> IVSHRPC_HEADER_SIZE + 14 + crate::error::spec_message_bytes(e).len() <= old(k).tx.spec_capacity() - old(k).tx.spec_size(),
        r is Ok ==> final(k).tx.stream() == old(k).tx.stream() + header_bytes(
            MsgHeader {
                msgtype: MsgType::Error.spec_to_u8(),
                length: (14 + crate::error::spec_message_bytes(e).len()) as u32,
                callid,
            },
        ) + enc_list(seq![crate::sos::SosData::Error(crate::error::spec_message_bytes(e))]),
        r is Err ==> final(k).tx == old(k).tx,
{
    let just = e.to_payload();
    let payload = just.encode();
    proof {
        lemma_enc_list_len(just.model());
    }
    if k.tx.free_space() < IVSHRPC_HEADER_SIZE + payload.len() {
        return Err(KError::Protocol);
    }
    write_msg(&mut k.tx, MsgType::Error, callid, payload.as_slice());
    Ok(())
}

/// What a consumed Return or Error frame does: a parked caller gets the
/// payload stored and is woken, and exactly its queue entry goes; a reply
/// for an unknown call id changes nothing at all.
pub open spec fn reply_step_ok(
    k0: Kernel,
    k1: Kernel,
    callid: CallId,
    payload: Seq<u8>,
    is_error: bool,
) -> bool {
    if k0.call_queue.spec_contains(callid) {
        let ctx = k0.call_queue.spec_lookup(callid);
        &&& !k1.call_queue.spec_contains(callid)
        &&& forall|c2: CallId| c2 != callid && k0.call_queue.spec_contains(c2)
            ==> k1.call_queue.spec_contains(c2) && k1.call_queue.spec_lookup(c2)
            == k0.call_queue.spec_lookup(c2)
        &&& forall|c2: CallId| k1.call_queue.spec_contains(c2) ==> k0.call_queue.spec_contains(
            c2,
        )
        &&& forall|id2: u64| k1.contexts.contains_id(id2) <==> k0.contexts.contains_id(id2)
        &&& (k0.contexts.contains_id(ctx) ==> ({
            let before = k0.contexts.entries@[k0.contexts.index_of(ctx)];
            &&& k1.contexts.entries@[k1.contexts.index_of(ctx)] == (Context {
                result: Some(k1.contexts.entries@[k1.contexts.index_of(ctx)].result->0),
                result_error: is_error,
                status: if before.status == Status::Blocked {
                    Status::Runnable
                } else {
                    before.status
                },
                ..before
            })
            &&& k1.contexts.entries@[k1.contexts.index_of(ctx)].result is Some
            &&& k1.contexts.entries@[k1.contexts.index_of(ctx)].result->0@ == payload
        }))
        &&& forall|id2: u64| id2 != ctx && k0.contexts.contains_id(id2)
            ==> k1.contexts.entries@[k1.contexts.index_of(id2)] == k0.contexts.entries@[
            k0.contexts.index_of(id2)
        ]
        &&& k1.tx == k0.tx
        &&& k1.current_id == k0.current_id
        &&& k1.next_call_id == k0.next_call_id
    } else {
        k1 == k0
    }
}

/// What a consumed Fuse frame does: the contexts and the call queue are
/// untouched; either the frame came back as work for user code carrying
/// the inbound call id and payload, or a reply was owed - it went out
/// echoing that call id exactly when it fit the transmit ring and its
/// payload fit the length field, and the ring is untouched only when it
/// did not.
pub open spec fn fuse_step_ok(
    k0: Kernel,
    k1: Kernel,
    callid: CallId,
    payload: Seq<u8>,
    w0: Seq<RemoteWork>,
    w1: Seq<RemoteWork>,
) -> bool {
    &&& k1.contexts == k0.contexts
    &&& k1.call_queue == k0.call_queue
    &&& k1.current_id == k0.current_id
    &&& k1.next_call_id == k0.next_call_id
    &&& ({
        ||| (w1.len() == w0.len() + 1 && w1.take(w0.len() as int) == w0 && w1.last().callid
            == callid && w1.last().payload@ == payload && k1.tx == k0.tx)
        ||| (w1 == w0 && exists|mt: u8, p: Seq<u8>|
            (mt == MsgType::Return.spec_to_u8() || mt == MsgType::Error.spec_to_u8()) && ((
            k1.tx.stream() == k0.tx.stream() + #[trigger] header_bytes(
                MsgHeader { msgtype: mt, length: p.len() as u32, callid },
            ) + p && IVSHRPC_HEADER_SIZE + p.len() <= k0.tx.spec_capacity()
                - k0.tx.spec_size()) || (k1.tx == k0.tx && (IVSHRPC_HEADER_SIZE + p.len()
                > k0.tx.spec_capacity() - k0.tx.spec_size() || p.len() > 0xFFFF))))
    })
}

/// What a consumed Cast frame does: every existing context keeps its
/// record (a new cast callee may be enqueued), the call queue and the
/// current context are untouched, and a failure is answered with an Error
/// frame echoing the call id, which fit the transmit ring; the ring is
/// untouched when the cast dispatched cleanly - no reply is owed then - or
/// when the owed error frame did not fit.
pub open spec fn cast_step_ok(k0: Kernel, k1: Kernel, callid: CallId) -> bool {
    &&& k1.call_queue == k0.call_queue
    &&& k1.current_id == k0.current_id
    &&& forall|id2: u64| k0.contexts.contains_id(id2) ==> k1.contexts.contains_id(id2)
        && k1.contexts.entries@[k1.contexts.index_of(id2)] == k0.contexts.entries@[
        k0.contexts.index_of(id2)
    ]
    &&& (k1.tx == k0.tx || exists|p: Seq<u8>| k1.tx.stream() == k0.tx.stream()
        + #[trigger] header_bytes(
        MsgHeader { msgtype: MsgType::Error.spec_to_u8(), length: p.len() as u32, callid },
    ) + p && IVSHRPC_HEADER_SIZE + p.len() <= k0.tx.spec_capacity() - k0.tx.spec_size())
}

/// Consume and dispatch one inbound frame, if a whole one is pending.
/// Per frame: a Return or Error reaches exactly the parked caller its call
/// id names - an unknown id is discarded without any effect; a Fuse for
/// the kernel's own module is answered in place echoing the call id, one
/// for a loaded module becomes work for user code; a Cast is dispatched
/// locally and only a failure is answered; an unknown message type spoils
/// only its own frame.
pub fn isr_step(k: &mut Kernel, rx: &mut Ring, work: &mut Vec<RemoteWork>) -> (processed: bool)
    requires
        old(k).wf(),
        old(rx).wf(),
        module_images_ok(old(k).cache),
    ensures
        final(k).wf(),
        final(rx).wf(),
        final(k).cache == old(k).cache,
        final(k).switch_lock == old(k).switch_lock,
        final(rx).stream() == old(rx).stream(),
        !processed ==> *final(k) == *old(k) && final(work)@ == old(work)@ && ((*final(rx)
            == *old(rx) && old(rx).spec_size() < IVSHRPC_HEADER_SIZE) || (old(rx).spec_size()
            >= IVSHRPC_HEADER_SIZE && final(rx).contents() == old(rx).contents().skip(13)
            && final(rx).stream_read() == old(rx).stream_read() + IVSHRPC_HEADER_SIZE
            && IVSHRPC_HEADER_SIZE + spec_u32_from_le_bytes(old(rx).contents().subrange(1, 5))
            > old(rx).spec_size())),
        processed ==> old(rx).spec_size() >= IVSHRPC_HEADER_SIZE && final(rx).spec_size() < old(
            rx,
        ).spec_size() && ({
            let c = old(rx).contents();
            let t = c[0];
            let len = spec_u32_from_le_bytes(c.subrange(1, 5)) as int;
            let callid = spec_u64_from_le_bytes(c.subrange(5, 13));
            let payload = c.subrange(13, 13 + len);
            &&& ((t == MsgType::Return.spec_to_u8() || t == MsgType::Error.spec_to_u8())
                ==> reply_step_ok(
                *old(k),
                *final(k),
                callid,
                payload,
                t == MsgType::Error.spec_to_u8(),
            ) && final(work)@ == old(work)@)
            &&& (t == MsgType::Fuse.spec_to_u8() ==> fuse_step_ok(
                *old(k),
                *final(k),
                callid,
                payload,
                old(work)@,
                final(work)@,
            ))
            &&& (t == MsgType::Cast.spec_to_u8() ==> cast_step_ok(*old(k), *final(k), callid)
                && final(work)@ == old(work)@)
            &&& (t > 3 ==> *final(k) == *old(k) && final(work)@ == old(work)@)
        }),
{
    let ghost pre = *rx;
    let (header, payload) = match read_frame(rx, 1000) {
        Option::Some(f) => f,
        Option::None => {
            return false;
        },
    };
    proof {
        crate::ring::lemma_contents_size(pre);
        crate::ring::lemma_contents_size(*rx);
    }
    match MsgType::from_u8(header.msgtype) {
        Option::Some(MsgType::Return) | Option::Some(MsgType::Error) => {
            let ghost qk = *k;
            let parked = k.call_queue.remove(header.callid);
            proof {
                assert(crate::rpc::queue_bounded(qk.call_queue.entries@, qk.next_call_id));
            }
            let is_err = header.msgtype == MsgType::Error.to_u8();
            match parked {
                Option::Some(context_id) => {
                    deliver_result(k, context_id, payload, is_err);
                },
                Option::None => {
                    // A reply for an unknown call id: discarded; no other
                    // call is affected.
                    proof {
                        assert(*k == qk);
                    }
                },
            }
        },
        Option::Some(MsgType::Fuse) => {
            handle_remote_fuse(k, header.callid, payload.as_slice(), work);
        },
        Option::Some(MsgType::Cast) => {
            if payload.len() < crate::call::CALL_ARGS_MAX - 9 {
                match sys_cast(k, payload.as_slice()) {
                    Result::Ok(_) => {},
                    Result::Err(e) => {
                        let ghost mid = *k;
                        let _ = fuse_reply_error(k, header.callid, e);
                        proof {
                            lemma_error_frame_witness(mid, *k, header.callid, e);
                        }
                    },
                }
            } else {
                let ghost mid = *k;
                let _ = fuse_reply_error(k, header.callid, KError::Protocol);
                proof {
                    lemma_error_frame_witness(mid, *k, header.callid, KError::Protocol);
                }
            }
        },
        Option::None => {
            // An unknown message type is fatal for this frame only.
        },
    }
    true
}

/// The interrupt path: drain the inbound ring frame by frame through
/// `isr_step`, which fixes exactly what each frame does, and hand back the
/// inbound fuses that user code must run.
pub fn isr(k: &mut Kernel, rx: &mut Ring) -> (work: Vec<RemoteWork>)
    requires
        old(k).wf(),
        old(rx).wf(),
        module_images_ok(old(k).cache),
    ensures
        final(k).wf(),
        final(rx).wf(),
        final(k).cache == old(k).cache,
        final(k).switch_lock == old(k).switch_lock,
        final(rx).spec_size() < IVSHRPC_HEADER_SIZE || ({
            let p = final(rx).stream_read() - IVSHRPC_HEADER_SIZE;
            &&& final(rx).stream_read() >= IVSHRPC_HEADER_SIZE
            &&& IVSHRPC_HEADER_SIZE + spec_u32_from_le_bytes(
                final(rx).stream().subrange(p + 1, p + 5),
            ) > final(rx).stream().len() - p
        }),
{
    let mut work: Vec<RemoteWork> = Vec::new();
    loop
        invariant_except_break
            k.wf(),
            rx.wf(),
            k.cache == old(k).cache,
            k.switch_lock == old(k).switch_lock,
            module_images_ok(k.cache),
        ensures
            k.wf(),
            rx.wf(),
            k.cache == old(k).cache,
            k.switch_lock == old(k).switch_lock,
            rx.spec_size() < IVSHRPC_HEADER_SIZE || ({
                let p = rx.stream_read() - IVSHRPC_HEADER_SIZE;
                &&& rx.stream_read() >= IVSHRPC_HEADER_SIZE
                &&& IVSHRPC_HEADER_SIZE + spec_u32_from_le_bytes(
                    rx.stream().subrange(p + 1, p + 5),
                ) > rx.stream().len() - p
            }),
        decreases rx.spec_size(),
    {
        let ghost pre = *rx;
        let processed = isr_step(k, rx, &mut work);
        if !processed {
            proof {
                crate::ring::lemma_contents_size(pre);
                crate::ring::lemma_contents_size(*rx);
                crate::ring::lemma_reader_observes_prefix(pre);
                crate::ring::lemma_reader_observes_prefix(*rx);
                if pre.spec_size() >= IVSHRPC_HEADER_SIZE {
                    let p = pre.stream_read() as int;
                    assert(pre.contents().subrange(1, 5) =~= pre.stream().subrange(
                        p + 1,
                        p + 5,
                    ));
                    assert(pre.stream().len() - p == pre.spec_size());
                }
            }
            break;
        }
        proof {
            assert(rx.spec_size() < pre.spec_size());
        }
    }
    work
}

/// Dispatch one inbound fuse: resolve the named function; the kernel's own
/// module is run in place and answered at once, echoing the inbound call
/// id; a loaded module becomes work for user code.
fn handle_remote_fuse(k: &mut Kernel, callid: CallId, payload: &[u8], work: &mut Vec<RemoteWork>)
    requires
        old(k).wf(),
        module_images_ok(old(k).cache),
    ensures
        final(k).wf(),
        final(k).cache == old(k).cache,
        final(k).switch_lock == old(k).switch_lock,
        module_images_ok(final(k).cache),
        fuse_step_ok(*old(k), *final(k), callid, payload@, old(work)@, final(work)@),
{
    let mut it = match decode_sos(payload) {
        Option::Some(it) => it,
        Option::None => {
            let ghost mid = *k;
            let _ = fuse_reply_error(k, callid, KError::Protocol);
            proof {
                lemma_error_step(mid, *k, callid, KError::Protocol, payload@, work@);
            }
            return;
        },
    };
    let first = match it.next() {
        Option::Some(v) => v,
        Option::None => {
            let ghost mid = *k;
            let _ = fuse_reply_error(k, callid, KError::NotEnoughArguments);
            proof {
                lemma_error_step(mid, *k, callid, KError::NotEnoughArguments, payload@, work@);
            }
            return;
        },
    };
    let function = match first.into_function() {
        Result::Ok(f) => f,
        Result::Err(_) => {
            let ghost mid = *k;
            let _ = fuse_reply_error(k, callid, KError::BadArgumentType);
            proof {
                lemma_error_step(mid, *k, callid, KError::BadArgumentType, payload@, work@);
            }
            return;
        },
    };
    let module = match k.cache.cached_module(function.module.as_slice()) {
        Option::Some(m) => m,
        Option::None => {
            let ghost mid = *k;
            let _ = fuse_reply_error(k, callid, KError::NoSuchModule);
            proof {
                lemma_error_step(mid, *k, callid, KError::NoSuchModule, payload@, work@);
            }
            return;
        },
    };
    if module == KERNEL_MODULE {
        let f = {
            let m = match k.cache.get(module) {
                Option::Some(m) => m,
                Option::None => {
                    let ghost mid = *k;
                    let _ = fuse_reply_error(k, callid, KError::NoSuchModule);
                    proof {
                        lemma_error_step(mid, *k, callid, KError::NoSuchModule, payload@, work@);
                    }
                    return;
                },
            };
            match m.function(function.name.as_slice()) {
                Option::Some(f) => f,
                Option::None => {
                    let ghost mid = *k;
                    let _ = fuse_reply_error(k, callid, KError::NoSuchFunction);
                    proof {
                        lemma_error_step(mid, *k, callid, KError::NoSuchFunction, payload@, work@);
                    }
                    return;
                },
            }
        };
        let mut rest: Vec<Value> = Vec::new();
        loop
            invariant
                it.wf(),
            decreases it.spec_count(),
        {
            match it.next() {
                Option::Some(v) => {
                    rest.push(v);
                },
                Option::None => {
                    break;
                },
            }
        }
        match kernel_call(f, rest) {
            Result::Ok(vs) => {
                let encoded = encode_sos(vs.as_slice());
                let ghost mid = *k;
                if encoded.len() <= 0xFFFF {
                    let sent = fuse_reply(k, callid, encoded.as_slice());
                    proof {
                        let p = encoded@;
                        let h = header_bytes(
                            MsgHeader {
                                msgtype: MsgType::Return.spec_to_u8(),
                                length: p.len() as u32,
                                callid,
                            },
                        );
                        // Name the frame so the existential can pick it.
                        assert(h == h);
                        if sent is Ok {
                            assert(k.tx.stream() == mid.tx.stream() + h + p
                                && IVSHRPC_HEADER_SIZE + p.len() <= mid.tx.spec_capacity()
                                - mid.tx.spec_size());
                        } else {
                            assert(k.tx == mid.tx && IVSHRPC_HEADER_SIZE + p.len()
                                > mid.tx.spec_capacity() - mid.tx.spec_size());
                        }
                    }
                } else {
                    proof {
                        let p = encoded@;
                        let h = header_bytes(
                            MsgHeader {
                                msgtype: MsgType::Return.spec_to_u8(),
                                length: p.len() as u32,
                                callid,
                            },
                        );
                        // Name the frame so the existential can pick it.
                        assert(h == h);
                        assert(k.tx == mid.tx && p.len() > 0xFFFF);
                    }
                }
            },
            Result::Err(e) => {
                let ghost mid = *k;
                let _ = fuse_reply_error(k, callid, e);
                proof {
                    lemma_error_step(mid, *k, callid, e, payload@, work@);
                }
            },
        }
        return;
    }
    // A loaded module: hand the frame out; user code runs it and the reply
    // echoes this call id.
    let ghost w0 = work@;
    work.push(RemoteWork { callid, payload: vstd::slice::slice_to_vec(payload) });
    proof {
        assert(work@.take(w0.len() as int) =~= w0);
    }
}

/// An Error frame with a known kind instantiates the any-payload shape:
/// sent and fitting when there was room, the ring untouched when not.
proof fn lemma_error_frame_witness(k0: Kernel, k1: Kernel, callid: CallId, e: KError)
    requires
        IVSHRPC_HEADER_SIZE + 14 + crate::error::spec_message_bytes(e).len()
            <= k0.tx.spec_capacity() - k0.tx.spec_size() ==> k1.tx.stream() == k0.tx.stream()
            + header_bytes(
            MsgHeader {
                msgtype: MsgType::Error.spec_to_u8(),
                length: (14 + crate::error::spec_message_bytes(e).len()) as u32,
                callid,
            },
        ) + enc_list(seq![crate::sos::SosData::Error(crate::error::spec_message_bytes(e))]),
        IVSHRPC_HEADER_SIZE + 14 + crate::error::spec_message_bytes(e).len()
            > k0.tx.spec_capacity() - k0.tx.spec_size() ==> k1.tx == k0.tx,
    ensures
        exists|p: Seq<u8>| (k1.tx.stream() == k0.tx.stream() + #[trigger] header_bytes(
            MsgHeader { msgtype: MsgType::Error.spec_to_u8(), length: p.len() as u32, callid },
        ) + p && IVSHRPC_HEADER_SIZE + p.len() <= k0.tx.spec_capacity() - k0.tx.spec_size())
            || (k1.tx == k0.tx && IVSHRPC_HEADER_SIZE + p.len() > k0.tx.spec_capacity()
            - k0.tx.spec_size()),
        exists|mt: u8, p: Seq<u8>| (mt == MsgType::Return.spec_to_u8() || mt
            == MsgType::Error.spec_to_u8()) && ((k1.tx.stream() == k0.tx.stream()
            + #[trigger] header_bytes(MsgHeader { msgtype: mt, length: p.len() as u32, callid })
            + p && IVSHRPC_HEADER_SIZE + p.len() <= k0.tx.spec_capacity() - k0.tx.spec_size())
            || (k1.tx == k0.tx && (IVSHRPC_HEADER_SIZE + p.len() > k0.tx.spec_capacity()
            - k0.tx.spec_size() || p.len() > 0xFFFF))),
{
    let eb = crate::error::spec_message_bytes(e);
    let p = enc_list(seq![crate::sos::SosData::Error(eb)]);
    crate::sos::lemma_enc_list_len(seq![crate::sos::SosData::Error(eb)]);
    assert(p.len() == 14 + eb.len());
    let h = header_bytes(
        MsgHeader { msgtype: MsgType::Error.spec_to_u8(), length: p.len() as u32, callid },
    );
    // Name the frame so the existential can pick it.
    assert(h == h);
    if IVSHRPC_HEADER_SIZE + 14 + eb.len() <= k0.tx.spec_capacity() - k0.tx.spec_size() {
        assert(k1.tx.stream() == k0.tx.stream() + h + p && IVSHRPC_HEADER_SIZE + p.len()
            <= k0.tx.spec_capacity() - k0.tx.spec_size());
    } else {
        assert(k1.tx == k0.tx && IVSHRPC_HEADER_SIZE + p.len() > k0.tx.spec_capacity()
            - k0.tx.spec_size());
    }
}

/// The same witness, packaged as one whole fuse step: the kernel state but
/// the ring untouched, the owed Error reply sent exactly when it fit.
proof fn lemma_error_step(
    k0: Kernel,
    k1: Kernel,
    callid: CallId,
    e: KError,
    payload: Seq<u8>,
    w: Seq<RemoteWork>,
)
    requires
        IVSHRPC_HEADER_SIZE + 14 + crate::error::spec_message_bytes(e).len()
            <= k0.tx.spec_capacity() - k0.tx.spec_size() ==> k1.tx.stream() == k0.tx.stream()
            + header_bytes(
            MsgHeader {
                msgtype: MsgType::Error.spec_to_u8(),
                length: (14 + crate::error::spec_message_bytes(e).len()) as u32,
                callid,
            },
        ) + enc_list(seq![crate::sos::SosData::Error(crate::error::spec_message_bytes(e))]),
        IVSHRPC_HEADER_SIZE + 14 + crate::error::spec_message_bytes(e).len()
            > k0.tx.spec_capacity() - k0.tx.spec_size() ==> k1.tx == k0.tx,
        k1.contexts == k0.contexts,
        k1.call_queue == k0.call_queue,
        k1.current_id == k0.current_id,
        k1.next_call_id == k0.next_call_id,
    ensures
        fuse_step_ok(k0, k1, callid, payload, w, w),
{
    let eb = crate::error::spec_message_bytes(e);
    let p = enc_list(seq![crate::sos::SosData::Error(eb)]);
    crate::sos::lemma_enc_list_len(seq![crate::sos::SosData::Error(eb)]);
    assert(p.len() == 14 + eb.len());
    let mt = MsgType::Error.spec_to_u8();
    let h = header_bytes(MsgHeader { msgtype: mt, length: p.len() as u32, callid });
    if IVSHRPC_HEADER_SIZE + 14 + eb.len() <= k0.tx.spec_capacity() - k0.tx.spec_size() {
        assert((mt == MsgType::Return.spec_to_u8() || mt == MsgType::Error.spec_to_u8()) && ((
        k1.tx.stream() == k0.tx.stream() + h + p && IVSHRPC_HEADER_SIZE + p.len()
            <= k0.tx.spec_capacity() - k0.tx.spec_size()) || (k1.tx == k0.tx && (
        IVSHRPC_HEADER_SIZE + p.len() > k0.tx.spec_capacity() - k0.tx.spec_size() || p.len()
            > 0xFFFF))));
    } else {
        assert((mt == MsgType::Return.spec_to_u8() || mt == MsgType::Error.spec_to_u8()) && ((
        k1.tx.stream() == k0.tx.stream() + h + p && IVSHRPC_HEADER_SIZE + p.len()
            <= k0.tx.spec_capacity() - k0.tx.spec_size()) || (k1.tx == k0.tx && (
        IVSHRPC_HEADER_SIZE + p.len() > k0.tx.spec_capacity() - k0.tx.spec_size() || p.len()
            > 0xFFFF))));
    }
}

} // verus!
