//! The host daemon's dispatch core: its wire contract with the kernel.
//!
//! The host registers functions as cast-only or fuse-only endpoints.  An
//! inbound frame names a function in its first value; dispatch resolves it
//! and checks the call kind against the endpoint kind - a fuse aimed at a
//! cast-only endpoint, or a cast aimed at a fuse-only one, is refused.
//! What the handler itself computes is the host program's business; the
//! decision of which handler runs, and every failure answer, is decided
//! here.

use vstd::prelude::*;
use crate::error::KError;
use crate::loader::bytes_eq;
use crate::ring::Ring;
use crate::rpc::{MsgType, MsgHeader, CallId, write_msg, header_bytes, IVSHRPC_HEADER_SIZE};
use crate::sos::{decode_sos, dec_list, dec_prefix, dv_data, SosData};

verus! {

/// One registered host endpoint: the function it answers to and whether it
/// is fuse-only (it returns a payload) or cast-only (it returns nothing).
pub struct HostEndpoint {
    pub module: Vec<u8>,
    pub name: Vec<u8>,
    pub fuse_only: bool,
}

/// The host's function registry.
pub struct HostTable {
    pub entries: Vec<HostEndpoint>,
}

/// First registry index answering to `module::name`.
pub open spec fn host_lookup(t: Seq<HostEndpoint>, module: Seq<u8>, name: Seq<u8>) -> Option<
    int,
>
    decreases t.len(),
{
    if t.len() == 0 {
        None
    } else if t[0].module@ == module && t[0].name@ == name {
        Some(0)
    } else {
        match host_lookup(t.skip(1), module, name) {
            Some(i) => Some(i + 1),
            None => None,
        }
    }
}

proof fn lemma_host_lookup_step(t: Seq<HostEndpoint>, module: Seq<u8>, name: Seq<u8>, i: int)
    requires
        0 <= i <= t.len(),
        forall|j: int| 0 <= j < i ==> !((#[trigger] t[j]).module@ == module && t[j].name@
            == name),
    ensures
        host_lookup(t, module, name) == match host_lookup(t.skip(i), module, name) {
            Some(w) => Some(w + i),
            None => None::<int>,
        },
    decreases i,
{
    if i == 0 {
        assert(t.skip(0) =~= t);
    } else {
        lemma_host_lookup_step(t, module, name, i - 1);
        assert(t.skip(i - 1).len() > 0);
        assert(t.skip(i - 1)[0] == t[i - 1]);
        assert(t.skip(i - 1).skip(1) =~= t.skip(i));
    }
}

impl HostTable {
    /// Index of the endpoint answering to `module::name`, if any.
    pub fn find(&self, module: &[u8], name: &[u8]) -> (r: Option<usize>)
        ensures
            match r {
                Some(i) => host_lookup(self.entries@, module@, name@) == Some(i as int),
                None => host_lookup(self.entries@, module@, name@) is None,
            },
    {
        let n = self.entries.len();
        let mut i: usize = 0;
        while i < n
            invariant
                i <= n,
                n == self.entries@.len(),
                forall|j: int| 0 <= j < i ==> !((#[trigger] self.entries@[j]).module@ == module@
                    && self.entries@[j].name@ == name@),
            decreases n - i,
        {
            let e = vstd::std_specs::vec::vec_index(&self.entries, i);
            if bytes_eq(e.module.as_slice(), module) && bytes_eq(e.name.as_slice(), name) {
                proof {
                    lemma_host_lookup_step(self.entries@, module@, name@, i as int);
                    assert(self.entries@.skip(i as int)[0] == self.entries@[i as int]);
                }
                return Some(i);
            }
            i = i + 1;
        }
        proof {
            lemma_host_lookup_step(self.entries@, module@, name@, n as int);
        }
        None
    }
}

/// The decision the registry prescribes for an inbound frame: the exact
/// failure for a malformed stream, a missing first value, a first value
/// that is not a function, an unknown function, and a kind mismatch in
/// either direction - and otherwise the handler to run.
pub open spec fn dispatch_spec(t: Seq<HostEndpoint>, args: Seq<u8>, fuse: bool) -> Result<
    int,
    KError,
> {
    match dec_list(args) {
        None => Err(KError::Protocol),
        Some(vals) => if vals.len() == 0 {
            Err(KError::NotEnoughArguments)
        } else {
            match vals[0] {
                SosData::Function(m, n) => match host_lookup(t, m, n) {
                    None => Err(KError::NoSuchFunction),
                    Some(i) => if fuse {
                        if t[i].fuse_only {
                            Ok(i)
                        } else {
                            Err(KError::FuseOnCastOnly)
                        }
                    } else {
                        if t[i].fuse_only {
                            Err(KError::CastOnFuseOnly)
                        } else {
                            Ok(i)
                        }
                    },
                },
                _ => Err(KError::BadArgumentType),
            }
        },
    }
}

/// Resolve an inbound frame to the handler that must run: exactly the
/// decision `dispatch_spec` prescribes.
pub fn dispatch(table: &HostTable, args: &[u8], fuse: bool) -> (r: Result<usize, KError>)
    ensures
        dispatch_spec(table.entries@, args@, fuse) matches Ok(i) ==> r == Ok::<usize, KError>(
            i as usize,
        ),
        dispatch_spec(table.entries@, args@, fuse) matches Err(e) ==> r == Err::<usize, KError>(
            e,
        ),
        r matches Ok(i) ==> i < table.entries@.len() && table.entries@[i as int].fuse_only
            == fuse,
        crate::sos::dec_list(args@) is None ==> r == Err::<usize, KError>(KError::Protocol),
{
    let mut it = match decode_sos(args) {
        Option::Some(it) => it,
        Option::None => {
            return Err(KError::Protocol);
        },
    };
    let ghost vals = dec_list(args@)->0;
    let ghost rem0 = it.remaining();
    let ghost c0 = it.spec_count();
    let first = match it.next() {
        Option::Some(v) => v,
        Option::None => {
            proof {
                assert(dec_prefix(rem0, c0).len() == 0);
            }
            return Err(KError::NotEnoughArguments);
        },
    };
    proof {
        assert(dec_prefix(rem0, c0) == seq![dv_data(rem0)] + dec_prefix(
            it.remaining(),
            it.spec_count(),
        ));
        assert(vals.len() > 0 && vals[0] == crate::sos::dview(first));
    }
    let function = match first.into_function() {
        Result::Ok(f) => f,
        Result::Err(_) => {
            return Err(KError::BadArgumentType);
        },
    };
    let i = match table.find(function.module.as_slice(), function.name.as_slice()) {
        Option::Some(i) => i,
        Option::None => {
            return Err(KError::NoSuchFunction);
        },
    };
    proof {
        lemma_host_lookup_in_range(table.entries@, function.module@, function.name@);
    }
    let e = vstd::std_specs::vec::vec_index(&table.entries, i);
    if fuse {
        if !e.fuse_only {
            return Err(KError::FuseOnCastOnly);
        }
        Ok(i)
    } else {
        if e.fuse_only {
            return Err(KError::CastOnFuseOnly);
        }
        Ok(i)
    }
}

/// A found index is inside the registry.
proof fn lemma_host_lookup_in_range(t: Seq<HostEndpoint>, module: Seq<u8>, name: Seq<u8>)
    ensures
        host_lookup(t, module, name) matches Some(i) ==> 0 <= i < t.len(),
    decreases t.len(),
{
    if t.len() > 0 {
        lemma_host_lookup_in_range(t.skip(1), module, name);
    }
}

/// Dispatch an inbound fuse frame; on failure, answer with an Error frame
/// echoing the call id.  On success the chosen handler's index comes back,
/// and the host sends the handler's payload as a Return frame itself.
pub fn handle_fuse(producer: &mut Ring, table: &HostTable, callid: CallId, args: &[u8]) -> (r:
    Result<usize, KError>)
    requires
        old(producer).wf(),
    ensures
        final(producer).wf(),
        dispatch_spec(table.entries@, args@, true) matches Ok(i) ==> r == Ok::<usize, KError>(
            i as usize,
        ),
        dispatch_spec(table.entries@, args@, true) matches Err(e) ==> r == Err::<usize, KError>(
            e,
        ),
        r matches Ok(i) ==> i < table.entries@.len() && table.entries@[i as int].fuse_only
            && *final(producer) == *old(producer),
        // A failure is answered with an Error frame echoing the call id,
        // when the ring has room for it.
        r matches Err(e) ==> ({
            let p = crate::sos::enc_list(
                seq![crate::sos::SosData::Error(crate::error::spec_message_bytes(e))],
            );
            if IVSHRPC_HEADER_SIZE + p.len() <= old(producer).spec_capacity() - old(
                producer,
            ).spec_size() {
                final(producer).stream() == old(producer).stream() + header_bytes(
                    MsgHeader {
                        msgtype: MsgType::Error.spec_to_u8(),
                        length: p.len() as u32,
                        callid,
                    },
                ) + p
            } else {
                *final(producer) == *old(producer)
            }
        }),
{
    match dispatch(table, args, true) {
        Result::Ok(i) => Ok(i),
        Result::Err(e) => {
            let just = e.to_payload();
            let payload = just.encode();
            proof {
                crate::sos::lemma_enc_list_len(just.model());
            }
            if payload.len() <= 0xFFFF && producer.free_space() >= IVSHRPC_HEADER_SIZE
                + payload.len() {
                write_msg(producer, MsgType::Error, callid, payload.as_slice());
            }
            Err(e)
        },
    }
}

/// Dispatch an inbound cast frame; on failure, answer with an Error frame.
/// A cast returns nothing on success.
pub fn handle_cast(producer: &mut Ring, table: &HostTable, callid: CallId, args: &[u8]) -> (r:
    Result<usize, KError>)
    requires
        old(producer).wf(),
    ensures
        final(producer).wf(),
        dispatch_spec(table.entries@, args@, false) matches Ok(i) ==> r == Ok::<usize, KError>(
            i as usize,
        ),
        dispatch_spec(table.entries@, args@, false) matches Err(e) ==> r == Err::<
            usize,
            KError,
        >(e),
        r matches Ok(i) ==> i < table.entries@.len() && !table.entries@[i as int].fuse_only
            && *final(producer) == *old(producer),
        // A failure is answered with an Error frame echoing the call id,
        // when the ring has room for it.
        r matches Err(e) ==> ({
            let p = crate::sos::enc_list(
                seq![crate::sos::SosData::Error(crate::error::spec_message_bytes(e))],
            );
            if IVSHRPC_HEADER_SIZE + p.len() <= old(producer).spec_capacity() - old(
                producer,
            ).spec_size() {
                final(producer).stream() == old(producer).stream() + header_bytes(
                    MsgHeader {
                        msgtype: MsgType::Error.spec_to_u8(),
                        length: p.len() as u32,
                        callid,
                    },
                ) + p
            } else {
                *final(producer) == *old(producer)
            }
        }),
{
    match dispatch(table, args, false) {
        Result::Ok(i) => Ok(i),
        Result::Err(e) => {
            let just = e.to_payload();
            let payload = just.encode();
            proof {
                crate::sos::lemma_enc_list_len(just.model());
            }
            if payload.len() <= 0xFFFF && producer.free_space() >= IVSHRPC_HEADER_SIZE
                + payload.len() {
                write_msg(producer, MsgType::Error, callid, payload.as_slice());
            }
            Err(e)
        },
    }
}

} // verus!
