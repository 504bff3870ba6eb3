//! Framing for the shared-memory RPC channel.
//!
//! A message is a 13-byte header - type, payload length, call id, all
//! little-endian - followed by the payload, an encoded value stream.  The
//! sender frames header and payload in a single ring transaction; the
//! receiver takes the header, then the payload.  A fuse sender parks its
//! caller in the call queue under a fresh call id until the matching Return
//! or Error arrives.

use vstd::prelude::*;
use vstd::bytes::{spec_u32_from_le_bytes, spec_u32_to_le_bytes, spec_u64_from_le_bytes,
    spec_u64_to_le_bytes, u32_from_le_bytes, u32_to_le_bytes, u64_from_le_bytes, u64_to_le_bytes};
use vstd::slice::slice_subrange;
use crate::ring::Ring;

verus! {

/// Size in bytes of each peer's half of the shared region.
pub const BUFFER_SIZE: usize = 0x400000;

/// Correlates a fuse request with its eventual reply.
pub type CallId = u64;

/// Bytes of a message header on the wire.
pub const IVSHRPC_HEADER_SIZE: usize = 13;

/// The four message kinds of the transport.
#[derive(Debug, Clone, Copy, PartialEq, Eq, Structural)]
pub enum MsgType {
    Cast,
    Fuse,
    Return,
    Error,
}

impl MsgType {
    /// Wire value of this kind.
    pub open spec fn spec_to_u8(self) -> u8 {
        match self {
            MsgType::Cast => 0,
            MsgType::Fuse => 1,
            MsgType::Return => 2,
            MsgType::Error => 3,
        }
    }

    pub fn to_u8(self) -> (v: u8)
        ensures
            v == self.spec_to_u8(),
    {
        match self {
            MsgType::Cast => 0,
            MsgType::Fuse => 1,
            MsgType::Return => 2,
            MsgType::Error => 3,
        }
    }

    /// The kind a wire value names, if any.
    pub fn from_u8(v: u8) -> (r: Option<MsgType>)
        ensures
            v == 0 ==> r == Some(MsgType::Cast),
            v == 1 ==> r == Some(MsgType::Fuse),
            v == 2 ==> r == Some(MsgType::Return),
            v == 3 ==> r == Some(MsgType::Error),
            v > 3 ==> r is None,
            r is Some ==> r->0.spec_to_u8() == v,
    {
        match v {
            0 => Some(MsgType::Cast),
            1 => Some(MsgType::Fuse),
            2 => Some(MsgType::Return),
            3 => Some(MsgType::Error),
            _ => None,
        }
    }
}

/// The transport header: message kind, payload length, call id.
#[derive(Debug, Clone, Copy, PartialEq, Eq, Structural)]
pub struct MsgHeader {
    pub msgtype: u8,
    pub length: u32,
    pub callid: CallId,
}

/// The thirteen bytes a header occupies on the wire.
pub open spec fn header_bytes(h: MsgHeader) -> Seq<u8> {
    seq![h.msgtype] + spec_u32_to_le_bytes(h.length) + spec_u64_to_le_bytes(h.callid)
}

impl MsgHeader {
    /// A header of the given kind and call id; the length is filled in at
    /// send time.
    pub fn new(msgtype: MsgType, callid: CallId) -> (h: MsgHeader)
        ensures
            h.msgtype == msgtype.spec_to_u8(),
            h.length == 0,
            h.callid == callid,
    {
        MsgHeader { msgtype: msgtype.to_u8(), length: 0, callid }
    }

    /// Read a header back from its thirteen wire bytes.
    pub fn from_slice(h: &[u8]) -> (r: MsgHeader)
        requires
            h@.len() == IVSHRPC_HEADER_SIZE,
        ensures
            r.msgtype == h@[0],
            r.length == spec_u32_from_le_bytes(h@.subrange(1, 5)),
            r.callid == spec_u64_from_le_bytes(h@.subrange(5, 13)),
    {
        let msgtype = *vstd::slice::slice_index_get(h, 0);
        let length = u32_from_le_bytes(slice_subrange(h, 1, 5));
        let callid = u64_from_le_bytes(slice_subrange(h, 5, 13));
        MsgHeader { msgtype, length, callid }
    }

    /// The header's wire bytes.
    pub fn to_slice(&self) -> (out: Vec<u8>)
        ensures
            out@ == header_bytes(*self),
            out@.len() == IVSHRPC_HEADER_SIZE,
    {
        let mut out: Vec<u8> = Vec::new();
        out.push(self.msgtype);
        let mut lb = u32_to_le_bytes(self.length);
        out.append(&mut lb);
        let mut cb = u64_to_le_bytes(self.callid);
        out.append(&mut cb);
        proof {
            vstd::bytes::lemma_auto_spec_u32_to_from_le_bytes();
            vstd::bytes::lemma_auto_spec_u64_to_from_le_bytes();
            assert(out@ =~= header_bytes(*self));
        }
        out
    }
}

/// A header written and read back is the same header.
pub proof fn lemma_header_round_trip(h: MsgHeader)
    ensures
        header_bytes(h).len() == IVSHRPC_HEADER_SIZE,
        header_bytes(h)[0] == h.msgtype,
        spec_u32_from_le_bytes(header_bytes(h).subrange(1, 5)) == h.length,
        spec_u64_from_le_bytes(header_bytes(h).subrange(5, 13)) == h.callid,
{
    vstd::bytes::lemma_auto_spec_u32_to_from_le_bytes();
    vstd::bytes::lemma_auto_spec_u64_to_from_le_bytes();
    assert(header_bytes(h).subrange(1, 5) =~= spec_u32_to_le_bytes(h.length));
    assert(header_bytes(h).subrange(5, 13) =~= spec_u64_to_le_bytes(h.callid));
}

/// Frame a message and publish it in one ring transaction: the header with
/// its length field set to the payload's length, then the payload.
pub fn write_msg(ring: &mut Ring, msgtype: MsgType, callid: CallId, payload: &[u8])
    requires
        old(ring).wf(),
        payload@.len() <= u32::MAX,
        IVSHRPC_HEADER_SIZE + payload@.len() <= old(ring).spec_capacity() - old(ring).spec_size(),
    ensures
        final(ring).wf(),
        final(ring).spec_capacity() == old(ring).spec_capacity(),
        final(ring).stream_read() == old(ring).stream_read(),
        final(ring).stream() == old(ring).stream() + header_bytes(
            MsgHeader {
                msgtype: msgtype.spec_to_u8(),
                length: payload@.len() as u32,
                callid,
            },
        ) + payload@,
        final(ring).contents() == old(ring).contents() + header_bytes(
            MsgHeader {
                msgtype: msgtype.spec_to_u8(),
                length: payload@.len() as u32,
                callid,
            },
        ) + payload@,
{
    let mut header = MsgHeader::new(msgtype, callid);
    header.length = payload.len() as u32;
    let mut frame = header.to_slice();
    let mut body = vstd::slice::slice_to_vec(payload);
    frame.append(&mut body);
    ring.write(frame.as_slice());
    proof {
        assert(old(ring).stream() + (header_bytes(header) + payload@) =~= old(ring).stream()
            + header_bytes(header) + payload@);
        assert(old(ring).contents() + (header_bytes(header) + payload@) =~= old(ring).contents()
            + header_bytes(header) + payload@);
    }
}

/// Take one frame off the ring: the header, then exactly the payload it
/// declares.  `None` when no full header is pending, or when the declared
/// payload has not all arrived - a conforming peer publishes a frame in one
/// transaction, so a header is never seen without its payload.
pub fn read_frame(ring: &mut Ring, spin: usize) -> (r: Option<(MsgHeader, Vec<u8>)>)
    requires
        old(ring).wf(),
    ensures
        final(ring).wf(),
        final(ring).spec_capacity() == old(ring).spec_capacity(),
        final(ring).stream() == old(ring).stream(),
        r is None ==> (*final(ring) == *old(ring) && old(ring).spec_size()
            < IVSHRPC_HEADER_SIZE) || (old(ring).spec_size() >= IVSHRPC_HEADER_SIZE && final(ring).contents() == old(ring).contents().skip(13) && final(ring).stream_read()
            == old(ring).stream_read() + IVSHRPC_HEADER_SIZE && IVSHRPC_HEADER_SIZE
            + spec_u32_from_le_bytes(old(ring).contents().subrange(1, 5)) > old(ring).spec_size()),
        r matches Some(p) ==> {
            &&& old(ring).spec_size() >= IVSHRPC_HEADER_SIZE
            &&& p.0.msgtype == old(ring).contents()[0]
            &&& p.0.length == spec_u32_from_le_bytes(old(ring).contents().subrange(1, 5))
            &&& p.0.callid == spec_u64_from_le_bytes(old(ring).contents().subrange(5, 13))
            &&& p.1@ == old(ring).contents().subrange(13, 13 + p.0.length as int)
            &&& final(ring).contents() == old(ring).contents().skip(13 + p.0.length as int)
            &&& final(ring).stream_read() == old(ring).stream_read() + 13 + p.0.length as int
            &&& final(ring).spec_size() + 13 + p.0.length == old(ring).spec_size()
        },
{
    let ghost orig = *ring;
    let hdr_bytes = match ring.try_read(IVSHRPC_HEADER_SIZE, spin) {
        Option::Some(b) => b,
        Option::None => {
            // One last look before going idle, to close the race with a
            // producer that stored its frame while the reader was leaving.
            match ring.try_read(IVSHRPC_HEADER_SIZE, 1) {
                Option::Some(b) => b,
                Option::None => {
                    return None;
                },
            }
        },
    };
    proof {
        crate::ring::lemma_contents_size(orig);
    }
    let header = MsgHeader::from_slice(hdr_bytes.as_slice());
    let len = header.length as usize;
    let ghost mid = *ring;
    match ring.try_read(len, 1) {
        Option::Some(payload) => {
            proof {
                crate::ring::lemma_contents_size(mid);
                crate::ring::lemma_contents_size(orig);
                assert(mid.contents() == orig.contents().skip(13));
                assert(13 + len <= orig.contents().len());
                assert(hdr_bytes@.subrange(1, 5) =~= orig.contents().subrange(1, 5));
                assert(hdr_bytes@.subrange(5, 13) =~= orig.contents().subrange(5, 13));
                assert(orig.contents().skip(13).take(len as int) =~= orig.contents().subrange(
                    13,
                    13 + len as int,
                ));
                assert(orig.contents().skip(13).skip(len as int) =~= orig.contents().skip(
                    13 + len as int,
                ));
            }
            Some((header, payload))
        },
        Option::None => {
            // A torn frame: put nothing back, report nothing.  The model
            // cannot re-stock the header bytes, and a conforming peer never
            // produces this state.
            proof {
                crate::ring::lemma_contents_size(mid);
                crate::ring::lemma_contents_size(orig);
                assert(hdr_bytes@.subrange(1, 5) =~= orig.contents().subrange(1, 5));
            }
            None
        },
    }
}

/// Every parked call id is below the bound: how the id counter dominates
/// the queue.
pub open spec fn queue_bounded(q: Seq<(CallId, u64)>, bound: u64) -> bool {
    forall|j: int| #![trigger q[j]] 0 <= j < q.len() ==> q[j].0 < bound
}

/// The registry of in-flight fuse calls: call id to the blocked caller's
/// context id.  Entries are added at fuse-send and taken out when the reply
/// arrives; ids come from a monotone counter, so each id is registered at
/// most once.
pub struct CallQueue {
    pub entries: Vec<(CallId, u64)>,
}

impl CallQueue {
    /// No call id occurs twice.
    pub open spec fn wf(self) -> bool {
        forall|i: int, j: int| 0 <= i < j < self.entries@.len() ==> (
        #[trigger] self.entries@[i]).0 != (#[trigger] self.entries@[j]).0
    }

    pub open spec fn spec_contains(self, callid: CallId) -> bool {
        exists|i: int| 0 <= i < self.entries@.len() && (#[trigger] self.entries@[i]).0 == callid
    }

    pub open spec fn spec_lookup(self, callid: CallId) -> u64 {
        let i = choose|i: int| 0 <= i < self.entries@.len() && (#[trigger] self.entries@[i]).0
            == callid;
        self.entries@[i].1
    }

    pub fn new() -> (q: CallQueue)
        ensures
            q.wf(),
            q.entries@.len() == 0,
    {
        CallQueue { entries: Vec::new() }
    }

    /// Index of a call id's entry, if present.
    fn find(&self, callid: CallId) -> (r: Option<usize>)
        ensures
            r is Some <==> self.spec_contains(callid),
            r is Some ==> r->0 < self.entries@.len() && self.entries@[r->0 as int].0 == callid,
    {
        let n = self.entries.len();
        let mut i: usize = 0;
        while i < n
            invariant
                i <= n,
                n == self.entries@.len(),
                forall|j: int| 0 <= j < i ==> (#[trigger] self.entries@[j]).0 != callid,
            decreases n - i,
        {
            if vstd::std_specs::vec::vec_index(&self.entries, i).0 == callid {
                return Some(i);
            }
            i = i + 1;
        }
        None
    }

    /// Park a caller under a fresh call id.
    pub fn insert(&mut self, callid: CallId, context: u64)
        requires
            old(self).wf(),
            !old(self).spec_contains(callid),
        ensures
            final(self).wf(),
            final(self).spec_contains(callid),
            final(self).spec_lookup(callid) == context,
            final(self).entries@ == old(self).entries@.push((callid, context)),
            forall|c: CallId| old(self).spec_contains(c) ==> final(self).spec_contains(c),
    {
        let ghost before = self.entries@;
        self.entries.push((callid, context));
        proof {
            let s = self.entries@;
            assert forall|i: int, j: int| 0 <= i < j < s.len() implies (#[trigger] s[i]).0 != (
            #[trigger] s[j]).0 by {
                if j == s.len() - 1 {
                    assert(s[i] == before[i]);
                    if before[i].0 == callid {
                        assert(old(self).spec_contains(callid));
                    }
                }
            }
            assert(s[s.len() - 1].0 == callid);
            let w = choose|i: int| 0 <= i < s.len() && (#[trigger] s[i]).0 == callid;
            if w != s.len() - 1 {
                assert(before[w].0 == callid);
                assert(old(self).spec_contains(callid));
            }
            assert forall|c: CallId| old(self).spec_contains(c) implies final(self).spec_contains(c) by {
                let i = choose|i: int| 0 <= i < before.len() && (#[trigger] before[i]).0 == c;
                assert(s[i].0 == c);
            }
        }
    }

    /// Take the caller parked under this call id, if any: a reply for an
    /// unknown id is discarded and the queue is untouched, so other calls
    /// are unaffected.
    pub fn remove(&mut self, callid: CallId) -> (r: Option<u64>)
        requires
            old(self).wf(),
        ensures
            final(self).wf(),
            r is Some <==> old(self).spec_contains(callid),
            r is Some ==> r->0 == old(self).spec_lookup(callid),
            r is None ==> *final(self) == *old(self),
            !final(self).spec_contains(callid),
            forall|c: CallId| c != callid && old(self).spec_contains(c) ==> final(self).spec_contains(c) && final(self).spec_lookup(c) == old(self).spec_lookup(c),
            forall|c: CallId| final(self).spec_contains(c) ==> old(self).spec_contains(c),
            forall|b: u64| queue_bounded(old(self).entries@, b) ==> queue_bounded(
                final(self).entries@,
                b,
            ),
    {
        let found = self.find(callid);
        match found {
            Option::Some(i) => {
                let ghost before = self.entries@;
                let entry = self.entries.remove(i);
                proof {
                    let s = self.entries@;
                    assert forall|a: int, b: int| 0 <= a < b < s.len() implies (
                    #[trigger] s[a]).0 != (#[trigger] s[b]).0 by {
                        let a2 = if a < i { a } else { a + 1 };
                        let b2 = if b < i { b } else { b + 1 };
                        assert(s[a] == before[a2]);
                        assert(s[b] == before[b2]);
                    }
                    let w = choose|k: int| 0 <= k < before.len() && (#[trigger] before[k]).0
                        == callid;
                    if w != i {
                        assert(before[w].0 == before[i as int].0);
                    }
                    assert(entry.1 == old(self).spec_lookup(callid));
                    assert(!self.spec_contains(callid)) by {
                        if self.spec_contains(callid) {
                            let k = choose|k: int| 0 <= k < s.len() && (#[trigger] s[k]).0
                                == callid;
                            let k2 = if k < i { k } else { k + 1 };
                            assert(before[k2].0 == callid);
                            assert(before[i as int].0 == callid);
                        }
                    }
                    assert forall|c: CallId| c != callid && old(self).spec_contains(c) implies
                        self.spec_contains(c) && self.spec_lookup(c) == old(self).spec_lookup(
                        c,
                    ) by {
                        let k = choose|k: int| 0 <= k < before.len() && (#[trigger] before[k]).0
                            == c;
                        let k2 = if k < i { k } else { k - 1 };
                        assert(s[k2] == before[k]);
                        let w2 = choose|w2: int| 0 <= w2 < s.len() && (#[trigger] s[w2]).0 == c;
                        let w3 = if w2 < i { w2 } else { w2 + 1 };
                        assert(before[w3].0 == c);
                        if w3 != k {
                            assert(before[w3].0 == before[k].0);
                        }
                    }
                    assert forall|c: CallId| self.spec_contains(c) implies old(self).spec_contains(c) by {
                        let k = choose|k: int| 0 <= k < s.len() && (#[trigger] s[k]).0 == c;
                        let k2 = if k < i { k } else { k + 1 };
                        assert(before[k2].0 == c);
                    }
                    assert forall|b: u64| queue_bounded(before, b) implies queue_bounded(
                        s,
                        b,
                    ) by {
                        assert forall|j: int| #![trigger s[j]] 0 <= j < s.len() implies s[j].0
                            < b by {
                            let j2 = if j < i { j } else { j + 1 };
                            assert(s[j] == before[j2]);
                        }
                    }
                }
                Some(entry.1)
            },
            Option::None => None,
        }
    }
}

/// Each assigned call id has at most one entry in the queue: two positions
/// carrying the same id are one position.
pub proof fn lemma_call_queue_single_entry(q: CallQueue, i: int, j: int)
    requires
        q.wf(),
        0 <= i < q.entries@.len(),
        0 <= j < q.entries@.len(),
        q.entries@[i].0 == q.entries@[j].0,
    ensures
        i == j,
{
    if i < j {
        assert(q.entries@[i].0 != q.entries@[j].0);
    } else if j < i {
        assert(q.entries@[j].0 != q.entries@[i].0);
    }
}

} // verus!
