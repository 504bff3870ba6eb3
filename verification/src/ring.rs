//! Single-producer single-consumer byte ring over a fixed data area.
//!
//! The shared-memory transport lays a control header and a power-of-two data
//! area over one byte slice; the producer publishes by advancing `tail`, the
//! consumer acknowledges by advancing `head`, and the usable index of a
//! counter is its remainder by the allocated size.  This module verifies the
//! counter and windowing logic on an owned data area: both endpoint roles are
//! methods of one `Ring` value, since the cross-process aliasing of the real
//! slice is outside what can be proved.  The shadow-counter refresh of the
//! concurrent version collapses here: a refresh reads the one true counter.

use vstd::prelude::*;
use vstd::arithmetic::div_mod::lemma_fundamental_div_mod;

verus! {

/// Size in bytes of the control block placed before the data area when a ring
/// lives at the front of a shared slice: three 64-byte cache lines, one for
/// the sizes, one per endpoint's counters.
pub const HEADER_SIZE: usize = 192;

/// x is a power of two.
pub open spec fn is_pow2(x: nat) -> bool
    decreases x,
{
    if x == 0 {
        false
    } else if x == 1 {
        true
    } else {
        x % 2 == 0 && is_pow2(x / 2)
    }
}

/// Largest power of two that is at most `x`, and 0 for `x == 0`.
pub fn prev_power_of_two(x: usize) -> (r: usize)
    ensures
        x == 0 ==> r == 0,
        x > 0 ==> is_pow2(r as nat) && r <= x < 2 * r,
{
    if x == 0 {
        return 0;
    }
    let mut p: usize = 1;
    while p <= x / 2
        invariant
            1 <= p <= x,
            is_pow2(p as nat),
        decreases x - p,
    {
        p = p * 2;
    }
    p
}

/// A byte ring: monotone head and tail counters over a power-of-two data
/// area.  `head` is kept reduced below `allocated_size`; the pending bytes
/// are the window `[head, tail)` read modulo the allocated size.
pub struct Ring {
    capacity: usize,
    allocated_size: usize,
    head: usize,
    tail: usize,
    data: Vec<u8>,
    hist: Ghost<Seq<u8>>,
    acked: Ghost<nat>,
}

/// Two numbers with the same remainder and less than one modulus apart are
/// equal: distinct offsets inside one ring window hit distinct cells.
proof fn lemma_mod_window_distinct(a: int, b: int, m: int)
    requires
        m > 0,
        a <= b,
        b - a < m,
        a % m == b % m,
    ensures
        a == b,
{
    lemma_fundamental_div_mod(a, m);
    lemma_fundamental_div_mod(b, m);
    assert(b - a == m * (b / m - a / m)) by (nonlinear_arith)
        requires
            a == m * (a / m) + a % m,
            b == m * (b / m) + b % m,
            a % m == b % m,
    ;
    assert(b / m - a / m == 0) by (nonlinear_arith)
        requires
            b - a == m * (b / m - a / m),
            0 <= b - a < m,
            m > 0,
    ;
}

impl Ring {
    /// Well-formed ring state.
    pub closed spec fn wf(self) -> bool {
        &&& is_pow2(self.allocated_size as nat)
        &&& self.capacity <= self.allocated_size
        &&& self.allocated_size <= usize::MAX / 4
        &&& self.data@.len() == self.allocated_size
        &&& self.head < self.allocated_size
        &&& self.head <= self.tail <= self.head + self.capacity
        &&& self.acked@ + self.spec_size() == self.hist@.len()
        &&& self.hist@.skip(self.acked@ as int) == self.contents()
    }

    /// The bytes written but not yet read, in write order.
    pub closed spec fn contents(self) -> Seq<u8> {
        Seq::new(
            (self.tail - self.head) as nat,
            |i: int| self.data@[(self.head + i) % (self.allocated_size as int)],
        )
    }

    pub closed spec fn spec_capacity(self) -> nat {
        self.capacity as nat
    }

    pub closed spec fn spec_size(self) -> nat {
        (self.tail - self.head) as nat
    }

    /// Every byte ever written to this ring, in write order.
    pub closed spec fn stream(self) -> Seq<u8> {
        self.hist@
    }

    /// How many bytes of the stream the reader has taken or skipped.
    pub closed spec fn stream_read(self) -> nat {
        self.acked@
    }

    /// Build a fresh, empty ring for a shared slice of `buff_len` bytes: the
    /// data area is the largest power of two that fits after the control
    /// block, and the whole of it is usable capacity.
    pub fn new(buff_len: usize) -> (r: Ring)
        requires
            HEADER_SIZE < buff_len,
            buff_len <= usize::MAX / 4,
        ensures
            r.wf(),
            is_pow2(r.spec_capacity()),
            r.spec_capacity() <= buff_len - HEADER_SIZE,
            r.spec_capacity() > 0,
            r.spec_size() == 0,
            r.contents() == Seq::<u8>::empty(),
            r.stream() == Seq::<u8>::empty(),
            r.stream_read() == 0,
            2 * r.spec_capacity() > buff_len - HEADER_SIZE,
    {
        let cap = prev_power_of_two(buff_len - HEADER_SIZE);
        let mut data: Vec<u8> = Vec::new();
        let mut i: usize = 0;
        while i < cap
            invariant
                data@.len() == i,
                i <= cap,
            decreases cap - i,
        {
            data.push(0);
            i = i + 1;
        }
        let r = Ring {
            capacity: cap,
            allocated_size: cap,
            head: 0,
            tail: 0,
            data,
            hist: Ghost(Seq::empty()),
            acked: Ghost(0),
        };
        proof {
            assert(r.contents() =~= Seq::<u8>::empty());
            assert(r.hist@.skip(0) =~= r.contents());
        }
        r
    }

    /// Usable capacity in bytes.
    pub fn capacity(&self) -> (c: usize)
        requires
            self.wf(),
        ensures
            c == self.spec_capacity(),
    {
        self.capacity
    }

    /// Number of bytes written and not yet read.
    pub fn size(&self) -> (s: usize)
        requires
            self.wf(),
        ensures
            s == self.spec_size(),
    {
        self.tail - self.head
    }

    /// Bytes that can still be written before the ring is full.
    pub fn free_space(&self) -> (f: usize)
        requires
            self.wf(),
        ensures
            f == self.spec_capacity() - self.spec_size(),
    {
        self.capacity - (self.tail - self.head)
    }

    /// Reduce the head counter below the allocated size; the window and its
    /// cells are unchanged because both counters move by one full modulus.
    fn normalize(&mut self)
        requires
            old(self).wf() || (
                is_pow2(old(self).allocated_size as nat)
                && old(self).capacity <= old(self).allocated_size
                && old(self).allocated_size <= usize::MAX / 4
                && old(self).data@.len() == old(self).allocated_size
                && old(self).head < 2 * old(self).allocated_size
                && old(self).head <= old(self).tail
                && old(self).tail <= old(self).head + old(self).capacity
                && old(self).acked@ + old(self).spec_size() == old(self).hist@.len()
                && old(self).hist@.skip(old(self).acked@ as int) == old(self).contents()
            ),
        ensures
            final(self).wf(),
            final(self).contents() == old(self).contents(),
            final(self).spec_size() == old(self).spec_size(),
            final(self).spec_capacity() == old(self).spec_capacity(),
            final(self).data == old(self).data,
            final(self).stream() == old(self).stream(),
            final(self).stream_read() == old(self).stream_read(),
    {
        if self.head >= self.allocated_size {
            let ghost m = self.allocated_size as int;
            self.head = self.head - self.allocated_size;
            self.tail = self.tail - self.allocated_size;
            proof {
                assert forall|i: int| 0 <= i < self.spec_size() implies
                    self.contents()[i] == old(self).contents()[i] by {
                    assert((old(self).head + i) % m == (self.head + i + m) % m);
                    assert((self.head + i + m) % m == (self.head + i) % m) by (nonlinear_arith)
                        requires m > 0;
                }
                assert(self.contents() =~= old(self).contents());
            }
        }
    }

    /// Copy `buf` into the window starting at `tail`, then publish it by
    /// advancing `tail`.  Needs free room for the whole of `buf`: the
    /// concurrent producer busy-waits for that room, the sequential model
    /// asks the caller for it.
    pub fn write(&mut self, buf: &[u8])
        requires
            old(self).wf(),
            buf@.len() <= old(self).spec_capacity() - old(self).spec_size(),
        ensures
            final(self).wf(),
            final(self).contents() == old(self).contents() + buf@,
            final(self).spec_capacity() == old(self).spec_capacity(),
            final(self).spec_size() == old(self).spec_size() + buf@.len(),
            final(self).stream() == old(self).stream() + buf@,
            final(self).stream_read() == old(self).stream_read(),
    {
        let ghost m = self.allocated_size as int;
        let ghost oldc = self.contents();
        let n = buf.len();
        let mut i: usize = 0;
        while i < n
            invariant
                self.wf(),
                i <= n,
                n == buf@.len(),
                n <= self.spec_capacity() - self.spec_size(),
                self.capacity == old(self).capacity,
                self.allocated_size == old(self).allocated_size,
                self.head == old(self).head,
                self.tail == old(self).tail,
                self.hist == old(self).hist,
                self.acked == old(self).acked,
                m == self.allocated_size as int,
                oldc == self.contents(),
                oldc.len() == self.spec_size(),
                forall|j: int| 0 <= j < oldc.len() ==>
                    self.data@[(self.head + j) % m] == oldc[j],
                forall|k: int| 0 <= k < i ==>
                    self.data@[(self.tail + k) % m] == buf@[k],
            decreases n - i,
        {
            let idx = (self.tail + i) % self.allocated_size;
            let ghost prev = self.data@;
            self.data.set(idx, buf[i]);
            proof {
                // The cell just written is beyond the pending window and
                // beyond the bytes already copied, so neither is disturbed.
                assert forall|j: int| 0 <= j < oldc.len() implies
                    self.data@[(self.head + j) % m] == oldc[j] by {
                    if (self.head + j) % m == (self.tail + i as int) % m {
                        lemma_mod_window_distinct(self.head + j, self.tail + i as int, m);
                    }
                }
                assert forall|k: int| 0 <= k < i implies
                    self.data@[(self.tail + k) % m] == buf@[k] by {
                    if (self.tail + k) % m == (self.tail + i as int) % m {
                        lemma_mod_window_distinct(self.tail + k, self.tail + i as int, m);
                    }
                }
                assert(self.contents() =~= oldc);
            }
            i = i + 1;
        }
        self.tail = self.tail + n;
        self.hist = Ghost(self.hist@ + buf@);
        proof {
            assert forall|j: int| 0 <= j < self.spec_size() implies
                self.contents()[j] == (oldc + buf@)[j] by {
            }
            assert(self.contents() =~= oldc + buf@);
            assert(self.hist@.skip(self.acked@ as int) =~= self.contents());
        }
        self.normalize();
    }

    /// Write `buf` only if there is room for the whole of it: succeeds
    /// exactly when `buf.len() <= capacity - size`, and leaves the ring
    /// unchanged otherwise.
    pub fn try_write(&mut self, buf: &[u8]) -> (ok: bool)
        requires
            old(self).wf(),
        ensures
            final(self).wf(),
            ok <==> buf@.len() <= old(self).spec_capacity() - old(self).spec_size(),
            ok ==> final(self).contents() == old(self).contents() + buf@
                && final(self).stream() == old(self).stream() + buf@,
            !ok ==> *final(self) == *old(self),
            final(self).spec_capacity() == old(self).spec_capacity(),
            final(self).stream_read() == old(self).stream_read(),
    {
        if buf.len() <= self.capacity - (self.tail - self.head) {
            self.write(buf);
            true
        } else {
            false
        }
    }

    /// Take the next `n` pending bytes, oldest first, and acknowledge them by
    /// advancing `head`.  Needs `n` pending bytes: the concurrent consumer
    /// busy-waits for them, the sequential model asks the caller.
    pub fn read(&mut self, n: usize) -> (out: Vec<u8>)
        requires
            old(self).wf(),
            n <= old(self).spec_size(),
        ensures
            final(self).wf(),
            out@.len() == n,
            out@ == old(self).contents().take(n as int),
            out@ == old(self).stream().subrange(
                old(self).stream_read() as int,
                old(self).stream_read() + n,
            ),
            final(self).contents() == old(self).contents().skip(n as int),
            final(self).spec_capacity() == old(self).spec_capacity(),
            final(self).spec_size() == old(self).spec_size() - n,
            final(self).stream() == old(self).stream(),
            final(self).stream_read() == old(self).stream_read() + n,
    {
        let ghost m = self.allocated_size as int;
        let ghost oldc = self.contents();
        let mut out: Vec<u8> = Vec::new();
        let mut i: usize = 0;
        while i < n
            invariant
                self.wf(),
                i <= n,
                n <= self.spec_size(),
                m == self.allocated_size as int,
                *self == *old(self),
                oldc == self.contents(),
                out@.len() == i,
                forall|k: int| 0 <= k < i ==> out@[k] == oldc[k],
            decreases n - i,
        {
            let idx = (self.head + i) % self.allocated_size;
            out.push(self.data[idx]);
            i = i + 1;
        }
        self.head = self.head + n;
        self.acked = Ghost(self.acked@ + n as nat);
        proof {
            assert forall|j: int| 0 <= j < self.spec_size() implies
                self.contents()[j] == oldc.skip(n as int)[j] by {
                assert((old(self).head + n + j) % m == (self.head + j) % m);
            }
            assert(self.contents() =~= oldc.skip(n as int));
            assert(out@ =~= oldc.take(n as int));
            assert(self.hist@.skip(self.acked@ as int) =~= self.contents());
            assert(out@ =~= old(self).hist@.subrange(
                old(self).acked@ as int,
                old(self).acked@ + n,
            ));
        }
        self.normalize();
        out
    }

    /// Read `n` bytes only if that many are pending: succeeds exactly when
    /// `n <= size`.  The `spin` argument is the number of shadow-refresh
    /// attempts the concurrent consumer makes before giving up; a sequential
    /// refresh always sees the true counter, so it does not change the
    /// outcome here.
    pub fn try_read(&mut self, n: usize, spin: usize) -> (out: Option<Vec<u8>>)
        requires
            old(self).wf(),
        ensures
            final(self).wf(),
            out is Some <==> n <= old(self).spec_size(),
            out is Some ==> out->0@.len() == n,
            out is Some ==> final(self).spec_size() == old(self).spec_size() - n,
            out is Some ==> out->0@ == old(self).contents().take(n as int)
                && final(self).contents() == old(self).contents().skip(n as int)
                && final(self).stream_read() == old(self).stream_read() + n,
            out is None ==> *final(self) == *old(self),
            final(self).spec_capacity() == old(self).spec_capacity(),
            final(self).stream() == old(self).stream(),
    {
        let _ = spin;
        if n <= self.tail - self.head {
            Some(self.read(n))
        } else {
            None
        }
    }

    /// Drop up to `n` pending bytes without looking at them; returns how many
    /// were dropped, which is `n` or everything pending, whichever is less.
    pub fn skip_n(&mut self, n: usize) -> (dropped: usize)
        requires
            old(self).wf(),
        ensures
            final(self).wf(),
            dropped == if n <= old(self).spec_size() { n as int } else {
                old(self).spec_size() as int
            },
            final(self).contents() == old(self).contents().skip(dropped as int),
            final(self).spec_capacity() == old(self).spec_capacity(),
            final(self).stream() == old(self).stream(),
            final(self).stream_read() == old(self).stream_read() + dropped,
    {
        let ghost m = self.allocated_size as int;
        let ghost oldc = self.contents();
        let avail = self.tail - self.head;
        let diff = if avail < n {
            avail
        } else {
            n
        };
        self.head = self.head + diff;
        self.acked = Ghost(self.acked@ + diff as nat);
        proof {
            assert forall|j: int| 0 <= j < self.spec_size() implies
                self.contents()[j] == oldc.skip(diff as int)[j] by {
                assert((old(self).head + diff + j) % m == (self.head + j) % m);
            }
            assert(self.contents() =~= oldc.skip(diff as int));
            assert(self.hist@.skip(self.acked@ as int) =~= self.contents());
        }
        self.normalize();
        diff
    }
}

/// The pending window holds exactly `size` bytes.
pub proof fn lemma_contents_size(r: Ring)
    ensures
        r.contents().len() == r.spec_size(),
{
}

/// A message written in one piece is read back in one piece: the stream
/// after `write(M)` is the old stream followed by M, and a reader whose
/// cursor has reached the write point gets back exactly M, byte for byte.
/// Together with the contracts of `write` and `read` this is the ring's
/// round-trip guarantee.
pub proof fn lemma_message_round_trip(s: Seq<u8>, m: Seq<u8>)
    ensures
        (s + m).subrange(s.len() as int, s.len() + m.len() as int) == m,
        (s + m).take(s.len() as int) == s,
{
    assert((s + m).subrange(s.len() as int, s.len() + m.len() as int) =~= m);
    assert((s + m).take(s.len() as int) =~= s);
}

/// The reader observes the write stream strictly in order: what it has taken
/// is the prefix of the stream before its cursor, and what is still pending
/// is exactly the rest.  So if the byte at stream offset `i` has been
/// observed, every byte at an offset below `i` has been observed too.
pub proof fn lemma_reader_observes_prefix(r: Ring)
    requires
        r.wf(),
    ensures
        r.stream_read() <= r.stream().len(),
        r.contents() == r.stream().skip(r.stream_read() as int),
        r.stream() == r.stream().take(r.stream_read() as int) + r.contents(),
{
    assert(r.stream() =~= r.stream().take(r.stream_read() as int) + r.contents());
}

} // verus!
