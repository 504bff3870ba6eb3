//! The SOS value codec: the self-describing wire format for argument lists
//! and return payloads.
//!
//! A stream is `[count:u32][total_len:u32]` followed by `count` values.  Each
//! value starts with a one-byte type tag; fixed-width values carry their body
//! directly, variable-width values carry a `u32` length (which excludes the
//! length field itself) and then the body.  Text is carried as its UTF-8
//! bytes and NUL-terminated on the wire; a function value is
//! `module NUL name NUL`; an embedded value is a complete nested stream.
//!
//! Floating-point values travel as their IEEE-754 bit patterns and are held
//! here as those patterns (`u32`/`u64`): the codec moves the bits unchanged.

use vstd::prelude::*;
use vstd::bytes::{
    spec_u32_from_le_bytes, spec_u32_to_le_bytes, spec_u64_from_le_bytes, spec_u64_to_le_bytes,
    u32_from_le_bytes, u32_to_le_bytes, u64_from_le_bytes, u64_to_le_bytes,
};
use vstd::slice::{slice_subrange, slice_to_vec};
use vstd::string::StringSliceAdditionalSpecFns;

verus! {

pub const TAG_INVALID: u8 = 0;
pub const TAG_INT32: u8 = 1;
pub const TAG_UINT32: u8 = 2;
pub const TAG_INT64: u8 = 3;
pub const TAG_UINT64: u8 = 4;
pub const TAG_FLOAT: u8 = 5;
pub const TAG_DOUBLE: u8 = 6;
pub const TAG_ERROR: u8 = 7;
pub const TAG_STRING: u8 = 8;
pub const TAG_OPAQUE: u8 = 9;
pub const TAG_FUNCTION: u8 = 10;
pub const TAG_EMBEDDED: u8 = 11;

/// A function reference carried in a value: the module that exports it and
/// the exported name, both as UTF-8 bytes.
#[derive(Debug, Clone, PartialEq, Eq)]
pub struct OwnedFunction {
    pub module: Vec<u8>,
    pub name: Vec<u8>,
}

impl OwnedFunction {
    pub fn new(module: &[u8], name: &[u8]) -> (f: OwnedFunction)
        ensures
            f.module@ == module@,
            f.name@ == name@,
    {
        OwnedFunction { module: slice_to_vec(module), name: slice_to_vec(name) }
    }
}

/// A single SOS value.  `Float` and `Double` hold IEEE-754 bit patterns.
#[derive(Debug, PartialEq)]
pub enum Value {
    Int32(i32),
    UInt32(u32),
    Int64(i64),
    UInt64(u64),
    Float(u32),
    Double(u64),
    Error(Vec<u8>),
    String(Vec<u8>),
    Opaque(Vec<u8>),
    Function(OwnedFunction),
    Embedded(Vec<Value>),
}

/// The mathematical shape of a value: what the codec's contracts speak of.
pub enum SosData {
    Int32(i32),
    UInt32(u32),
    Int64(i64),
    UInt64(u64),
    Float(u32),
    Double(u64),
    Error(Seq<u8>),
    String(Seq<u8>),
    Opaque(Seq<u8>),
    Function(Seq<u8>, Seq<u8>),
    Embedded(Seq<SosData>),
}

pub open spec fn dview(v: Value) -> SosData
    decreases v, 0int, 0int,
{
    match v {
        Value::Int32(i) => SosData::Int32(i),
        Value::UInt32(i) => SosData::UInt32(i),
        Value::Int64(i) => SosData::Int64(i),
        Value::UInt64(i) => SosData::UInt64(i),
        Value::Float(i) => SosData::Float(i),
        Value::Double(i) => SosData::Double(i),
        Value::Error(b) => SosData::Error(b@),
        Value::String(b) => SosData::String(b@),
        Value::Opaque(b) => SosData::Opaque(b@),
        Value::Function(f) => SosData::Function(f.module@, f.name@),
        Value::Embedded(vs) => SosData::Embedded(dviews(vs@)),
    }
}

pub open spec fn dviews(vs: Seq<Value>) -> Seq<SosData>
    decreases vs, 1int, vs.len(),
{
    if vs.len() == 0 {
        Seq::empty()
    } else {
        seq![dview(vs[0])] + dviews(vs.subrange(1, vs.len() as int))
    }
}

/// The model of a value sequence is taken element by element.
pub proof fn lemma_dviews(vs: Seq<Value>)
    ensures
        dviews(vs).len() == vs.len(),
        forall|i: int| 0 <= i < vs.len() ==> dviews(vs)[i] == dview(vs[i]),
    decreases vs.len(),
{
    if vs.len() > 0 {
        lemma_dviews(vs.subrange(1, vs.len() as int));
    }
}

impl View for Value {
    type V = SosData;

    open spec fn view(&self) -> SosData {
        dview(*self)
    }
}

/// UTF-8 well-formedness of a byte sequence, by the shortest-form ranges of
/// RFC 3629: exactly the inputs that `str::from_utf8` accepts.
pub open spec fn is_utf8(s: Seq<u8>) -> bool
    decreases s.len(),
{
    if s.len() == 0 {
        true
    } else {
        let b0 = s[0];
        if b0 < 0x80 {
            is_utf8(s.skip(1))
        } else if 0xC2 <= b0 < 0xE0 {
            s.len() >= 2 && is_cont(s[1]) && is_utf8(s.skip(2))
        } else if b0 == 0xE0 {
            s.len() >= 3 && 0xA0 <= s[1] < 0xC0 && is_cont(s[2]) && is_utf8(s.skip(3))
        } else if 0xE1 <= b0 < 0xED || 0xEE <= b0 < 0xF0 {
            s.len() >= 3 && is_cont(s[1]) && is_cont(s[2]) && is_utf8(s.skip(3))
        } else if b0 == 0xED {
            s.len() >= 3 && 0x80 <= s[1] < 0xA0 && is_cont(s[2]) && is_utf8(s.skip(3))
        } else if b0 == 0xF0 {
            s.len() >= 4 && 0x90 <= s[1] < 0xC0 && is_cont(s[2]) && is_cont(s[3])
                && is_utf8(s.skip(4))
        } else if 0xF1 <= b0 < 0xF4 {
            s.len() >= 4 && is_cont(s[1]) && is_cont(s[2]) && is_cont(s[3]) && is_utf8(s.skip(4))
        } else if b0 == 0xF4 {
            s.len() >= 4 && 0x80 <= s[1] < 0x90 && is_cont(s[2]) && is_cont(s[3])
                && is_utf8(s.skip(4))
        } else {
            false
        }
    }
}

pub open spec fn is_cont(b: u8) -> bool {
    0x80 <= b < 0xC0
}

// Encoded lengths.  Per value: one tag byte, then the body; variable-width
// bodies are preceded by a four-byte length field.

pub open spec fn enc_len_data(d: SosData) -> nat
    decreases d, 0int, 0int,
{
    match d {
        SosData::Int32(_) | SosData::UInt32(_) | SosData::Float(_) => 5,
        SosData::Int64(_) | SosData::UInt64(_) | SosData::Double(_) => 9,
        SosData::Error(s) => 6 + s.len(),
        SosData::String(s) => 6 + s.len(),
        SosData::Opaque(s) => 5 + s.len(),
        SosData::Function(m, n) => 7 + m.len() + n.len(),
        SosData::Embedded(ds) => 5 + enc_list_len(ds),
    }
}

pub open spec fn enc_body_len_from(ds: Seq<SosData>, i: int) -> nat
    decreases ds, 1int, ds.len() - i,
{
    if i < 0 || i >= ds.len() {
        0
    } else {
        enc_len_data(ds[i]) + enc_body_len_from(ds, i + 1)
    }
}

/// Exact size in bytes of the encoding of a value list, header included.
pub open spec fn enc_list_len(ds: Seq<SosData>) -> nat
    decreases ds, 2int, 0int,
{
    8 + enc_body_len_from(ds, 0)
}

// Well-formedness: the values that the wire format can carry faithfully.

pub open spec fn wf_data(d: SosData) -> bool
    decreases d, 0int,
{
    match d {
        SosData::Error(s) => s.len() + 6 <= u32::MAX && is_utf8(s),
        SosData::String(s) => s.len() + 6 <= u32::MAX && is_utf8(s),
        SosData::Opaque(s) => s.len() + 5 <= u32::MAX,
        SosData::Function(m, n) => {
            &&& m.len() + n.len() + 7 <= u32::MAX
            &&& is_utf8(m)
            &&& is_utf8(n)
            &&& forall|i: int| 0 <= i < m.len() ==> m[i] != 0
        },
        SosData::Embedded(ds) => encodable(ds) && 5 + enc_list_len(ds) <= u32::MAX,
        _ => true,
    }
}

/// The whole list fits the wire format: every value is well-formed and the
/// count and total length fit their `u32` header fields.
pub open spec fn encodable(ds: Seq<SosData>) -> bool
    decreases ds, 1int,
{
    &&& forall|i: int| 0 <= i < ds.len() ==> wf_data(#[trigger] ds[i])
    &&& ds.len() <= u32::MAX
    &&& enc_list_len(ds) <= u32::MAX
}

// The encoding itself.

pub open spec fn enc_data(d: SosData) -> Seq<u8>
    decreases d, 0int, 0int,
{
    match d {
        SosData::Int32(i) => seq![TAG_INT32] + spec_u32_to_le_bytes(i as u32),
        SosData::UInt32(i) => seq![TAG_UINT32] + spec_u32_to_le_bytes(i),
        SosData::Int64(i) => seq![TAG_INT64] + spec_u64_to_le_bytes(i as u64),
        SosData::UInt64(i) => seq![TAG_UINT64] + spec_u64_to_le_bytes(i),
        SosData::Float(i) => seq![TAG_FLOAT] + spec_u32_to_le_bytes(i),
        SosData::Double(i) => seq![TAG_DOUBLE] + spec_u64_to_le_bytes(i),
        SosData::Error(s) => seq![TAG_ERROR] + spec_u32_to_le_bytes((s.len() + 1) as u32) + s
            + seq![0u8],
        SosData::String(s) => seq![TAG_STRING] + spec_u32_to_le_bytes((s.len() + 1) as u32) + s
            + seq![0u8],
        SosData::Opaque(s) => seq![TAG_OPAQUE] + spec_u32_to_le_bytes(s.len() as u32) + s,
        SosData::Function(m, n) => seq![TAG_FUNCTION] + spec_u32_to_le_bytes(
            (m.len() + n.len() + 2) as u32,
        ) + m + seq![0u8] + n + seq![0u8],
        SosData::Embedded(ds) => seq![TAG_EMBEDDED] + spec_u32_to_le_bytes(
            enc_list_len(ds) as u32,
        ) + enc_list(ds),
    }
}

pub open spec fn enc_body_from(ds: Seq<SosData>, i: int) -> Seq<u8>
    decreases ds, 1int, ds.len() - i,
{
    if i < 0 || i >= ds.len() {
        Seq::empty()
    } else {
        enc_data(ds[i]) + enc_body_from(ds, i + 1)
    }
}

/// The encoding of a value list: count, total length, then the values.
pub open spec fn enc_list(ds: Seq<SosData>) -> Seq<u8>
    decreases ds, 2int, 0int,
{
    spec_u32_to_le_bytes(ds.len() as u32) + spec_u32_to_le_bytes(enc_list_len(ds) as u32)
        + enc_body_from(ds, 0)
}

// The encoded length really is the length of the encoding.

pub proof fn lemma_enc_data_len(d: SosData)
    ensures
        enc_data(d).len() == enc_len_data(d),
    decreases d, 0int, 0int,
{
    vstd::bytes::lemma_auto_spec_u32_to_from_le_bytes();
    vstd::bytes::lemma_auto_spec_u64_to_from_le_bytes();
    match d {
        SosData::Embedded(ds) => {
            lemma_enc_list_len(ds);
        },
        _ => {},
    }
}

pub proof fn lemma_enc_body_len_from(ds: Seq<SosData>, i: int)
    ensures
        enc_body_from(ds, i).len() == enc_body_len_from(ds, i),
    decreases ds, 1int, ds.len() - i,
{
    if 0 <= i < ds.len() {
        lemma_enc_data_len(ds[i]);
        lemma_enc_body_len_from(ds, i + 1);
    }
}

pub proof fn lemma_enc_list_len(ds: Seq<SosData>)
    ensures
        enc_list(ds).len() == enc_list_len(ds),
    decreases ds, 2int, 0int,
{
    vstd::bytes::lemma_auto_spec_u32_to_from_le_bytes();
    lemma_enc_body_len_from(ds, 0);
}

// Executable encoding.

/// Append the bytes of `s` to `out`.
fn push_bytes(out: &mut Vec<u8>, s: &[u8])
    ensures
        final(out)@ == old(out)@ + s@,
{
    out.extend_from_slice(s);
}

/// Exact number of bytes `encode_sos` produces for these values; lets a
/// caller pre-allocate.
pub fn encoded_len(values: &[Value]) -> (n: usize)
    requires
        encodable(dviews(values@)),
    ensures
        n == enc_list_len(dviews(values@)),
    decreases values@, 3int, 0int,
{
    let ghost ds = dviews(values@);
    proof {
        lemma_dviews(values@);
    }
    let mut acc: usize = 8;
    let mut i: usize = 0;
    while i < values.len()
        invariant
            encodable(ds),
            ds == dviews(values@),
            i <= values@.len(),
            ds.len() == values@.len(),
            acc + enc_body_len_from(ds, i as int) == enc_list_len(ds),
            acc <= enc_list_len(ds) <= u32::MAX,
        decreases values@.len() - i,
    {
        proof {
            lemma_dviews(values@);
        }
        let vlen = value_encoded_len(&values[i]);
        acc = acc + vlen;
        i = i + 1;
    }
    acc
}

/// Encoded length of one value, tag and length field included.
pub fn value_encoded_len(v: &Value) -> (n: usize)
    requires
        wf_data(dview(*v)),
    ensures
        n == enc_len_data(dview(*v)),
    decreases *v, 2int, 0int,
{
    match v {
        Value::Int32(_) | Value::UInt32(_) | Value::Float(_) => 5,
        Value::Int64(_) | Value::UInt64(_) | Value::Double(_) => 9,
        Value::Error(s) => 6 + s.len(),
        Value::String(s) => 6 + s.len(),
        Value::Opaque(s) => 5 + s.len(),
        Value::Function(f) => 7 + f.module.len() + f.name.len(),
        Value::Embedded(vs) => 5 + encoded_len(vs.as_slice()),
    }
}

/// Append the encoding of one value to `out`.
fn encode_value(v: &Value, out: &mut Vec<u8>)
    requires
        wf_data(dview(*v)),
    ensures
        final(out)@ == old(out)@ + enc_data(dview(*v)),
    decreases *v, 2int, 0int,
{
    match v {
        Value::Int32(i) => {
            out.push(TAG_INT32);
            let mut b = u32_to_le_bytes(*i as u32);
            out.append(&mut b);
        },
        Value::UInt32(i) => {
            out.push(TAG_UINT32);
            let mut b = u32_to_le_bytes(*i);
            out.append(&mut b);
        },
        Value::Int64(i) => {
            out.push(TAG_INT64);
            let mut b = u64_to_le_bytes(*i as u64);
            out.append(&mut b);
        },
        Value::UInt64(i) => {
            out.push(TAG_UINT64);
            let mut b = u64_to_le_bytes(*i);
            out.append(&mut b);
        },
        Value::Float(i) => {
            out.push(TAG_FLOAT);
            let mut b = u32_to_le_bytes(*i);
            out.append(&mut b);
        },
        Value::Double(i) => {
            out.push(TAG_DOUBLE);
            let mut b = u64_to_le_bytes(*i);
            out.append(&mut b);
        },
        Value::Error(s) => {
            out.push(TAG_ERROR);
            let mut b = u32_to_le_bytes((s.len() + 1) as u32);
            out.append(&mut b);
            push_bytes(out, s.as_slice());
            out.push(0u8);
        },
        Value::String(s) => {
            out.push(TAG_STRING);
            let mut b = u32_to_le_bytes((s.len() + 1) as u32);
            out.append(&mut b);
            push_bytes(out, s.as_slice());
            out.push(0u8);
        },
        Value::Opaque(s) => {
            out.push(TAG_OPAQUE);
            let mut b = u32_to_le_bytes(s.len() as u32);
            out.append(&mut b);
            push_bytes(out, s.as_slice());
        },
        Value::Function(f) => {
            out.push(TAG_FUNCTION);
            let mut b = u32_to_le_bytes((f.module.len() + f.name.len() + 2) as u32);
            out.append(&mut b);
            push_bytes(out, f.module.as_slice());
            out.push(0u8);
            push_bytes(out, f.name.as_slice());
            out.push(0u8);
        },
        Value::Embedded(vs) => {
            out.push(TAG_EMBEDDED);
            let inner_len = encoded_len(vs.as_slice());
            let mut b = u32_to_le_bytes(inner_len as u32);
            out.append(&mut b);
            let mut inner = encode_sos(vs.as_slice());
            out.append(&mut inner);
        },
    }
}

/// Encode a value list into a fresh buffer: `count`, `total_len`, then each
/// value in order.  Produces exactly `encoded_len(values)` bytes.
pub fn encode_sos(values: &[Value]) -> (out: Vec<u8>)
    requires
        encodable(dviews(values@)),
    ensures
        out@ == enc_list(dviews(values@)),
        out@.len() == enc_list_len(dviews(values@)),
    decreases values@, 3int, 0int,
{
    let ghost ds = dviews(values@);
    proof {
        lemma_dviews(values@);
    }
    let total = encoded_len(values);
    let mut out: Vec<u8> = Vec::new();
    let mut cb = u32_to_le_bytes(values.len() as u32);
    out.append(&mut cb);
    let mut tb = u32_to_le_bytes(total as u32);
    out.append(&mut tb);
    let ghost hdr = out@;
    let mut i: usize = 0;
    proof {
        assert(out@ + enc_body_from(ds, 0) =~= hdr + enc_body_from(ds, 0));
    }
    while i < values.len()
        invariant
            encodable(ds),
            ds == dviews(values@),
            i <= values@.len(),
            ds.len() == values@.len(),
            out@ + enc_body_from(ds, i as int) == hdr + enc_body_from(ds, 0),
            hdr == spec_u32_to_le_bytes(ds.len() as u32) + spec_u32_to_le_bytes(
                enc_list_len(ds) as u32,
            ),
        decreases values@.len() - i,
    {
        proof {
            lemma_dviews(values@);
        }
        let ghost before = out@;
        encode_value(&values[i], &mut out);
        proof {
            assert(enc_body_from(ds, i as int) == enc_data(ds[i as int]) + enc_body_from(
                ds,
                i + 1,
            ));
            assert(out@ + enc_body_from(ds, i + 1) =~= before + enc_body_from(ds, i as int));
        }
        i = i + 1;
    }
    proof {
        assert(enc_body_from(ds, ds.len() as int) =~= Seq::<u8>::empty());
        assert(out@ =~= out@ + enc_body_from(ds, ds.len() as int));
        assert(out@ =~= enc_list(ds));
        lemma_enc_list_len(ds);
    }
    out
}


// Finding the NUL separator inside a function body.

/// Index of the first NUL byte of `s`, or -1 when there is none.
pub open spec fn find_nul(s: Seq<u8>) -> int
    decreases s.len(),
{
    if s.len() == 0 {
        -1
    } else if s[0] == 0 {
        0
    } else {
        let r = find_nul(s.skip(1));
        if r < 0 {
            -1
        } else {
            1 + r
        }
    }
}

/// Stepping over a NUL-free prefix shifts the found index.
proof fn lemma_find_nul_step(s: Seq<u8>, i: int)
    requires
        0 <= i <= s.len(),
        forall|k: int| 0 <= k < i ==> s[k] != 0,
    ensures
        find_nul(s) == if find_nul(s.skip(i)) < 0 {
            -1int
        } else {
            i + find_nul(s.skip(i))
        },
    decreases i,
{
    if i == 0 {
        assert(s.skip(0) =~= s);
    } else {
        lemma_find_nul_step(s, i - 1);
        assert(s.skip(i - 1).len() > 0);
        assert(s.skip(i - 1)[0] == s[i - 1]);
        assert(s.skip(i - 1).skip(1) =~= s.skip(i));
    }
}

/// Exact position of the first NUL in a slice, if any.
fn find_nul_in(s: &[u8]) -> (r: Option<usize>)
    ensures
        r is Some ==> find_nul(s@) == r->0 && r->0 < s@.len(),
        r is None ==> find_nul(s@) == -1,
{
    let n = s.len();
    let mut i: usize = 0;
    while i < n
        invariant
            i <= n,
            n == s@.len(),
            forall|k: int| 0 <= k < i ==> s@[k] != 0,
        decreases n - i,
    {
        if *vstd::slice::slice_index_get(s, i) == 0 {
            proof {
                lemma_find_nul_step(s@, i as int);
                assert(s@.skip(i as int)[0] == s@[i as int]);
            }
            return Some(i);
        }
        i = i + 1;
    }
    proof {
        lemma_find_nul_step(s@, n as int);
        assert(s@.skip(n as int).len() == 0);
    }
    None
}

/// Whether a slice is valid UTF-8, checked byte class by byte class.
pub fn check_utf8(s: &[u8]) -> (r: bool)
    ensures
        r == is_utf8(s@),
{
    let n = s.len();
    let mut i: usize = 0;
    proof {
        assert(s@.skip(0) =~= s@);
    }
    while i < n
        invariant
            i <= n,
            n == s@.len(),
            is_utf8(s@) == is_utf8(s@.skip(i as int)),
        decreases n - i,
    {
        let ghost tail = s@.skip(i as int);
        proof {
            assert(tail.len() == n - i);
            assert(tail[0] == s@[i as int]);
        }
        let b0 = *vstd::slice::slice_index_get(s, i);
        if b0 < 0x80 {
            proof {
                assert(tail.skip(1) =~= s@.skip(i + 1));
            }
            i = i + 1;
        } else if 0xC2 <= b0 && b0 < 0xE0 {
            if n - i < 2 {
                return false;
            }
            let b1 = *vstd::slice::slice_index_get(s, i + 1);
            proof {
                assert(tail[1] == s@[i + 1]);
            }
            if !(0x80 <= b1 && b1 < 0xC0) {
                return false;
            }
            proof {
                assert(tail.skip(2) =~= s@.skip(i + 2));
            }
            i = i + 2;
        } else if b0 == 0xE0 || (0xE1 <= b0 && b0 < 0xED) || b0 == 0xED || (0xEE <= b0 && b0
            < 0xF0) {
            if n - i < 3 {
                return false;
            }
            let b1 = *vstd::slice::slice_index_get(s, i + 1);
            let b2 = *vstd::slice::slice_index_get(s, i + 2);
            proof {
                assert(tail[1] == s@[i + 1]);
                assert(tail[2] == s@[i + 2]);
            }
            let lo: u8 = if b0 == 0xE0 {
                0xA0
            } else {
                0x80
            };
            let hi: u8 = if b0 == 0xED {
                0xA0
            } else {
                0xC0
            };
            if !(lo <= b1 && b1 < hi) {
                return false;
            }
            if !(0x80 <= b2 && b2 < 0xC0) {
                return false;
            }
            proof {
                assert(tail.skip(3) =~= s@.skip(i + 3));
            }
            i = i + 3;
        } else if b0 == 0xF0 || (0xF1 <= b0 && b0 < 0xF4) || b0 == 0xF4 {
            if n - i < 4 {
                return false;
            }
            let b1 = *vstd::slice::slice_index_get(s, i + 1);
            let b2 = *vstd::slice::slice_index_get(s, i + 2);
            let b3 = *vstd::slice::slice_index_get(s, i + 3);
            proof {
                assert(tail[1] == s@[i + 1]);
                assert(tail[2] == s@[i + 2]);
                assert(tail[3] == s@[i + 3]);
            }
            let lo: u8 = if b0 == 0xF0 {
                0x90
            } else {
                0x80
            };
            let hi: u8 = if b0 == 0xF4 {
                0x90
            } else {
                0xC0
            };
            if !(lo <= b1 && b1 < hi) {
                return false;
            }
            if !(0x80 <= b2 && b2 < 0xC0) {
                return false;
            }
            if !(0x80 <= b3 && b3 < 0xC0) {
                return false;
            }
            proof {
                assert(tail.skip(4) =~= s@.skip(i + 4));
            }
            i = i + 4;
        } else {
            return false;
        }
    }
    proof {
        assert(s@.skip(n as int).len() == 0);
    }
    true
}

// The specification decoder: what a well-formed reader extracts from bytes.

/// Decode one value from the front of `b`: the value and the bytes after it.
/// Mirrors the wire reader: `None` on a short buffer, a bad tag, an
/// overrunning length, ill-formed text, or a function body without its NUL.
pub open spec fn dec_value(b: Seq<u8>) -> Option<(SosData, Seq<u8>)>
    decreases b.len(), 0int,
{
    if b.len() < 5 {
        None
    } else {
        let tag = b[0];
        if tag == TAG_INT32 {
            Some((SosData::Int32(spec_u32_from_le_bytes(b.subrange(1, 5)) as i32), b.skip(5)))
        } else if tag == TAG_UINT32 {
            Some((SosData::UInt32(spec_u32_from_le_bytes(b.subrange(1, 5))), b.skip(5)))
        } else if tag == TAG_FLOAT {
            Some((SosData::Float(spec_u32_from_le_bytes(b.subrange(1, 5))), b.skip(5)))
        } else if tag == TAG_INT64 || tag == TAG_UINT64 || tag == TAG_DOUBLE {
            if b.len() < 9 {
                None
            } else {
                let x = spec_u64_from_le_bytes(b.subrange(1, 9));
                let d = if tag == TAG_INT64 {
                    SosData::Int64(x as i64)
                } else if tag == TAG_UINT64 {
                    SosData::UInt64(x)
                } else {
                    SosData::Double(x)
                };
                Some((d, b.skip(9)))
            }
        } else if tag == TAG_ERROR || tag == TAG_STRING || tag == TAG_OPAQUE || tag
            == TAG_FUNCTION || tag == TAG_EMBEDDED {
            let len = spec_u32_from_le_bytes(b.subrange(1, 5)) as int;
            if b.len() < 5 + len {
                None
            } else {
                let payload = b.subrange(5, 5 + len);
                let rest = b.skip(5 + len);
                if tag == TAG_OPAQUE {
                    Some((SosData::Opaque(payload), rest))
                } else if tag == TAG_ERROR || tag == TAG_STRING {
                    let sb = if len == 0 {
                        payload
                    } else {
                        payload.take(len - 1)
                    };
                    if is_utf8(sb) {
                        if tag == TAG_ERROR {
                            Some((SosData::Error(sb), rest))
                        } else {
                            Some((SosData::String(sb), rest))
                        }
                    } else {
                        None
                    }
                } else if tag == TAG_FUNCTION {
                    let body = if len == 0 {
                        payload
                    } else {
                        payload.take(len - 1)
                    };
                    let p = find_nul(body);
                    if p < 0 {
                        None
                    } else {
                        let m = body.take(p);
                        let nm = body.skip(p + 1);
                        if is_utf8(m) && is_utf8(nm) {
                            Some((SosData::Function(m, nm), rest))
                        } else {
                            None
                        }
                    }
                } else {
                    match dec_list(payload) {
                        None => None,
                        Some(ds) => Some((SosData::Embedded(ds), rest)),
                    }
                }
            }
        } else {
            None
        }
    }
}

/// Decode up to `count` values from `b`, stopping early at the first
/// malformed one: the reader yields a prefix and then ends.
pub open spec fn dec_prefix(b: Seq<u8>, count: nat) -> Seq<SosData>
    decreases b.len(), 1int,
{
    if count == 0 {
        Seq::empty()
    } else {
        match dec_value(b) {
            None => Seq::empty(),
            Some((d, rest)) => if rest.len() < b.len() {
                seq![d] + dec_prefix(rest, (count - 1) as nat)
            } else {
                seq![d]
            },
        }
    }
}

/// Decode a whole stream: read `count` and `total_len`, reject a stream
/// shorter than its declared size, then decode the declared number of
/// values from the value region.
pub open spec fn dec_list(b: Seq<u8>) -> Option<Seq<SosData>>
    decreases b.len(), 2int,
{
    if b.len() < 8 {
        None
    } else {
        let count = spec_u32_from_le_bytes(b.subrange(0, 4));
        let size = spec_u32_from_le_bytes(b.subrange(4, 8)) as int;
        if b.len() < size || size < 8 {
            None
        } else {
            Some(dec_prefix(b.subrange(8, size), count as nat))
        }
    }
}

/// The value of a successful single-value decode.
pub open spec fn dv_data(b: Seq<u8>) -> SosData
    recommends
        dec_value(b) is Some,
{
    match dec_value(b) {
        Some(p) => p.0,
        None => arbitrary(),
    }
}

/// The bytes after a successful single-value decode.
pub open spec fn dv_rest(b: Seq<u8>) -> Seq<u8>
    recommends
        dec_value(b) is Some,
{
    match dec_value(b) {
        Some(p) => p.1,
        None => arbitrary(),
    }
}

// The executable decoder.

/// A restartable reader over an encoded stream: yields at most `count`
/// values and stops at the first malformed one.
pub struct DecodeIter<'a> {
    buff: &'a [u8],
    off: usize,
    end: usize,
    count: usize,
}

impl<'a> DecodeIter<'a> {
    pub closed spec fn wf(self) -> bool {
        self.off <= self.end <= self.buff@.len()
    }

    /// The whole buffer this reader was opened over.
    pub closed spec fn src(self) -> Seq<u8> {
        self.buff@
    }

    /// The bytes of the value region not yet consumed.
    pub closed spec fn remaining(self) -> Seq<u8> {
        self.buff@.subrange(self.off as int, self.end as int)
    }

    /// Values still to be yielded, at most.
    pub closed spec fn spec_count(self) -> nat {
        self.count as nat
    }

    /// How many values this reader will still yield, at most.
    pub fn count(&self) -> (c: usize)
        ensures
            c == self.spec_count(),
    {
        self.count
    }

    /// The unconsumed value region lies inside the buffer the reader was
    /// opened over.
    pub proof fn lemma_remaining_bound(self)
        requires
            self.wf(),
        ensures
            self.remaining().len() <= self.src().len(),
    {
    }

    /// The bytes of the value region not yet consumed, as a slice.
    pub fn rest(&self) -> (r: &'a [u8])
        requires
            self.wf(),
        ensures
            r@ == self.remaining(),
    {
        slice_subrange(self.buff, self.off, self.end)
    }

    /// Yield the next value, or `None` once the declared count is exhausted
    /// or the next value is malformed; after a `None` the reader is
    /// unchanged.
    pub fn next(&mut self) -> (r: Option<Value>)
        requires
            old(self).wf(),
        ensures
            final(self).wf(),
            final(self).src() == old(self).src(),
            match r {
                Option::Some(v) => {
                    &&& old(self).spec_count() > 0
                    &&& dec_value(old(self).remaining()) is Some
                    &&& dview(v) == dv_data(old(self).remaining())
                    &&& final(self).remaining() == dv_rest(old(self).remaining())
                    &&& final(self).remaining().len() < old(self).remaining().len()
                    &&& final(self).spec_count() == old(self).spec_count() - 1
                },
                Option::None => {
                    &&& old(self).spec_count() == 0 || dec_value(old(self).remaining()) is None
                    &&& *final(self) == *old(self)
                },
            },
        decreases old(self).remaining().len(), 0int,
    {
        if self.count == 0 {
            return None;
        }
        let rem = self.end - self.off;
        if rem < 5 {
            return None;
        }
        let ghost brem = self.remaining();
        proof {
            assert(brem.len() == rem);
            assert(brem[0] == self.buff@[self.off as int]);
        }
        let tag = *vstd::slice::slice_index_get(self.buff, self.off);
        if tag == TAG_INT32 || tag == TAG_UINT32 || tag == TAG_FLOAT {
            let bs = slice_subrange(self.buff, self.off + 1, self.off + 5);
            proof {
                assert(bs@ =~= brem.subrange(1, 5));
            }
            let x = u32_from_le_bytes(bs);
            proof {
                assert(brem.skip(5) =~= self.buff@.subrange(self.off + 5, self.end as int));
            }
            self.off = self.off + 5;
            self.count = self.count - 1;
            if tag == TAG_INT32 {
                Some(Value::Int32(x as i32))
            } else if tag == TAG_UINT32 {
                Some(Value::UInt32(x))
            } else {
                Some(Value::Float(x))
            }
        } else if tag == TAG_INT64 || tag == TAG_UINT64 || tag == TAG_DOUBLE {
            if rem < 9 {
                return None;
            }
            let bs = slice_subrange(self.buff, self.off + 1, self.off + 9);
            proof {
                assert(bs@ =~= brem.subrange(1, 9));
            }
            let x = u64_from_le_bytes(bs);
            proof {
                assert(brem.skip(9) =~= self.buff@.subrange(self.off + 9, self.end as int));
            }
            self.off = self.off + 9;
            self.count = self.count - 1;
            if tag == TAG_INT64 {
                Some(Value::Int64(x as i64))
            } else if tag == TAG_UINT64 {
                Some(Value::UInt64(x))
            } else {
                Some(Value::Double(x))
            }
        } else if tag == TAG_ERROR || tag == TAG_STRING || tag == TAG_OPAQUE || tag
            == TAG_FUNCTION || tag == TAG_EMBEDDED {
            let bs = slice_subrange(self.buff, self.off + 1, self.off + 5);
            proof {
                assert(bs@ =~= brem.subrange(1, 5));
            }
            let len32 = u32_from_le_bytes(bs);
            let len = len32 as usize;
            if rem - 5 < len {
                return None;
            }
            let payload = slice_subrange(self.buff, self.off + 5, self.off + 5 + len);
            proof {
                assert(payload@ =~= brem.subrange(5, 5 + len));
                assert(brem.skip(5 + len) =~= self.buff@.subrange(
                    self.off + 5 + len,
                    self.end as int,
                ));
            }
            if tag == TAG_OPAQUE {
                self.off = self.off + 5 + len;
                self.count = self.count - 1;
                Some(Value::Opaque(slice_to_vec(payload)))
            } else if tag == TAG_ERROR || tag == TAG_STRING {
                let sl = if len == 0 {
                    0
                } else {
                    len - 1
                };
                let sb = slice_subrange(payload, 0, sl);
                proof {
                    if len == 0 {
                        assert(sb@ =~= payload@);
                    } else {
                        assert(sb@ =~= payload@.take(len - 1));
                    }
                }
                if !check_utf8(sb) {
                    return None;
                }
                self.off = self.off + 5 + len;
                self.count = self.count - 1;
                if tag == TAG_ERROR {
                    Some(Value::Error(slice_to_vec(sb)))
                } else {
                    Some(Value::String(slice_to_vec(sb)))
                }
            } else if tag == TAG_FUNCTION {
                let sl = if len == 0 {
                    0
                } else {
                    len - 1
                };
                let body = slice_subrange(payload, 0, sl);
                proof {
                    if len == 0 {
                        assert(body@ =~= payload@);
                    } else {
                        assert(body@ =~= payload@.take(len - 1));
                    }
                }
                let p = match find_nul_in(body) {
                    Option::None => {
                        return None;
                    },
                    Option::Some(p) => p,
                };
                let m = slice_subrange(body, 0, p);
                let nm = slice_subrange(body, p + 1, sl);
                proof {
                    assert(m@ =~= body@.take(p as int));
                    assert(nm@ =~= body@.skip(p + 1));
                }
                if !check_utf8(m) {
                    return None;
                }
                if !check_utf8(nm) {
                    return None;
                }
                self.off = self.off + 5 + len;
                self.count = self.count - 1;
                Some(Value::Function(OwnedFunction {
                    module: slice_to_vec(m),
                    name: slice_to_vec(nm),
                }))
            } else {
                let inner = match decode_values(payload) {
                    Option::None => {
                        return None;
                    },
                    Option::Some(vs) => vs,
                };
                self.off = self.off + 5 + len;
                self.count = self.count - 1;
                Some(Value::Embedded(inner))
            }
        } else {
            None
        }
    }
}

/// Open a reader over an encoded stream; `None` if the header is absent or
/// the stream is shorter than its declared size.
pub fn decode_sos<'a>(buff: &'a [u8]) -> (r: Option<DecodeIter<'a>>)
    ensures
        r is Some <==> dec_list(buff@) is Some,
        r is Some ==> r->0.spec_count() == spec_u32_from_le_bytes(buff@.subrange(0, 4)),
        r is Some ==> r->0.wf() && r->0.src() == buff@ && dec_prefix(
            r->0.remaining(),
            r->0.spec_count(),
        ) == dec_list(buff@)->0,
    decreases buff@.len(), 1int,
{
    if buff.len() < 8 {
        return None;
    }
    let cb = slice_subrange(buff, 0, 4);
    let sb = slice_subrange(buff, 4, 8);
    proof {
        assert(cb@ =~= buff@.subrange(0, 4));
        assert(sb@ =~= buff@.subrange(4, 8));
    }
    let count = u32_from_le_bytes(cb);
    let size32 = u32_from_le_bytes(sb);
    let size = size32 as usize;
    if buff.len() < size || size < 8 {
        return None;
    }
    let it = DecodeIter { buff, off: 8, end: size, count: count as usize };
    proof {
        assert(it.remaining() =~= buff@.subrange(8, size as int));
    }
    Some(it)
}

/// The model of a pushed-onto value sequence grows by the pushed value.
pub proof fn lemma_dviews_push_pub(vs: Seq<Value>, v: Value)
    ensures
        dviews(vs.push(v)) == dviews(vs) + seq![dview(v)],
{
    lemma_dviews_push(vs, v);
}

/// The model of a pushed-onto value sequence grows by the pushed value.
proof fn lemma_dviews_push(vs: Seq<Value>, v: Value)
    ensures
        dviews(vs.push(v)) == dviews(vs) + seq![dview(v)],
{
    lemma_dviews(vs.push(v));
    lemma_dviews(vs);
    assert(dviews(vs.push(v)) =~= dviews(vs) + seq![dview(v)]);
}

/// Decode a stream eagerly: every value the reader yields, in order.
/// Returns `None` exactly when the stream header is bad; a malformed value
/// mid-stream ends the list early, as the reader does.
pub fn decode_values(buff: &[u8]) -> (r: Option<Vec<Value>>)
    ensures
        r is Some <==> dec_list(buff@) is Some,
        r is Some ==> dviews(r->0@) == dec_list(buff@)->0,
    decreases buff@.len(), 2int,
{
    let mut it = match decode_sos(buff) {
        Option::None => {
            return None;
        },
        Option::Some(it) => it,
    };
    let ghost target = dec_list(buff@)->0;
    let mut vs: Vec<Value> = Vec::new();
    proof {
        lemma_dviews(vs@);
        assert(dviews(vs@) + dec_prefix(it.remaining(), it.spec_count()) =~= target);
    }
    loop
        invariant_except_break
            it.wf(),
            it.src() == buff@,
            it.remaining().len() <= buff@.len(),
            dviews(vs@) + dec_prefix(it.remaining(), it.spec_count()) == target,
        ensures
            dviews(vs@) == target,
        decreases it.spec_count(),
    {
        let ghost prev_rem = it.remaining();
        let ghost prev_count = it.spec_count();
        let ghost prev_vs = vs@;
        match it.next() {
            Option::Some(v) => {
                vs.push(v);
                proof {
                    lemma_dviews_push(prev_vs, v);
                    assert(dec_prefix(prev_rem, prev_count) == seq![dview(v)] + dec_prefix(
                        it.remaining(),
                        it.spec_count(),
                    ));
                    assert(dviews(vs@) + dec_prefix(it.remaining(), it.spec_count()) =~= target);
                }
            },
            Option::None => {
                proof {
                    assert(dec_prefix(prev_rem, prev_count) =~= Seq::<SosData>::empty());
                    assert(dviews(vs@) =~= target);
                }
                break;
            },
        }
    }
    Some(vs)
}


// Round trip: what was encoded decodes back, value for value.

/// Every value occupies at least the tag and four more bytes on the wire.
proof fn lemma_enc_len_min(d: SosData)
    ensures
        enc_len_data(d) >= 5,
{
}

/// The first NUL of `m NUL n` is right after `m` when `m` is NUL-free.
proof fn lemma_find_nul_sep(m: Seq<u8>, n: Seq<u8>)
    requires
        forall|i: int| 0 <= i < m.len() ==> m[i] != 0,
    ensures
        find_nul(m + seq![0u8] + n) == m.len(),
    decreases m.len(),
{
    let whole = m + seq![0u8] + n;
    if m.len() == 0 {
        assert(whole[0] == 0);
    } else {
        assert(whole[0] == m[0]);
        let m1 = m.skip(1);
        lemma_find_nul_sep(m1, n);
        assert(whole.skip(1) =~= m1 + seq![0u8] + n);
    }
}

/// Decoding one encoded value from the front of a stream gives back that
/// value and leaves exactly the bytes that followed it.
proof fn lemma_round_value(d: SosData, suffix: Seq<u8>)
    requires
        wf_data(d),
    ensures
        dec_value(enc_data(d) + suffix) == Some((d, suffix)),
    decreases d, 0int, 0int,
{
    vstd::bytes::lemma_auto_spec_u32_to_from_le_bytes();
    vstd::bytes::lemma_auto_spec_u64_to_from_le_bytes();
    let b = enc_data(d) + suffix;
    match d {
        SosData::Int32(i) => {
            assert(b[0] == TAG_INT32);
            assert(b.subrange(1, 5) =~= spec_u32_to_le_bytes(i as u32));
            assert((i as u32) as i32 == i) by (bit_vector);
            assert(b.skip(5) =~= suffix);
        },
        SosData::UInt32(i) => {
            assert(b[0] == TAG_UINT32);
            assert(b.subrange(1, 5) =~= spec_u32_to_le_bytes(i));
            assert(b.skip(5) =~= suffix);
        },
        SosData::Float(i) => {
            assert(b[0] == TAG_FLOAT);
            assert(b.subrange(1, 5) =~= spec_u32_to_le_bytes(i));
            assert(b.skip(5) =~= suffix);
        },
        SosData::Int64(i) => {
            assert(b[0] == TAG_INT64);
            assert(b.subrange(1, 9) =~= spec_u64_to_le_bytes(i as u64));
            assert((i as u64) as i64 == i) by (bit_vector);
            assert(b.skip(9) =~= suffix);
        },
        SosData::UInt64(i) => {
            assert(b[0] == TAG_UINT64);
            assert(b.subrange(1, 9) =~= spec_u64_to_le_bytes(i));
            assert(b.skip(9) =~= suffix);
        },
        SosData::Double(i) => {
            assert(b[0] == TAG_DOUBLE);
            assert(b.subrange(1, 9) =~= spec_u64_to_le_bytes(i));
            assert(b.skip(9) =~= suffix);
        },
        SosData::Error(t) => {
            assert(b[0] == TAG_ERROR);
            let len = (t.len() + 1) as int;
            assert(b.subrange(1, 5) =~= spec_u32_to_le_bytes(len as u32));
            assert(spec_u32_from_le_bytes(b.subrange(1, 5)) == len);
            assert(b.len() >= 5 + len);
            assert(b.subrange(5, 5 + len) =~= t + seq![0u8]);
            assert(b.subrange(5, 5 + len).take(len - 1) =~= t);
            assert(b.skip(5 + len) =~= suffix);
        },
        SosData::String(t) => {
            assert(b[0] == TAG_STRING);
            let len = (t.len() + 1) as int;
            assert(b.subrange(1, 5) =~= spec_u32_to_le_bytes(len as u32));
            assert(spec_u32_from_le_bytes(b.subrange(1, 5)) == len);
            assert(b.len() >= 5 + len);
            assert(b.subrange(5, 5 + len) =~= t + seq![0u8]);
            assert(b.subrange(5, 5 + len).take(len - 1) =~= t);
            assert(b.skip(5 + len) =~= suffix);
        },
        SosData::Opaque(t) => {
            assert(b[0] == TAG_OPAQUE);
            let len = t.len() as int;
            assert(b.subrange(1, 5) =~= spec_u32_to_le_bytes(len as u32));
            assert(spec_u32_from_le_bytes(b.subrange(1, 5)) == len);
            assert(b.subrange(5, 5 + len) =~= t);
            assert(b.skip(5 + len) =~= suffix);
        },
        SosData::Function(m, n) => {
            assert(b[0] == TAG_FUNCTION);
            let len = (m.len() + n.len() + 2) as int;
            assert(b.subrange(1, 5) =~= spec_u32_to_le_bytes(len as u32));
            assert(spec_u32_from_le_bytes(b.subrange(1, 5)) == len);
            assert(b.len() >= 5 + len);
            let payload = b.subrange(5, 5 + len);
            assert(payload =~= m + seq![0u8] + n + seq![0u8]);
            let body = payload.take(len - 1);
            assert(body =~= m + seq![0u8] + n);
            lemma_find_nul_sep(m, n);
            assert(body.take(m.len() as int) =~= m);
            assert(body.skip(m.len() as int + 1) =~= n);
            assert(b.skip(5 + len) =~= suffix);
        },
        SosData::Embedded(ds) => {
            assert(b[0] == TAG_EMBEDDED);
            lemma_enc_list_len(ds);
            let len = enc_list_len(ds) as int;
            assert(b.subrange(1, 5) =~= spec_u32_to_le_bytes(len as u32));
            assert(spec_u32_from_le_bytes(b.subrange(1, 5)) == len);
            assert(b.len() >= 5 + len);
            assert(b.subrange(5, 5 + len) =~= enc_list(ds));
            lemma_round_list(ds);
            assert(b.skip(5 + len) =~= suffix);
        },
    }
}

/// Decoding the encoded tail of a value list, from position `i` on, yields
/// exactly the values from position `i` on.
proof fn lemma_round_body(ds: Seq<SosData>, i: int)
    requires
        forall|j: int| 0 <= j < ds.len() ==> wf_data(#[trigger] ds[j]),
        0 <= i <= ds.len(),
    ensures
        dec_prefix(enc_body_from(ds, i), (ds.len() - i) as nat) == ds.skip(i),
    decreases ds, 1int, ds.len() - i,
{
    if i == ds.len() {
        assert(enc_body_from(ds, i) =~= Seq::<u8>::empty());
        assert(ds.skip(i) =~= Seq::<SosData>::empty());
    } else {
        let d = ds[i];
        let tail = enc_body_from(ds, i + 1);
        let b = enc_data(d) + tail;
        assert(enc_body_from(ds, i) == b);
        lemma_round_value(d, tail);
        lemma_enc_data_len(d);
        lemma_enc_len_min(d);
        assert(tail.len() < b.len());
        lemma_round_body(ds, i + 1);
        assert(seq![d] + ds.skip(i + 1) =~= ds.skip(i));
    }
}

/// Decoding an encoded value list yields exactly that list: the codec's
/// round-trip law.  Holds for every encodable list of values, the empty
/// list included.
pub proof fn lemma_round_list(ds: Seq<SosData>)
    requires
        encodable(ds),
    ensures
        dec_list(enc_list(ds)) == Some(ds),
    decreases ds, 2int, 0int,
{
    vstd::bytes::lemma_auto_spec_u32_to_from_le_bytes();
    let b = enc_list(ds);
    lemma_enc_list_len(ds);
    lemma_enc_body_len_from(ds, 0);
    assert(b.subrange(0, 4) =~= spec_u32_to_le_bytes(ds.len() as u32));
    assert(b.subrange(4, 8) =~= spec_u32_to_le_bytes(enc_list_len(ds) as u32));
    let size = enc_list_len(ds) as int;
    assert(spec_u32_from_le_bytes(b.subrange(4, 8)) == size);
    assert(b.len() == size);
    assert(b.subrange(8, size) =~= enc_body_from(ds, 0));
    lemma_round_body(ds, 0);
    assert(ds.skip(0) =~= ds);
    assert(spec_u32_from_le_bytes(b.subrange(0, 4)) as nat == ds.len());
}

/// The empty value list encodes to exactly eight bytes, a zero count and a
/// total length of eight, and that encoding decodes back to the empty list.
pub proof fn lemma_empty_stream()
    ensures
        enc_list_len(Seq::<SosData>::empty()) == 8,
        enc_list(Seq::<SosData>::empty()).len() == 8,
        dec_list(enc_list(Seq::<SosData>::empty())) == Some(Seq::<SosData>::empty()),
        encodable(Seq::<SosData>::empty()),
{
    let e = Seq::<SosData>::empty();
    lemma_enc_list_len(e);
    lemma_round_list(e);
}

// Plain-text helpers: kernel-side messages are ASCII.

/// Seven-bit bytes are valid UTF-8.
pub proof fn lemma_ascii_is_utf8(s: Seq<u8>)
    requires
        forall|i: int| 0 <= i < s.len() ==> s[i] < 0x80,
    ensures
        is_utf8(s),
    decreases s.len(),
{
    if s.len() > 0 {
        assert forall|i: int| 0 <= i < s.skip(1).len() implies s.skip(1)[i] < 0x80 by {
            assert(s.skip(1)[i] == s[i + 1]);
        }
        lemma_ascii_is_utf8(s.skip(1));
    }
}

/// The UTF-8 bytes of an ASCII string slice, with their well-formedness.
pub fn text_bytes(s: &str) -> (r: Vec<u8>)
    requires
        vstd::string::is_ascii(s),
    ensures
        r@.len() == s@.len(),
        forall|i: int| 0 <= i < r@.len() ==> r@[i] == s@[i] as u8 && r@[i] < 0x80,
        is_utf8(r@),
        r@ == s.spec_bytes(),
{
    proof {
        vstd::string::is_ascii_spec_bytes(s);
    }
    let b = s.as_bytes();
    proof {
        assert forall|i: int| 0 <= i < b@.len() implies b@[i] == s@[i] as u8 && b@[i] < 0x80 by {
            assert(b@[i] == s@.index(i) as u8);
        }
        lemma_ascii_is_utf8(b@);
    }
    slice_to_vec(b)
}

// Carriers used by the call paths.

/// An encoded stream held as owned bytes.
pub struct EncodedValues(pub Vec<u8>);

impl EncodedValues {
    /// Decode the held stream eagerly.
    pub fn decode(&self) -> (r: Option<Vec<Value>>)
        ensures
            r is Some <==> dec_list(self.0@) is Some,
            r is Some ==> dviews(r->0@) == dec_list(self.0@)->0,
    {
        decode_values(self.0.as_slice())
    }

    /// Give up the wrapper and keep the bytes.
    pub fn into_owned(self) -> (r: Vec<u8>)
        ensures
            r@ == self.0@,
    {
        self.0
    }
}

/// A one-element error payload: the shape every failing call path returns.
pub struct JustError {
    msg: Vec<u8>,
}

impl JustError {
    /// The single value this payload carries.
    pub closed spec fn model(self) -> Seq<SosData> {
        seq![SosData::Error(self.msg@)]
    }

    pub closed spec fn msg_bytes(self) -> Seq<u8> {
        self.msg@
    }

    pub open spec fn wf(self) -> bool {
        encodable(self.model())
    }

    /// Wrap an ASCII message as an error payload.
    pub fn new(error: &str) -> (r: JustError)
        requires
            vstd::string::is_ascii(error),
            error@.len() + 14 <= u32::MAX,
        ensures
            r.model() == seq![SosData::Error(error.spec_bytes())],
            r.wf(),
    {
        let msg = text_bytes(error);
        let r = JustError { msg };
        proof {
            assert(r.model() =~= seq![SosData::Error(error.spec_bytes())]);
            assert(enc_list_len(r.model()) == 14 + error@.len());
        }
        r
    }

    /// Number of bytes `encode` produces.
    pub fn encoded_len(&self) -> (n: usize)
        requires
            self.wf(),
        ensures
            n == enc_list_len(self.model()),
    {
        proof {
            assert(enc_list_len(self.model()) == 14 + self.msg@.len());
        }
        14 + self.msg.len()
    }

    /// Encode the error payload as a complete stream.
    pub fn encode(&self) -> (out: Vec<u8>)
        requires
            self.wf(),
        ensures
            out@ == enc_list(self.model()),
    {
        let mut vs: Vec<Value> = Vec::new();
        vs.push(Value::Error(slice_to_vec(self.msg.as_slice())));
        proof {
            lemma_dviews(vs@);
            assert(dviews(vs@) =~= self.model());
        }
        encode_sos(vs.as_slice())
    }
}

// Typed conversion helpers: take the value if it has the asked-for shape,
// report a kind mismatch otherwise.

impl Value {
    /// Wire tag of this value's type.
    pub fn ctype(&self) -> (t: u8)
        ensures
            t == match dview(*self) {
                SosData::Int32(_) => TAG_INT32,
                SosData::UInt32(_) => TAG_UINT32,
                SosData::Int64(_) => TAG_INT64,
                SosData::UInt64(_) => TAG_UINT64,
                SosData::Float(_) => TAG_FLOAT,
                SosData::Double(_) => TAG_DOUBLE,
                SosData::Error(_) => TAG_ERROR,
                SosData::String(_) => TAG_STRING,
                SosData::Opaque(_) => TAG_OPAQUE,
                SosData::Function(_, _) => TAG_FUNCTION,
                SosData::Embedded(_) => TAG_EMBEDDED,
            },
    {
        match self {
            Value::Int32(_) => TAG_INT32,
            Value::UInt32(_) => TAG_UINT32,
            Value::Int64(_) => TAG_INT64,
            Value::UInt64(_) => TAG_UINT64,
            Value::Float(_) => TAG_FLOAT,
            Value::Double(_) => TAG_DOUBLE,
            Value::Error(_) => TAG_ERROR,
            Value::String(_) => TAG_STRING,
            Value::Opaque(_) => TAG_OPAQUE,
            Value::Function(_) => TAG_FUNCTION,
            Value::Embedded(_) => TAG_EMBEDDED,
        }
    }

    /// The function reference held, or a kind mismatch.
    pub fn into_function(self) -> (r: Result<OwnedFunction, ()>)
        ensures
            r is Ok <==> self is Function,
            r is Ok ==> dview(self) == SosData::Function(r->Ok_0.module@, r->Ok_0.name@),
    {
        match self {
            Value::Function(f) => Ok(f),
            _ => Err(()),
        }
    }

    /// The unsigned 64-bit integer held, or a kind mismatch.
    pub fn into_u64(self) -> (r: Result<u64, ()>)
        ensures
            r is Ok <==> self is UInt64,
            r is Ok ==> dview(self) == SosData::UInt64(r->Ok_0),
    {
        match self {
            Value::UInt64(i) => Ok(i),
            _ => Err(()),
        }
    }

    /// The text bytes held by a string or error value, or a kind mismatch.
    pub fn into_text(self) -> (r: Result<Vec<u8>, ()>)
        ensures
            r is Ok <==> (self is String || self is Error),
            r is Ok ==> (dview(self) == SosData::String(r->Ok_0@) || dview(self)
                == SosData::Error(r->Ok_0@)),
    {
        match self {
            Value::String(b) => Ok(b),
            Value::Error(b) => Ok(b),
            _ => Err(()),
        }
    }

    /// The raw bytes held by an opaque value, or a kind mismatch.
    pub fn into_opaque(self) -> (r: Result<Vec<u8>, ()>)
        ensures
            r is Ok <==> self is Opaque,
            r is Ok ==> dview(self) == SosData::Opaque(r->Ok_0@),
    {
        match self {
            Value::Opaque(b) => Ok(b),
            _ => Err(()),
        }
    }
}

} // verus!
