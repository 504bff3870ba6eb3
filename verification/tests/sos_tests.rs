//! The codec end to end: round trips, the empty stream, malformed input,
//! and the typed accessors.

use rand::RngExt;
use rand::SeedableRng;
use rand_xorshift::XorShiftRng;
use rio::sos::{
    decode_sos, decode_values, encode_sos, encoded_len, EncodedValues, JustError, OwnedFunction,
    Value,
};

fn text(s: &str) -> Vec<u8> {
    s.as_bytes().to_vec()
}

#[test]
fn encode_decode() {
    let vals = vec![
        Value::Int32(3),
        Value::Double(2.8f64.to_bits()),
        Value::Error(text("Hello")),
        Value::Opaque(vec![1, 2, 3]),
        Value::String(text("world")),
    ];
    let buf = encode_sos(&vals);
    let decoded = decode_values(&buf).expect("header must parse");
    assert_eq!(vals, decoded);
}

const MAX_LENGTH: usize = 1000;
const MAX_EMBEDDED_SIZE: usize = 5;

fn gen_rand_string<R: rand::Rng>(rng: &mut R) -> Vec<u8> {
    let length = rng.random::<u64>() as usize % MAX_LENGTH;
    (0..length)
        .map(|_| {
            let set = b"ABCDEFGHIJKLMNOPQRSTUVWXYZabcdefghijklmnopqrstuvwxyz0123456789";
            set[rng.random::<u64>() as usize % set.len()]
        })
        .collect()
}

fn gen_rand_type<R: rand::Rng>(t: usize, rng: &mut R, depth: usize) -> Value {
    match t {
        0 => Value::Int32(rng.random::<u32>() as i32),
        1 => Value::UInt32(rng.random::<u32>()),
        2 => Value::Int64(rng.random::<u64>() as i64),
        3 => Value::UInt64(rng.random::<u64>()),
        4 => Value::Float(rng.random::<u32>()),
        5 => Value::Double(rng.random::<u64>()),
        6 => Value::Error(gen_rand_string(rng)),
        7 => Value::String(gen_rand_string(rng)),
        8 => {
            let length = rng.random::<u64>() as usize % MAX_LENGTH;
            Value::Opaque((0..length).map(|_| rng.random::<u64>() as u8).collect())
        }
        9 => Value::Function(OwnedFunction {
            module: gen_rand_string(rng),
            name: gen_rand_string(rng),
        }),
        _ => {
            if depth == 0 {
                Value::Int32(0)
            } else {
                Value::Embedded(gen_rand_sos(MAX_EMBEDDED_SIZE, rng, depth - 1))
            }
        }
    }
}

fn gen_rand_sos<R: rand::Rng>(num_values: usize, rng: &mut R, depth: usize) -> Vec<Value> {
    (0..num_values)
        .map(|_| gen_rand_type(rng.random::<u64>() as usize % 11, rng, depth))
        .collect()
}

#[test]
fn rand_encode_decode() {
    let mut rng = XorShiftRng::seed_from_u64(10);
    let vals = gen_rand_sos(MAX_EMBEDDED_SIZE, &mut rng, 2);
    let buf = encode_sos(&vals);
    assert_eq!(buf.len(), encoded_len(&vals));
    let decoded = decode_values(&buf).expect("header must parse");
    assert_eq!(vals, decoded);
}

#[test]
fn empty_stream_is_eight_bytes() {
    let vals: Vec<Value> = Vec::new();
    let buf = encode_sos(&vals);
    assert_eq!(buf.len(), 8);
    assert_eq!(&buf[0..4], &[0, 0, 0, 0]);
    assert_eq!(&buf[4..8], &[8, 0, 0, 0]);
    let decoded = decode_values(&buf).expect("the empty stream decodes");
    assert!(decoded.is_empty());
    let mut it = decode_sos(&buf).expect("the empty stream opens");
    assert_eq!(it.count(), 0);
    assert_eq!(it.next(), None);
}

#[test]
fn stream_header_counts_values() {
    let vals = vec![
        Value::Int64(3),
        Value::Double(2.8f64.to_bits()),
        Value::Error(text("Hello")),
        Value::Opaque(vec![1, 2, 3]),
        Value::String(text("world")),
    ];
    let buf = encode_sos(&vals);
    assert_eq!(&buf[0..4], &5u32.to_le_bytes());
    assert_eq!(&buf[4..8], &(buf.len() as u32).to_le_bytes());
    let decoded = decode_values(&buf).expect("header must parse");
    assert_eq!(vals, decoded);
}

#[test]
fn garbage_terminates_early() {
    assert!(decode_values(&[]).is_none());
    assert!(decode_values(&[1, 2, 3]).is_none());
    // A valid header whose single value has an unknown tag: the reader
    // yields an empty prefix.
    let mut buf = Vec::new();
    buf.extend_from_slice(&1u32.to_le_bytes());
    buf.extend_from_slice(&14u32.to_le_bytes());
    buf.extend_from_slice(&[200, 0, 0, 0, 0, 0]);
    let decoded = decode_values(&buf).expect("header is fine");
    assert!(decoded.is_empty());
    // A declared length overrunning the region also ends the stream.
    let mut buf = Vec::new();
    buf.extend_from_slice(&1u32.to_le_bytes());
    buf.extend_from_slice(&14u32.to_le_bytes());
    buf.push(9);
    buf.extend_from_slice(&100u32.to_le_bytes());
    buf.push(0);
    let decoded = decode_values(&buf).expect("header is fine");
    assert!(decoded.is_empty());
    // Sweep arbitrary byte patterns: the decoder must always terminate.
    let mut rng = XorShiftRng::seed_from_u64(7);
    for _ in 0..200 {
        let n = rng.random::<u64>() as usize % 64;
        let bytes: Vec<u8> = (0..n).map(|_| rng.random::<u64>() as u8).collect();
        let _ = decode_values(&bytes);
    }
}

#[test]
fn non_utf8_text_is_rejected() {
    // Tag 8 (string) of length 2: one invalid byte plus the NUL.
    let mut buf = Vec::new();
    buf.extend_from_slice(&1u32.to_le_bytes());
    buf.extend_from_slice(&15u32.to_le_bytes());
    buf.push(8);
    buf.extend_from_slice(&2u32.to_le_bytes());
    buf.push(0xFF);
    buf.push(0);
    let decoded = decode_values(&buf).expect("header is fine");
    assert!(decoded.is_empty());
}

#[test]
fn embedded_round_trip() {
    let inner = vec![Value::UInt32(7), Value::String(text("in"))];
    let vals = vec![Value::Embedded(inner), Value::Int32(-1)];
    let buf = encode_sos(&vals);
    let decoded = decode_values(&buf).expect("header must parse");
    assert_eq!(vals, decoded);
}

#[test]
fn function_round_trip() {
    let vals = vec![Value::Function(OwnedFunction::new(b"call", b"passthrough"))];
    let buf = encode_sos(&vals);
    let decoded = decode_values(&buf).expect("header must parse");
    assert_eq!(vals, decoded);
}

#[test]
fn typed_accessors_report_mismatch() {
    assert!(Value::Int32(1).into_function().is_err());
    assert!(Value::UInt64(1).into_text().is_err());
    assert!(Value::String(text("x")).into_u64().is_err());
    assert!(Value::Opaque(vec![1]).into_opaque().is_ok());
    assert_eq!(Value::UInt64(9).into_u64(), Ok(9));
    let f = Value::Function(OwnedFunction::new(b"m", b"n"))
        .into_function()
        .unwrap();
    assert_eq!(f.module, b"m".to_vec());
    assert_eq!(f.name, b"n".to_vec());
}

#[test]
fn error_payload_is_one_error_value() {
    let payload = JustError::new("No such function").encode();
    let direct = encode_sos(&[Value::Error(text("No such function"))]);
    assert_eq!(payload, direct);
    let decoded = decode_values(&payload).unwrap();
    assert_eq!(decoded, vec![Value::Error(text("No such function"))]);
}

#[test]
fn lazy_reader_is_restartable() {
    let vals = vec![Value::Int32(5), Value::String(text("ab"))];
    let buf = encode_sos(&vals);
    let mut it = decode_sos(&buf).expect("header must parse");
    assert_eq!(it.count(), 2);
    assert_eq!(it.next(), Some(Value::Int32(5)));
    assert_eq!(it.next(), Some(Value::String(text("ab"))));
    assert_eq!(it.next(), None);
    let wrapped = EncodedValues(buf);
    assert_eq!(wrapped.decode().unwrap(), vals);
    let bytes = wrapped.into_owned();
    assert_eq!(decode_values(&bytes).unwrap(), vals);
}
