//! Frames are read as `rmp_serde` reads them.

use kirk::ltx::wire::{decode_one, Field, MAX_FIELDS, MAX_FIELD_BYTES};
use serde::de::{Error, MapAccess, SeqAccess, Visitor};
use serde::{Deserialize, Deserializer};
use std::fmt::Formatter;

const MAX_DECODE_DEPTH: usize = 4;

/// A field that `rmp_serde` reads.
struct Scalar(Field);

struct ScalarVisitor;

fn capped<E: Error>(len: usize, field: Field) -> Result<Scalar, E> {
    if len <= MAX_FIELD_BYTES {
        Ok(Scalar(field))
    } else {
        Err(E::custom(format!("field of {len} bytes exceeds {MAX_FIELD_BYTES} bytes")))
    }
}

impl<'de> Visitor<'de> for ScalarVisitor {
    type Value = Scalar;

    fn expecting(&self, f: &mut Formatter<'_>) -> std::fmt::Result {
        f.write_str("a scalar msgpack value")
    }

    fn visit_unit<E: Error>(self) -> Result<Scalar, E> {
        Ok(Scalar(Field::Nil))
    }

    fn visit_bool<E: Error>(self, v: bool) -> Result<Scalar, E> {
        Ok(Scalar(Field::Bool(v)))
    }

    fn visit_u64<E: Error>(self, v: u64) -> Result<Scalar, E> {
        Ok(Scalar(Field::U64(v)))
    }

    fn visit_i64<E: Error>(self, v: i64) -> Result<Scalar, E> {
        Ok(Scalar(Field::I64(v)))
    }

    fn visit_f32<E: Error>(self, v: f32) -> Result<Scalar, E> {
        Ok(Scalar(Field::F32(v.to_bits())))
    }

    fn visit_f64<E: Error>(self, v: f64) -> Result<Scalar, E> {
        Ok(Scalar(Field::F64(v.to_bits())))
    }

    fn visit_str<E: Error>(self, v: &str) -> Result<Scalar, E> {
        capped(v.len(), Field::Str(v.to_owned()))
    }

    fn visit_bytes<E: Error>(self, v: &[u8]) -> Result<Scalar, E> {
        capped(v.len(), Field::Bin(v.to_vec()))
    }

    fn visit_seq<A: SeqAccess<'de>>(self, _seq: A) -> Result<Scalar, A::Error> {
        Err(A::Error::custom("nested arrays are not valid LTX fields"))
    }

    fn visit_map<A: MapAccess<'de>>(self, _map: A) -> Result<Scalar, A::Error> {
        Err(A::Error::custom("nested maps are not valid LTX fields"))
    }
}

impl<'de> Deserialize<'de> for Scalar {
    fn deserialize<D: Deserializer<'de>>(deserializer: D) -> Result<Self, D::Error> {
        deserializer.deserialize_any(ScalarVisitor)
    }
}

/// A frame that `rmp_serde` reads.
struct Frame(Vec<Field>);

struct FrameVisitor;

impl<'de> Visitor<'de> for FrameVisitor {
    type Value = Frame;

    fn expecting(&self, f: &mut Formatter<'_>) -> std::fmt::Result {
        f.write_str("an LTX message array")
    }

    fn visit_seq<A: SeqAccess<'de>>(self, mut seq: A) -> Result<Frame, A::Error> {
        let mut fields = Vec::new();
        while let Some(field) = seq.next_element::<Scalar>()? {
            if fields.len() + 1 > MAX_FIELDS {
                return Err(A::Error::custom("message has too many fields"));
            }
            fields.push(field.0);
        }
        Ok(Frame(fields))
    }
}

impl<'de> Deserialize<'de> for Frame {
    fn deserialize<D: Deserializer<'de>>(deserializer: D) -> Result<Self, D::Error> {
        deserializer.deserialize_any(FrameVisitor)
    }
}

/// What `rmp_serde` makes of the head of `buf`.
fn reference(buf: &[u8]) -> Result<Option<(Vec<Field>, usize)>, String> {
    if buf.is_empty() {
        return Ok(None);
    }
    let mut decoder = rmp_serde::Deserializer::new(std::io::Cursor::new(buf));
    decoder.set_max_depth(MAX_DECODE_DEPTH);
    match Frame::deserialize(&mut decoder) {
        Ok(frame) => Ok(Some((frame.0, decoder.position() as usize))),
        Err(
            rmp_serde::decode::Error::InvalidMarkerRead(io)
            | rmp_serde::decode::Error::InvalidDataRead(io),
        ) if io.kind() == std::io::ErrorKind::UnexpectedEof => Ok(None),
        Err(error) => Err(format!("LTX error: can't decode LTX frame: {error}")),
    }
}

fn check(buf: &[u8]) {
    let ours = decode_one(buf).map_err(|e| e.to_string());
    assert_eq!(ours, reference(buf), "{buf:02x?}");
}

#[test]
fn every_marker_is_read_alike() {
    let tail = [0x00, 0x00, 0x00, 0x03, b'a', b'b', b'c', 0x01, 0x02, 0x03, 0x04, 0x05];
    for first in 0..=255u8 {
        for second in 0..=255u8 {
            check(&[first]);
            check(&[first, second]);
            let mut buf = vec![first, second];
            buf.extend_from_slice(&tail);
            check(&buf);
            let mut frame = vec![0x92, first, second];
            check(&frame);
            frame.extend_from_slice(&tail);
            check(&frame);
        }
    }
}

#[test]
fn lengths_are_read_alike() {
    for header in [
        vec![0xd9, 5],
        vec![0xda, 0, 5],
        vec![0xdb, 0, 0, 0, 5],
        vec![0xc4, 5],
        vec![0xc5, 0, 5],
        vec![0xc6, 0, 0, 0, 5],
        vec![0xa5],
        vec![0xdb, 0xff, 0xff, 0xff, 0xff],
        vec![0xc6, 0xff, 0xff, 0xff, 0xff],
    ] {
        for body in ["hello", "hé!!", "hell", ""] {
            let mut buf = vec![0x91];
            buf.extend_from_slice(&header);
            buf.extend_from_slice(body.as_bytes());
            for end in 0..=buf.len() {
                check(&buf[..end]);
            }
        }
        let mut buf = vec![0x91];
        buf.extend_from_slice(&header);
        buf.extend_from_slice(&[0xff, 0xc3, 0x28, 0x80, 0x41]);
        check(&buf);
    }
}

#[test]
fn arrays_are_read_alike() {
    for count in 0..12u8 {
        let fields = vec![0x07; count as usize];
        for header in [
            vec![0x90 | count],
            vec![0xdc, 0, count],
            vec![0xdd, 0, 0, 0, count],
        ] {
            let mut buf = header;
            buf.extend_from_slice(&fields);
            for end in 0..=buf.len() {
                check(&buf[..end]);
            }
            buf.push(0x2a);
            check(&buf);
        }
    }
    check(&[0x91, 0x91, 0x91, 0x91, 0x91, 0x91, 0x01]);
    check(&[0x92, 0x01, 0x81, 0x01, 0x01]);
}

#[test]
fn long_fields_are_refused_alike() {
    for extra in [0, 1] {
        for marker in [0xdb, 0xc6] {
            let len = (MAX_FIELD_BYTES + extra) as u32;
            let mut buf = vec![0x91, marker];
            buf.extend_from_slice(&len.to_be_bytes());
            buf.resize(buf.len() + len as usize, b'x');
            let ours = decode_one(&buf).map_err(|e| e.to_string());
            assert!(ours == reference(&buf), "{marker:02x} {extra}");
        }
    }
}

#[test]
fn lone_floats_are_told_with_their_digits() {
    let told = |bytes: &[u8]| decode_one(bytes).unwrap_err().to_string();
    for (value, digits) in [(1.5, "1.5"), (-2.0, "-2.0"), (1e20, "100000000000000000000.0")] {
        let mut bytes = vec![0xcb];
        bytes.extend_from_slice(&f64::to_be_bytes(value));
        check(&bytes);
        assert_eq!(
            told(&bytes),
            format!(
                "LTX error: can't decode LTX frame: invalid type: floating point `{digits}`, \
                 expected an LTX message array"
            )
        );
    }
    for value in [0.1f32, -0.0, f32::NAN, f32::INFINITY] {
        let mut bytes = vec![0xca];
        bytes.extend_from_slice(&value.to_be_bytes());
        check(&bytes);
        bytes.push(0x90);
        check(&bytes);
    }
}
