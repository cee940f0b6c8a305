//! Frames of the LTX wire format.
//!
//! A frame is one MessagePack array of scalar values. Nested arrays and maps
//! are refused, the number of fields is capped at [`MAX_FIELDS`] and the size
//! of a single text or binary field at [`MAX_FIELD_BYTES`].

use crate::errors::ErrorView;
use crate::errors::KirkError;
use crate::text;
use vstd::prelude::*;

verus! {

/// Maximum number of fields accepted in a single frame.
pub const MAX_FIELDS: usize = 8;

/// Maximum size of a single string/binary field.
pub const MAX_FIELD_BYTES: usize = 8388608;

/// A single scalar value.
///
/// Floating point values are carried as the bits of their IEEE 754 form.
#[derive(Debug, Clone, PartialEq, Eq)]
pub enum Field {
    /// No value.
    Nil,
    /// Truth value.
    Bool(bool),
    /// Unsigned integer.
    U64(u64),
    /// Signed integer.
    I64(i64),
    /// Bits of a single precision number.
    F32(u32),
    /// Bits of a double precision number.
    F64(u64),
    /// Text.
    Str(String),
    /// Raw bytes.
    Bin(Vec<u8>),
}

/// What a field holds.
pub enum FieldView {
    /// No value.
    Nil,
    /// Truth value.
    Bool(bool),
    /// Unsigned integer.
    U64(u64),
    /// Signed integer.
    I64(i64),
    /// Bits of a single precision number.
    F32(u32),
    /// Bits of a double precision number.
    F64(u64),
    /// Text.
    Str(Seq<char>),
    /// Raw bytes.
    Bin(Seq<u8>),
}

impl View for Field {
    type V = FieldView;

    open spec fn view(&self) -> FieldView {
        match self {
            Field::Nil => FieldView::Nil,
            Field::Bool(b) => FieldView::Bool(*b),
            Field::U64(n) => FieldView::U64(*n),
            Field::I64(n) => FieldView::I64(*n),
            Field::F32(n) => FieldView::F32(*n),
            Field::F64(n) => FieldView::F64(*n),
            Field::Str(s) => FieldView::Str(s@),
            Field::Bin(b) => FieldView::Bin(b@),
        }
    }
}

/// What the fields of a frame hold.
pub open spec fn field_views(v: Seq<Field>) -> Seq<FieldView> {
    v.map_values(|f: Field| f@)
}

/// Number of an integer field.
pub open spec fn int_of(f: FieldView) -> Option<int> {
    match f {
        FieldView::U64(n) => Some(n as int),
        FieldView::I64(n) => Some(n as int),
        _ => None,
    }
}

/// Opcode that a field is, or the error it gives.
pub open spec fn opcode_in(f: FieldView) -> Result<u8, ErrorView> {
    match int_of(f) {
        Some(n) => if 0 <= n <= u8::MAX {
            Ok(n as u8)
        } else {
            Err(
                ErrorView::Ltx(
                    "integer "@ + text::signed_text(n) + " does not fit in a msgpack opcode"@,
                ),
            )
        },
        None => Err(ErrorView::Ltx("message opcode must be an integer"@)),
    }
}

/// Timestamp that a field is, or the error it gives.
pub open spec fn timestamp_in(f: FieldView) -> Result<u64, ErrorView> {
    match int_of(f) {
        Some(n) => if n >= 0 {
            Ok(n as u64)
        } else {
            Err(ErrorView::Ltx("negative timestamp "@ + text::signed_text(n)))
        },
        None => Err(ErrorView::Ltx("expected an integer field"@)),
    }
}

/// Status code that a field is, or the error it gives.
pub open spec fn status_in(f: FieldView) -> Result<i32, ErrorView> {
    match int_of(f) {
        Some(n) => if i32::MIN <= n <= i32::MAX {
            Ok(n as i32)
        } else {
            Err(ErrorView::Ltx("integer "@ + text::signed_text(n) + " does not fit in i32"@))
        },
        None => Err(ErrorView::Ltx("expected an integer field"@)),
    }
}

/// Text that a field is, or the error it gives.
pub open spec fn text_in(f: FieldView) -> Result<Seq<char>, ErrorView> {
    match f {
        FieldView::Str(s) => Ok(s),
        _ => Err(ErrorView::Ltx("expected a string field"@)),
    }
}

/// Bytes that a field is, or the error it gives.
pub open spec fn bytes_in(f: FieldView) -> Result<Seq<u8>, ErrorView> {
    match f {
        FieldView::Bin(b) => Ok(b),
        FieldView::Str(s) => Ok(vstd::utf8::encode_utf8(s)),
        _ => Err(ErrorView::Ltx("expected a bytes field"@)),
    }
}

fn number_error(before: &str, n: i64, after: &str) -> (e: KirkError)
    ensures
        e@ == ErrorView::Ltx(before@ + text::signed_text(n as int) + after@),
{
    let digits = text::signed_decimal(n);
    KirkError::Ltx(text::cat3(before, digits.as_str(), after))
}

fn unsigned_error(before: &str, n: u64, after: &str) -> (e: KirkError)
    ensures
        e@ == ErrorView::Ltx(before@ + text::signed_text(n as int) + after@),
{
    let digits = text::decimal(n);
    KirkError::Ltx(text::cat3(before, digits.as_str(), after))
}

impl Field {
    /// Interpret the field as an opcode byte.
    pub fn as_u8(&self) -> (r: Result<u8, KirkError>)
        ensures
            match r {
                Ok(v) => opcode_in(self@) == Ok::<u8, ErrorView>(v),
                Err(e) => opcode_in(self@) == Err::<u8, ErrorView>(e@),
            },
    {
        match self {
            Field::U64(v) => if *v <= 255 {
                Ok(*v as u8)
            } else {
                Err(unsigned_error("integer ", *v, " does not fit in a msgpack opcode"))
            },
            Field::I64(v) => if 0 <= *v && *v <= 255 {
                Ok(*v as u8)
            } else {
                Err(number_error("integer ", *v, " does not fit in a msgpack opcode"))
            },
            _ => Err(KirkError::Ltx(text::owned("message opcode must be an integer"))),
        }
    }

    /// Interpret the field as a nanosecond timestamp.
    pub fn as_u64(&self) -> (r: Result<u64, KirkError>)
        ensures
            match r {
                Ok(v) => timestamp_in(self@) == Ok::<u64, ErrorView>(v),
                Err(e) => timestamp_in(self@) == Err::<u64, ErrorView>(e@),
            },
    {
        match self {
            Field::U64(v) => Ok(*v),
            Field::I64(v) => if *v >= 0 {
                Ok(*v as u64)
            } else {
                let digits = text::signed_decimal(*v);
                Err(KirkError::Ltx(text::cat2("negative timestamp ", digits.as_str())))
            },
            _ => Err(KirkError::Ltx(text::owned("expected an integer field"))),
        }
    }

    /// Interpret the field as a 32-bit status code.
    pub fn as_i32(&self) -> (r: Result<i32, KirkError>)
        ensures
            match r {
                Ok(v) => status_in(self@) == Ok::<i32, ErrorView>(v),
                Err(e) => status_in(self@) == Err::<i32, ErrorView>(e@),
            },
    {
        match self {
            Field::U64(v) => if *v <= 0x7fff_ffff {
                Ok(*v as i32)
            } else {
                Err(unsigned_error("integer ", *v, " does not fit in i32"))
            },
            Field::I64(v) => if -0x8000_0000 <= *v && *v <= 0x7fff_ffff {
                Ok(*v as i32)
            } else {
                Err(number_error("integer ", *v, " does not fit in i32"))
            },
            _ => Err(KirkError::Ltx(text::owned("expected an integer field"))),
        }
    }

    /// Interpret the field as text.
    pub fn as_str(&self) -> (r: Result<&str, KirkError>)
        ensures
            match r {
                Ok(v) => text_in(self@) == Ok::<Seq<char>, ErrorView>(v@),
                Err(e) => text_in(self@) == Err::<Seq<char>, ErrorView>(e@),
            },
    {
        match self {
            Field::Str(s) => Ok(s.as_str()),
            _ => Err(KirkError::Ltx(text::owned("expected a string field"))),
        }
    }

    /// Interpret the field as raw bytes (binary or text).
    pub fn as_bytes(&self) -> (r: Result<&[u8], KirkError>)
        ensures
            match r {
                Ok(v) => bytes_in(self@) == Ok::<Seq<u8>, ErrorView>(v@),
                Err(e) => bytes_in(self@) == Err::<Seq<u8>, ErrorView>(e@),
            },
    {
        match self {
            Field::Bin(b) => Ok(b.as_slice()),
            Field::Str(s) => Ok(s.as_str().as_bytes()),
            _ => Err(KirkError::Ltx(text::owned("expected a bytes field"))),
        }
    }
}

/// Unsigned number written in big-endian bytes.
pub open spec fn be_value(b: Seq<u8>) -> nat
    decreases b.len(),
{
    if b.len() == 0 {
        0
    } else {
        be_value(b.drop_last()) * 256 + b.last() as nat
    }
}

/// Unsigned number in the `n` bytes at `at`, where there are as many.
pub open spec fn be_at(buf: Seq<u8>, at: int, n: nat) -> Option<nat> {
    if at + n <= buf.len() {
        Some(be_value(buf.subrange(at, at + n)))
    } else {
        None
    }
}

/// Number that `v` is in the two's complement form with modulus `modulus`.
pub open spec fn twos_complement(v: nat, modulus: nat) -> int {
    if v < modulus / 2 {
        v as int
    } else {
        v - modulus
    }
}

/// What reading a field comes to.
pub enum FieldStep {
    /// The field, and where the next one starts.
    Done(FieldView, int),
    /// The buffer ends inside the field.
    Short,
    /// The bytes are no field, for the reason given.
    Bad(Seq<char>),
}

/// Reason given for a field over the size cap.
pub open spec fn too_long_text(len: nat) -> Seq<char> {
    "field of "@ + text::decimal_text(len) + " bytes exceeds "@ + text::decimal_text(
        MAX_FIELD_BYTES as nat,
    ) + " bytes"@
}

/// Why bytes are no UTF-8.
pub uninterp spec fn utf8_error(b: Seq<u8>) -> Seq<char>;

/// Reason given for a text that is no UTF-8.
pub open spec fn no_utf8(b: Seq<u8>) -> Seq<char> {
    "string found to be invalid utf8: "@ + utf8_error(b)
}

/// Text of `len` bytes at `at`. Bytes that are no UTF-8 are raw bytes.
pub open spec fn text_at(buf: Seq<u8>, at: int, len: nat) -> FieldStep {
    if at + len > buf.len() {
        FieldStep::Short
    } else {
        let b = buf.subrange(at, at + len);
        if vstd::utf8::valid_utf8(b) {
            if len > MAX_FIELD_BYTES {
                FieldStep::Bad(too_long_text(len))
            } else {
                FieldStep::Done(FieldView::Str(vstd::utf8::decode_utf8(b)), at + len)
            }
        } else if len > MAX_FIELD_BYTES {
            FieldStep::Bad(no_utf8(b))
        } else {
            FieldStep::Done(FieldView::Bin(b), at + len)
        }
    }
}

/// Raw bytes, `len` of them, at `at`.
pub open spec fn bytes_at(buf: Seq<u8>, at: int, len: nat) -> FieldStep {
    if at + len > buf.len() {
        FieldStep::Short
    } else if len > MAX_FIELD_BYTES {
        FieldStep::Bad(too_long_text(len))
    } else {
        FieldStep::Done(FieldView::Bin(buf.subrange(at, at + len)), at + len)
    }
}

/// Text whose length stands in the `n` bytes at `at`.
pub open spec fn long_text_at(buf: Seq<u8>, at: int, n: nat) -> FieldStep {
    match be_at(buf, at, n) {
        Some(len) => text_at(buf, at + n, len),
        None => FieldStep::Short,
    }
}

/// Raw bytes whose length stands in the `n` bytes at `at`.
pub open spec fn long_bytes_at(buf: Seq<u8>, at: int, n: nat) -> FieldStep {
    match be_at(buf, at, n) {
        Some(len) => bytes_at(buf, at + n, len),
        None => FieldStep::Short,
    }
}

/// Refusal for `reason`, once the `n` length bytes at `at` are there.
pub open spec fn refused_at(buf: Seq<u8>, at: int, n: nat, reason: Seq<char>) -> FieldStep {
    if at + n > buf.len() {
        FieldStep::Short
    } else {
        FieldStep::Bad(reason)
    }
}

/// Unsigned number of `n` bytes at `at`.
pub open spec fn unsigned_at(buf: Seq<u8>, at: int, n: nat) -> FieldStep {
    match be_at(buf, at, n) {
        Some(v) => FieldStep::Done(FieldView::U64(v as u64), at + n),
        None => FieldStep::Short,
    }
}

/// Signed number of `n` bytes at `at`.
pub open spec fn signed_at(buf: Seq<u8>, at: int, n: nat, modulus: nat) -> FieldStep {
    match be_at(buf, at, n) {
        Some(v) => FieldStep::Done(FieldView::I64(twos_complement(v, modulus) as i64), at + n),
        None => FieldStep::Short,
    }
}

/// Reason given for an array inside a frame.
pub open spec fn nested_array() -> Seq<char> {
    "nested arrays are not valid LTX fields"@
}

/// Reason given for a map inside a frame.
pub open spec fn nested_map() -> Seq<char> {
    "nested maps are not valid LTX fields"@
}

/// Reason given for an extension value inside a frame.
pub open spec fn extension() -> Seq<char> {
    "invalid type: newtype struct, expected a scalar msgpack value"@
}

/// Field at `at`: the first byte says what follows.
#[verifier::opaque]
pub open spec fn field_at(buf: Seq<u8>, at: int) -> FieldStep {
    if at >= buf.len() {
        FieldStep::Short
    } else {
        let m = buf[at];
        let next = at + 1;
        if m <= 0x7f {
            FieldStep::Done(FieldView::U64(m as u64), next)
        } else if m <= 0x8f {
            FieldStep::Bad(nested_map())
        } else if m <= 0x9f {
            FieldStep::Bad(nested_array())
        } else if m <= 0xbf {
            text_at(buf, next, (m - 0xa0) as nat)
        } else if m == 0xc0 {
            FieldStep::Done(FieldView::Nil, next)
        } else if m == 0xc1 {
            FieldStep::Bad("wrong msgpack marker Reserved"@)
        } else if m == 0xc2 {
            FieldStep::Done(FieldView::Bool(false), next)
        } else if m == 0xc3 {
            FieldStep::Done(FieldView::Bool(true), next)
        } else if m == 0xc4 {
            long_bytes_at(buf, next, 1)
        } else if m == 0xc5 {
            long_bytes_at(buf, next, 2)
        } else if m == 0xc6 {
            long_bytes_at(buf, next, 4)
        } else if m == 0xc7 {
            refused_at(buf, next, 1, extension())
        } else if m == 0xc8 {
            refused_at(buf, next, 2, extension())
        } else if m == 0xc9 {
            refused_at(buf, next, 4, extension())
        } else if m == 0xca {
            match be_at(buf, next, 4) {
                Some(v) => FieldStep::Done(FieldView::F32(v as u32), next + 4),
                None => FieldStep::Short,
            }
        } else if m == 0xcb {
            match be_at(buf, next, 8) {
                Some(v) => FieldStep::Done(FieldView::F64(v as u64), next + 8),
                None => FieldStep::Short,
            }
        } else if m == 0xcc {
            unsigned_at(buf, next, 1)
        } else if m == 0xcd {
            unsigned_at(buf, next, 2)
        } else if m == 0xce {
            unsigned_at(buf, next, 4)
        } else if m == 0xcf {
            unsigned_at(buf, next, 8)
        } else if m == 0xd0 {
            signed_at(buf, next, 1, 0x100)
        } else if m == 0xd1 {
            signed_at(buf, next, 2, 0x1_0000)
        } else if m == 0xd2 {
            signed_at(buf, next, 4, 0x1_0000_0000)
        } else if m == 0xd3 {
            signed_at(buf, next, 8, 0x1_0000_0000_0000_0000)
        } else if m <= 0xd8 {
            FieldStep::Bad(extension())
        } else if m == 0xd9 {
            long_text_at(buf, next, 1)
        } else if m == 0xda {
            long_text_at(buf, next, 2)
        } else if m == 0xdb {
            long_text_at(buf, next, 4)
        } else if m == 0xdc {
            refused_at(buf, next, 2, nested_array())
        } else if m == 0xdd {
            refused_at(buf, next, 4, nested_array())
        } else if m == 0xde {
            refused_at(buf, next, 2, nested_map())
        } else if m == 0xdf {
            refused_at(buf, next, 4, nested_map())
        } else {
            FieldStep::Done(FieldView::I64(twos_complement(m as nat, 0x100) as i64), next)
        }
    }
}

/// What reading a frame comes to.
pub enum FrameStep {
    /// The fields of the frame, and the number of bytes it takes.
    Whole(Seq<FieldView>, int),
    /// The buffer ends inside the frame.
    Short,
    /// The bytes are no frame, for the reason given.
    Bad(Seq<char>),
}

/// The `left` fields that start at `at`, after the fields `got`.
pub open spec fn fields_at(
    buf: Seq<u8>,
    at: int,
    left: nat,
    got: Seq<FieldView>,
) -> FrameStep
    decreases left,
{
    if left == 0 {
        FrameStep::Whole(got, at)
    } else {
        match field_at(buf, at) {
            FieldStep::Short => FrameStep::Short,
            FieldStep::Bad(reason) => FrameStep::Bad(reason),
            FieldStep::Done(field, next) => if got.len() + 1 > MAX_FIELDS {
                FrameStep::Bad("message has too many fields"@)
            } else {
                fields_at(buf, next, (left - 1) as nat, got.push(field))
            },
        }
    }
}

/// Reason given for a value of another kind where a frame should be.
pub open spec fn not_an_array(found: Seq<char>) -> Seq<char> {
    "invalid type: "@ + found + ", expected an LTX message array"@
}

/// How a floating point number is told in a reason, given its bytes.
pub uninterp spec fn float_told(b: Seq<u8>) -> Seq<char>;

/// How a scalar is told in a reason, given its bytes too.
pub open spec fn told(f: FieldView, b: Seq<u8>) -> Seq<char> {
    match f {
        FieldView::Nil => "unit value"@,
        FieldView::Bool(b) => if b {
            "boolean `true`"@
        } else {
            "boolean `false`"@
        },
        FieldView::U64(n) => "integer `"@ + text::signed_text(n as int) + "`"@,
        FieldView::I64(n) => "integer `"@ + text::signed_text(n as int) + "`"@,
        FieldView::F32(_) => float_told(b),
        FieldView::F64(_) => float_told(b),
        FieldView::Str(s) => "string "@ + text::quoted_text(s),
        FieldView::Bin(_) => "byte array"@,
    }
}

/// A text of `len` bytes at `at` where a frame should be.
pub open spec fn lone_text(buf: Seq<u8>, at: int, len: nat) -> FrameStep {
    if at + len > buf.len() {
        FrameStep::Short
    } else {
        let b = buf.subrange(at, at + len);
        if vstd::utf8::valid_utf8(b) {
            FrameStep::Bad(not_an_array(told(FieldView::Str(vstd::utf8::decode_utf8(b)), b)))
        } else {
            FrameStep::Bad(no_utf8(b))
        }
    }
}

/// A text whose length stands in `n` bytes where a frame should be.
pub open spec fn lone_long_text(buf: Seq<u8>, n: nat) -> FrameStep {
    match be_at(buf, 1, n) {
        Some(len) => lone_text(buf, (1 + n) as int, len),
        None => FrameStep::Short,
    }
}

/// Raw bytes whose length stands in `n` bytes where a frame should be.
pub open spec fn lone_bytes(buf: Seq<u8>, n: nat) -> FrameStep {
    match be_at(buf, 1, n) {
        Some(len) => if 1 + n + len > buf.len() {
            FrameStep::Short
        } else {
            FrameStep::Bad(not_an_array("byte array"@))
        },
        None => FrameStep::Short,
    }
}

/// A value that is no array where a frame should be.
pub open spec fn lone_value(buf: Seq<u8>) -> FrameStep {
    let m = buf[0];
    if 0xa0 <= m <= 0xbf {
        lone_text(buf, 1, (m - 0xa0) as nat)
    } else if m == 0xd9 {
        lone_long_text(buf, 1)
    } else if m == 0xda {
        lone_long_text(buf, 2)
    } else if m == 0xdb {
        lone_long_text(buf, 4)
    } else if m == 0xc4 {
        lone_bytes(buf, 1)
    } else if m == 0xc5 {
        lone_bytes(buf, 2)
    } else if m == 0xc6 {
        lone_bytes(buf, 4)
    } else {
        match field_at(buf, 0) {
            FieldStep::Short => FrameStep::Short,
            FieldStep::Done(f, next) => FrameStep::Bad(
                not_an_array(told(f, buf.subrange(0, next))),
            ),
            FieldStep::Bad(reason) => if reason == nested_map() {
                FrameStep::Bad(not_an_array("map"@))
            } else if reason == extension() {
                FrameStep::Bad(not_an_array("newtype struct"@))
            } else {
                FrameStep::Bad(reason)
            },
        }
    }
}

/// Frame at the head of `buf`.
pub open spec fn frame_of(buf: Seq<u8>) -> FrameStep {
    if buf.len() == 0 {
        FrameStep::Short
    } else {
        let m = buf[0];
        if 0x90 <= m <= 0x9f {
            fields_at(buf, 1, (m - 0x90) as nat, Seq::empty())
        } else if m == 0xdc {
            match be_at(buf, 1, 2) {
                Some(n) => fields_at(buf, 3, n, Seq::empty()),
                None => FrameStep::Short,
            }
        } else if m == 0xdd {
            match be_at(buf, 1, 4) {
                Some(n) => fields_at(buf, 5, n, Seq::empty()),
                None => FrameStep::Short,
            }
        } else {
            lone_value(buf)
        }
    }
}

/// `std::str::from_utf8`: the text that the bytes are in UTF-8, or, where they
/// are no UTF-8, the text of the error, which the bytes alone decide. What
/// that text is is left unsaid.
#[verifier::external_body]
pub(crate) fn utf8_text(b: &[u8]) -> (r: Result<String, String>)
    ensures
        match r {
            Ok(s) => vstd::utf8::valid_utf8(b@) && s@ == vstd::utf8::decode_utf8(b@),
            Err(reason) => !vstd::utf8::valid_utf8(b@) && reason@ == utf8_error(b@),
        },
{
    std::str::from_utf8(b).map(|s| s.to_owned()).map_err(|e| e.to_string())
}

/// `serde::de::Unexpected::Float`, as text, of the number that
/// `rmp_serde::from_slice` reads from the bytes: how an error tells a floating
/// point number. Where the bytes hold none, it is the text of the error of
/// reading them. The bytes alone decide it; what it is is left unsaid.
#[verifier::external_body]
fn float_text(b: &[u8]) -> (r: String)
    ensures
        r@ == float_told(b@),
{
    match rmp_serde::from_slice(b) {
        Ok(value) => serde::de::Unexpected::Float(value).to_string(),
        Err(e) => e.to_string(),
    }
}

/// What the executable reader found; mirrors [`FieldStep`].
enum Read {
    Done(Field, usize),
    Short,
    Bad(String),
}

impl Read {
    spec fn step(self) -> FieldStep {
        match self {
            Read::Done(field, next) => FieldStep::Done(field@, next as int),
            Read::Short => FieldStep::Short,
            Read::Bad(reason) => FieldStep::Bad(reason@),
        }
    }
}

fn read_be(buf: &[u8], at: usize, n: usize) -> (r: Option<u64>)
    requires
        n == 1 || n == 2 || n == 4 || n == 8,
        at <= buf@.len(),
    ensures
        match r {
            Some(v) => be_at(buf@, at as int, n as nat) == Some(v as nat),
            None => be_at(buf@, at as int, n as nat) is None,
        },
        r matches Some(v) ==> {
            &&& (n == 1 ==> v < 0x100)
            &&& (n == 2 ==> v < 0x1_0000)
            &&& (n == 4 ==> v < 0x1_0000_0000)
            &&& at + n <= buf@.len()
            &&& at + n <= usize::MAX
        },
{
    let size: usize = buf.len();
    if n > size - at {
        return None;
    }
    let mut v: u64 = 0;
    let mut i: usize = 0;
    let ghost whole = buf@.subrange(at as int, at + n);
    assert(whole.take(0) =~= Seq::<u8>::empty());
    while i < n
        invariant
            i <= n <= 8,
            size == buf@.len(),
            at + n <= size,
            whole == buf@.subrange(at as int, at + n),
            v == be_value(whole.take(i as int)),
            i == 0 ==> v == 0,
            i == 1 ==> v < 0x100,
            i == 2 ==> v < 0x1_0000,
            i == 3 ==> v < 0x100_0000,
            i == 4 ==> v < 0x1_0000_0000,
            i == 5 ==> v < 0x100_0000_0000,
            i == 6 ==> v < 0x1_0000_0000_0000,
            i == 7 ==> v < 0x100_0000_0000_0000,
        decreases n - i,
    {
        assert(whole.take(i + 1).drop_last() =~= whole.take(i as int));
        assert(whole.take(i + 1).last() == buf@[at + i]);
        v = v * 256 + buf[at + i] as u64;
        i = i + 1;
    }
    assert(whole.take(n as int) =~= whole);
    Some(v)
}

pub(crate) fn copy_range(buf: &[u8], from: usize, to: usize) -> (r: Vec<u8>)
    requires
        from <= to <= buf@.len(),
    ensures
        r@ == buf@.subrange(from as int, to as int),
{
    let mut r: Vec<u8> = Vec::new();
    let mut i: usize = from;
    while i < to
        invariant
            from <= i <= to <= buf@.len(),
            r@ == buf@.subrange(from as int, i as int),
        decreases to - i,
    {
        r.push(buf[i]);
        i = i + 1;
        assert(buf@.subrange(from as int, i as int) =~= buf@.subrange(from as int, i - 1).push(
            buf@[i - 1],
        ));
    }
    r
}

fn too_long(len: usize) -> (r: String)
    ensures
        r@ == too_long_text(len as nat),
{
    let a = text::decimal(len as u64);
    let b = text::decimal(MAX_FIELD_BYTES as u64);
    text::cat5("field of ", a.as_str(), " bytes exceeds ", b.as_str(), " bytes")
}

fn read_text(buf: &[u8], at: usize, len: u64) -> (r: Read)
    requires
        at <= buf@.len(),
    ensures
        r.step() == text_at(buf@, at as int, len as nat),
{
    let size: usize = buf.len();
    if len > (size - at) as u64 {
        return Read::Short;
    }
    let len: usize = len as usize;
    let bytes = copy_range(buf, at, at + len);
    match utf8_text(bytes.as_slice()) {
        Ok(s) => if len > MAX_FIELD_BYTES {
            Read::Bad(too_long(len))
        } else {
            Read::Done(Field::Str(s), at + len)
        },
        Err(reason) => if len > MAX_FIELD_BYTES {
            Read::Bad(text::cat2("string found to be invalid utf8: ", reason.as_str()))
        } else {
            Read::Done(Field::Bin(bytes), at + len)
        },
    }
}

fn read_bytes(buf: &[u8], at: usize, len: u64) -> (r: Read)
    requires
        at <= buf@.len(),
    ensures
        r.step() == bytes_at(buf@, at as int, len as nat),
{
    let size: usize = buf.len();
    if len > (size - at) as u64 {
        return Read::Short;
    }
    let len: usize = len as usize;
    if len > MAX_FIELD_BYTES {
        return Read::Bad(too_long(len));
    }
    Read::Done(Field::Bin(copy_range(buf, at, at + len)), at + len)
}

fn read_long_text(buf: &[u8], at: usize, n: usize) -> (r: Read)
    requires
        n == 1 || n == 2 || n == 4,
        at <= buf@.len(),
    ensures
        r.step() == long_text_at(buf@, at as int, n as nat),
{
    match read_be(buf, at, n) {
        Some(len) => read_text(buf, at + n, len),
        None => Read::Short,
    }
}

fn read_long_bytes(buf: &[u8], at: usize, n: usize) -> (r: Read)
    requires
        n == 1 || n == 2 || n == 4,
        at <= buf@.len(),
    ensures
        r.step() == long_bytes_at(buf@, at as int, n as nat),
{
    match read_be(buf, at, n) {
        Some(len) => read_bytes(buf, at + n, len),
        None => Read::Short,
    }
}

fn refuse(buf: &[u8], at: usize, n: usize, reason: &str) -> (r: Read)
    requires
        at <= buf@.len(),
    ensures
        r.step() == refused_at(buf@, at as int, n as nat, reason@),
{
    let size: usize = buf.len();
    if n > size - at {
        Read::Short
    } else {
        Read::Bad(text::owned(reason))
    }
}

fn read_unsigned(buf: &[u8], at: usize, n: usize) -> (r: Read)
    requires
        n == 1 || n == 2 || n == 4 || n == 8,
        at <= buf@.len(),
    ensures
        r.step() == unsigned_at(buf@, at as int, n as nat),
{
    match read_be(buf, at, n) {
        Some(v) => Read::Done(Field::U64(v), at + n),
        None => Read::Short,
    }
}

/// Signed number whose two's complement form below `2 * half` is `v`.
fn signed(v: u64, half: u64) -> (r: i64)
    requires
        half == 0x80 || half == 0x8000 || half == 0x8000_0000 || half == 0x8000_0000_0000_0000,
        v < 2 * half,
    ensures
        r == twos_complement(v as nat, (2 * half) as nat),
{
    if v < half {
        v as i64
    } else if half == 0x8000_0000_0000_0000 {
        let below: u64 = 0xffff_ffff_ffff_ffff - v;
        -(below as i64) - 1
    } else {
        v as i64 - half as i64 - half as i64
    }
}

fn read_signed(buf: &[u8], at: usize, n: usize, half: u64) -> (r: Read)
    requires
        (n == 1 && half == 0x80) || (n == 2 && half == 0x8000) || (n == 4 && half == 0x8000_0000)
            || (n == 8 && half == 0x8000_0000_0000_0000),
        at <= buf@.len(),
    ensures
        r.step() == signed_at(buf@, at as int, n as nat, (2 * half) as nat),
{
    match read_be(buf, at, n) {
        Some(v) => Read::Done(Field::I64(signed(v, half)), at + n),
        None => Read::Short,
    }
}

fn read_field(buf: &[u8], at: usize) -> (r: Read)
    requires
        at <= buf@.len(),
    ensures
        r.step() == field_at(buf@, at as int),
        r matches Read::Done(_, next) ==> at < next <= buf@.len(),
{
    proof {
        reveal(field_at);
    }
    let size: usize = buf.len();
    if at >= size {
        return Read::Short;
    }
    let m: u8 = buf[at];
    let next: usize = at + 1;
    if m <= 0x7f {
        Read::Done(Field::U64(m as u64), next)
    } else if m <= 0x8f {
        Read::Bad(text::owned("nested maps are not valid LTX fields"))
    } else if m <= 0x9f {
        Read::Bad(text::owned("nested arrays are not valid LTX fields"))
    } else if m <= 0xbf {
        read_text(buf, next, (m - 0xa0) as u64)
    } else if m == 0xc0 {
        Read::Done(Field::Nil, next)
    } else if m == 0xc1 {
        Read::Bad(text::owned("wrong msgpack marker Reserved"))
    } else if m == 0xc2 {
        Read::Done(Field::Bool(false), next)
    } else if m == 0xc3 {
        Read::Done(Field::Bool(true), next)
    } else if m == 0xc4 {
        read_long_bytes(buf, next, 1)
    } else if m == 0xc5 {
        read_long_bytes(buf, next, 2)
    } else if m == 0xc6 {
        read_long_bytes(buf, next, 4)
    } else if m == 0xc7 {
        refuse(buf, next, 1, "invalid type: newtype struct, expected a scalar msgpack value")
    } else if m == 0xc8 {
        refuse(buf, next, 2, "invalid type: newtype struct, expected a scalar msgpack value")
    } else if m == 0xc9 {
        refuse(buf, next, 4, "invalid type: newtype struct, expected a scalar msgpack value")
    } else if m == 0xca {
        match read_be(buf, next, 4) {
            Some(v) => Read::Done(Field::F32(v as u32), next + 4),
            None => Read::Short,
        }
    } else if m == 0xcb {
        match read_be(buf, next, 8) {
            Some(v) => Read::Done(Field::F64(v), next + 8),
            None => Read::Short,
        }
    } else if m == 0xcc {
        read_unsigned(buf, next, 1)
    } else if m == 0xcd {
        read_unsigned(buf, next, 2)
    } else if m == 0xce {
        read_unsigned(buf, next, 4)
    } else if m == 0xcf {
        read_unsigned(buf, next, 8)
    } else if m == 0xd0 {
        read_signed(buf, next, 1, 0x80)
    } else if m == 0xd1 {
        read_signed(buf, next, 2, 0x8000)
    } else if m == 0xd2 {
        read_signed(buf, next, 4, 0x8000_0000)
    } else if m == 0xd3 {
        read_signed(buf, next, 8, 0x8000_0000_0000_0000)
    } else if m <= 0xd8 {
        Read::Bad(text::owned("invalid type: newtype struct, expected a scalar msgpack value"))
    } else if m == 0xd9 {
        read_long_text(buf, next, 1)
    } else if m == 0xda {
        read_long_text(buf, next, 2)
    } else if m == 0xdb {
        read_long_text(buf, next, 4)
    } else if m == 0xdc {
        refuse(buf, next, 2, "nested arrays are not valid LTX fields")
    } else if m == 0xdd {
        refuse(buf, next, 4, "nested arrays are not valid LTX fields")
    } else if m == 0xde {
        refuse(buf, next, 2, "nested maps are not valid LTX fields")
    } else if m == 0xdf {
        refuse(buf, next, 4, "nested maps are not valid LTX fields")
    } else {
        Read::Done(Field::I64(signed(m as u64, 0x80)), next)
    }
}

/// Error for bytes that are no frame.
pub open spec fn decode_error(reason: Seq<char>) -> ErrorView {
    ErrorView::Ltx("can't decode LTX frame: "@ + reason)
}

fn corrupt(reason: &str) -> (e: KirkError)
    ensures
        e@ == decode_error(reason@),
{
    KirkError::Ltx(text::cat2("can't decode LTX frame: ", reason))
}

/// What a decoder answers for each outcome of reading a frame.
pub open spec fn answers(
    r: Result<Option<(Vec<Field>, usize)>, KirkError>,
    step: FrameStep,
) -> bool {
    match step {
        FrameStep::Whole(fields, used) => {
            &&& r matches Ok(Some((v, n)))
            &&& field_views(v@) == fields
            &&& n == used
        },
        FrameStep::Short => r matches Ok(None),
        FrameStep::Bad(reason) => r matches Err(e) && e@ == decode_error(reason),
    }
}

fn read_fields(buf: &[u8], from: usize, count: u64) -> (r: Result<
    Option<(Vec<Field>, usize)>,
    KirkError,
>)
    requires
        from <= buf@.len(),
    ensures
        answers(r, fields_at(buf@, from as int, count as nat, Seq::empty())),
        r matches Ok(Some((_, used))) ==> from <= used <= buf@.len(),
{
    let mut fields: Vec<Field> = Vec::new();
    let mut at: usize = from;
    let mut left: u64 = count;
    assert(field_views(fields@) =~= Seq::<FieldView>::empty());
    while left > 0
        invariant
            from <= at <= buf@.len(),
            fields@.len() <= MAX_FIELDS,
            fields_at(buf@, from as int, count as nat, Seq::empty()) == fields_at(
                buf@,
                at as int,
                left as nat,
                field_views(fields@),
            ),
        decreases left,
    {
        match read_field(buf, at) {
            Read::Short => {
                return Ok(None);
            },
            Read::Bad(reason) => {
                return Err(corrupt(reason.as_str()));
            },
            Read::Done(field, next) => {
                if fields.len() + 1 > MAX_FIELDS {
                    return Err(corrupt("message has too many fields"));
                }
                let ghost before = field_views(fields@);
                fields.push(field);
                assert(field_views(fields@) =~= before.push(field@));
                at = next;
            },
        }
        left = left - 1;
    }
    Ok(Some((fields, at)))
}

/// Error of a value where a frame should be, given how the value is told.
pub fn misplaced(found: &str) -> (e: KirkError)
    ensures
        e@ == decode_error(not_an_array(found@)),
{
    let reason = text::cat3("invalid type: ", found, ", expected an LTX message array");
    corrupt(reason.as_str())
}

fn refuse_scalar(f: &Field, bytes: &[u8]) -> (e: KirkError)
    ensures
        e@ == decode_error(not_an_array(told(f@, bytes@))),
{
    match f {
        Field::Nil => misplaced("unit value"),
        Field::Bool(b) => misplaced(
            if *b {
                "boolean `true`"
            } else {
                "boolean `false`"
            },
        ),
        Field::U64(n) => {
            let digits = text::decimal(*n);
            let found = text::cat3("integer `", digits.as_str(), "`");
            misplaced(found.as_str())
        },
        Field::I64(n) => {
            let digits = text::signed_decimal(*n);
            let found = text::cat3("integer `", digits.as_str(), "`");
            misplaced(found.as_str())
        },
        Field::F32(_) => misplaced(float_text(bytes).as_str()),
        Field::F64(_) => misplaced(float_text(bytes).as_str()),
        Field::Str(s) => {
            let quoted = text::quoted(s.as_str());
            let found = text::cat2("string ", quoted.as_str());
            misplaced(found.as_str())
        },
        Field::Bin(_) => misplaced("byte array"),
    }
}

fn refuse_text(buf: &[u8], at: usize, len: u64) -> (r: Result<
    Option<(Vec<Field>, usize)>,
    KirkError,
>)
    requires
        at <= buf@.len(),
    ensures
        answers(r, lone_text(buf@, at as int, len as nat)),
        !(r matches Ok(Some(_))),
{
    let size: usize = buf.len();
    if len > (size - at) as u64 {
        return Ok(None);
    }
    let len: usize = len as usize;
    let bytes = copy_range(buf, at, at + len);
    match utf8_text(bytes.as_slice()) {
        Ok(s) => Err(refuse_scalar(&Field::Str(s), bytes.as_slice())),
        Err(reason) => {
            let found = text::cat2("string found to be invalid utf8: ", reason.as_str());
            Err(corrupt(found.as_str()))
        },
    }
}

fn refuse_long_text(buf: &[u8], n: usize) -> (r: Result<Option<(Vec<Field>, usize)>, KirkError>)
    requires
        n == 1 || n == 2 || n == 4,
        1 <= buf@.len(),
    ensures
        answers(r, lone_long_text(buf@, n as nat)),
        !(r matches Ok(Some(_))),
{
    match read_be(buf, 1, n) {
        Some(len) => refuse_text(buf, 1 + n, len),
        None => Ok(None),
    }
}

fn refuse_bytes(buf: &[u8], n: usize) -> (r: Result<Option<(Vec<Field>, usize)>, KirkError>)
    requires
        n == 1 || n == 2 || n == 4,
        1 <= buf@.len(),
    ensures
        answers(r, lone_bytes(buf@, n as nat)),
        !(r matches Ok(Some(_))),
{
    match read_be(buf, 1, n) {
        Some(len) => {
            let size: usize = buf.len();
            if len > (size - (1 + n)) as u64 {
                Ok(None)
            } else {
                Err(misplaced("byte array"))
            }
        },
        None => Ok(None),
    }
}

fn refuse_value(buf: &[u8]) -> (r: Result<Option<(Vec<Field>, usize)>, KirkError>)
    requires
        1 <= buf@.len(),
    ensures
        answers(r, lone_value(buf@)),
        !(r matches Ok(Some(_))),
{
    let m: u8 = buf[0];
    if 0xa0 <= m && m <= 0xbf {
        refuse_text(buf, 1, (m - 0xa0) as u64)
    } else if m == 0xd9 {
        refuse_long_text(buf, 1)
    } else if m == 0xda {
        refuse_long_text(buf, 2)
    } else if m == 0xdb {
        refuse_long_text(buf, 4)
    } else if m == 0xc4 {
        refuse_bytes(buf, 1)
    } else if m == 0xc5 {
        refuse_bytes(buf, 2)
    } else if m == 0xc6 {
        refuse_bytes(buf, 4)
    } else {
        match read_field(buf, 0) {
            Read::Short => Ok(None),
            Read::Done(f, next) => {
                proof {
                    field_end(buf@, 0);
                }
                let bytes = copy_range(buf, 0, next);
                Err(refuse_scalar(&f, bytes.as_slice()))
            },
            Read::Bad(reason) => {
                if text::same(reason.as_str(), "nested maps are not valid LTX fields") {
                    Err(misplaced("map"))
                } else if text::same(
                    reason.as_str(),
                    "invalid type: newtype struct, expected a scalar msgpack value",
                ) {
                    Err(misplaced("newtype struct"))
                } else {
                    Err(corrupt(reason.as_str()))
                }
            },
        }
    }
}

/// Decode one frame from the head of `buf`.
///
/// `Ok(None)` means that `buf` ends inside the frame and more bytes are
/// needed; the error means that no bytes to come can make it a frame.
pub fn decode_one(buf: &[u8]) -> (r: Result<Option<(Vec<Field>, usize)>, KirkError>)
    ensures
        answers(r, frame_of(buf@)),
        r matches Ok(Some((_, used))) ==> 0 < used <= buf@.len(),
{
    let size: usize = buf.len();
    if size == 0 {
        return Ok(None);
    }
    let m: u8 = buf[0];
    if m >= 0x90 && m <= 0x9f {
        read_fields(buf, 1, (m - 0x90) as u64)
    } else if m == 0xdc {
        match read_be(buf, 1, 2) {
            Some(n) => read_fields(buf, 3, n),
            None => Ok(None),
        }
    } else if m == 0xdd {
        match read_be(buf, 1, 4) {
            Some(n) => read_fields(buf, 5, n),
            None => Ok(None),
        }
    } else {
        refuse_value(buf)
    }
}

/// The `n` big-endian bytes of `v`.
pub open spec fn be_bytes(v: nat, n: nat) -> Seq<u8>
    decreases n,
{
    if n == 0 {
        Seq::empty()
    } else {
        be_bytes(v / 256, (n - 1) as nat).push((v % 256) as u8)
    }
}

/// Bytes of a number below 256.
pub open spec fn packed_byte(v: u8) -> Seq<u8> {
    if v < 128 {
        seq![v]
    } else {
        seq![0xcc, v]
    }
}

/// Bytes of a text of at most `u32::MAX` bytes: its length, then UTF-8.
pub open spec fn packed_text(s: Seq<char>) -> Seq<u8> {
    let b = vstd::utf8::encode_utf8(s);
    let n = b.len();
    if n < 32 {
        seq![(0xa0 + n) as u8] + b
    } else if n < 0x100 {
        seq![0xd9u8] + be_bytes(n, 1) + b
    } else if n < 0x1_0000 {
        seq![0xdau8] + be_bytes(n, 2) + b
    } else {
        seq![0xdbu8] + be_bytes(n, 4) + b
    }
}

/// Bytes of raw data of at most `u32::MAX` bytes: its length, then the data.
pub open spec fn packed_bytes(b: Seq<u8>) -> Seq<u8> {
    let n = b.len();
    if n < 0x100 {
        seq![0xc4u8] + be_bytes(n, 1) + b
    } else if n < 0x1_0000 {
        seq![0xc5u8] + be_bytes(n, 2) + b
    } else {
        seq![0xc6u8] + be_bytes(n, 4) + b
    }
}

/// Bytes of a field as requests write it.
pub open spec fn packed_field(f: FieldView) -> Seq<u8> {
    match f {
        FieldView::U64(v) => packed_byte(v as u8),
        FieldView::Str(s) => packed_text(s),
        FieldView::Bin(b) => packed_bytes(b),
        _ => Seq::empty(),
    }
}

/// Bytes of fields in a row.
pub open spec fn packed_fields(fields: Seq<FieldView>) -> Seq<u8>
    decreases fields.len(),
{
    if fields.len() == 0 {
        Seq::empty()
    } else {
        packed_fields(fields.drop_last()) + packed_field(fields.last())
    }
}

/// Bytes of a frame of fewer than 16 fields.
pub open spec fn packed_frame(fields: Seq<FieldView>) -> Seq<u8> {
    seq![(0x90 + fields.len()) as u8] + packed_fields(fields)
}

/// Whether a request writes the field as [`packed_field`] says, and a peer
/// with the same caps accepts it.
pub open spec fn sendable(f: FieldView) -> bool {
    match f {
        FieldView::U64(v) => v < 0x100,
        FieldView::Str(s) => vstd::utf8::encode_utf8(s).len() <= MAX_FIELD_BYTES,
        FieldView::Bin(b) => b.len() <= MAX_FIELD_BYTES,
        _ => false,
    }
}

proof fn be_round_trip(v: nat)
    ensures
        v < 0x100 ==> be_value(be_bytes(v, 1)) == v,
        v < 0x1_0000 ==> be_value(be_bytes(v, 2)) == v,
        v < 0x1_0000_0000 ==> be_value(be_bytes(v, 4)) == v,
        be_bytes(v, 1).len() == 1,
        be_bytes(v, 2).len() == 2,
        be_bytes(v, 4).len() == 4,
{
    reveal_with_fuel(be_bytes, 5);
    reveal_with_fuel(be_value, 5);
    assert(be_bytes(v, 0).len() == 0);
    assert forall|n: nat, w: nat| n > 0 implies #[trigger] be_bytes(w, n).drop_last() == be_bytes(
        w / 256,
        (n - 1) as nat,
    ) by {
        assert(be_bytes(w, n).drop_last() =~= be_bytes(w / 256, (n - 1) as nat));
    }
    let (a, b, c, d) = (v, v / 256, v / 256 / 256, v / 256 / 256 / 256);
    assert(be_value(be_bytes(d, 1)) == d % 256);
    assert(be_value(be_bytes(c, 1)) == c % 256);
    assert(be_value(be_bytes(b, 1)) == b % 256);
    assert(be_value(be_bytes(a, 1)) == a % 256);
    assert(be_value(be_bytes(a, 2)) == (b % 256) * 256 + a % 256);
    assert(be_value(be_bytes(b, 2)) == (c % 256) * 256 + b % 256);
    assert(be_value(be_bytes(c, 2)) == (d % 256) * 256 + c % 256);
    assert(be_value(be_bytes(b, 3)) == be_value(be_bytes(c, 2)) * 256 + b % 256);
    assert(be_value(be_bytes(a, 4)) == be_value(be_bytes(b, 3)) * 256 + a % 256);
}

/// A field that was written is read back from where it stands.
proof fn field_round_trip(pre: Seq<u8>, f: FieldView, post: Seq<u8>)
    requires
        sendable(f),
    ensures
        field_at(pre + packed_field(f) + post, pre.len() as int) == FieldStep::Done(
            f,
            (pre.len() + packed_field(f).len()) as int,
        ),
{
    reveal(field_at);
    let buf = pre + packed_field(f) + post;
    let at = pre.len() as int;
    let own = packed_field(f);
    assert(forall|i: int| 0 <= i < own.len() ==> buf[at + i] == own[i]);
    match f {
        FieldView::U64(v) => {
            if v >= 128 {
                let digits = buf.subrange(at + 1, at + 2);
                assert(digits =~= seq![v as u8]);
                assert(digits.drop_last() =~= Seq::<u8>::empty());
                assert(be_value(digits) == be_value(digits.drop_last()) * 256 + digits.last());
            }
        },
        FieldView::Str(s) => {
            let b = vstd::utf8::encode_utf8(s);
            let n = b.len();
            let head: int = if n < 32 { 1 } else if n < 0x100 { 2 } else if n < 0x1_0000 { 3 } else { 5 };
            be_round_trip(n);
            assert(own.len() == head + n);
            assert(buf.subrange(at + head, at + head + n) =~= b);
            vstd::utf8::encode_utf8_valid_utf8(s);
            vstd::utf8::encode_utf8_decode_utf8(s);
            if n >= 32 {
                assert(buf.subrange(at + 1, at + head) =~= be_bytes(n, (head - 1) as nat));
            }
        },
        FieldView::Bin(b) => {
            let n = b.len();
            let head: int = if n < 0x100 { 2 } else if n < 0x1_0000 { 3 } else { 5 };
            be_round_trip(n);
            assert(own.len() == head + n);
            assert(buf.subrange(at + head, at + head + n) =~= b);
            assert(buf.subrange(at + 1, at + head) =~= be_bytes(n, (head - 1) as nat));
        },
        _ => {},
    }
}

proof fn fields_round_trip(fields: Seq<FieldView>, done: int, rest: Seq<u8>)
    requires
        0 <= done <= fields.len() <= MAX_FIELDS,
        forall|i: int| 0 <= i < fields.len() ==> sendable(#[trigger] fields[i]),
    ensures
        fields_at(
            packed_frame(fields) + rest,
            (1 + packed_fields(fields.take(done)).len()) as int,
            (fields.len() - done) as nat,
            fields.take(done),
        ) == FrameStep::Whole(fields, packed_frame(fields).len() as int),
    decreases fields.len() - done,
{
    let buf = packed_frame(fields) + rest;
    if done == fields.len() {
        assert(fields.take(done) =~= fields);
    } else {
        let f = fields[done];
        let pre = seq![(0x90 + fields.len()) as u8] + packed_fields(fields.take(done));
        packed_split(fields, done);
        let post = packed_tail(fields, done + 1) + rest;
        assert(buf =~= pre + packed_field(f) + post);
        field_round_trip(pre, f, post);
        assert(fields.take(done + 1).drop_last() =~= fields.take(done));
        assert(fields.take(done + 1) =~= fields.take(done).push(f));
        fields_round_trip(fields, done + 1, rest);
    }
}

/// Bytes of the fields from `from` on.
spec fn packed_tail(fields: Seq<FieldView>, from: int) -> Seq<u8>
    decreases fields.len() - from,
{
    if from >= fields.len() {
        Seq::empty()
    } else {
        packed_field(fields[from]) + packed_tail(fields, from + 1)
    }
}

proof fn packed_split(fields: Seq<FieldView>, at: int)
    requires
        0 <= at <= fields.len(),
    ensures
        packed_fields(fields) == packed_fields(fields.take(at)) + packed_tail(fields, at),
    decreases fields.len() - at,
{
    if at == fields.len() {
        assert(fields.take(at) =~= fields);
        assert(packed_fields(fields) =~= packed_fields(fields) + packed_tail(fields, at));
    } else {
        packed_split(fields, at + 1);
        assert(fields.take(at + 1).drop_last() =~= fields.take(at));
        assert(packed_fields(fields.take(at + 1)) == packed_fields(fields.take(at)) + packed_field(
            fields[at],
        ));
        assert(packed_fields(fields) =~= packed_fields(fields.take(at)) + packed_tail(fields, at));
    }
}

proof fn field_end(buf: Seq<u8>, at: int)
    requires
        0 <= at,
    ensures
        field_at(buf, at) matches FieldStep::Done(_, next) ==> at < next <= buf.len(),
{
    reveal(field_at);
}

proof fn fields_end(buf: Seq<u8>, at: int, left: nat, got: Seq<FieldView>)
    requires
        0 <= at <= buf.len(),
    ensures
        fields_at(buf, at, left, got) matches FrameStep::Whole(_, used) ==> at <= used <= buf.len(),
    decreases left,
{
    field_end(buf, at);
    if left > 0 {
        if let FieldStep::Done(field, next) = field_at(buf, at) {
            if got.len() + 1 <= MAX_FIELDS {
                fields_end(buf, next, (left - 1) as nat, got.push(field));
            }
        }
    }
}

/// A frame takes at least one byte and no more than there are.
pub proof fn frame_end(buf: Seq<u8>)
    ensures
        frame_of(buf) matches FrameStep::Whole(_, used) ==> 0 < used <= buf.len(),
{
    if buf.len() > 0 {
        let m = buf[0];
        if 0x90 <= m <= 0x9f {
            fields_end(buf, 1, (m - 0x90) as nat, Seq::empty());
        } else if m == 0xdc && buf.len() >= 3 {
            fields_end(buf, 3, be_at(buf, 1, 2)->0, Seq::empty());
        } else if m == 0xdd && buf.len() >= 5 {
            fields_end(buf, 5, be_at(buf, 1, 4)->0, Seq::empty());
        }
    }
}

proof fn field_final(buf: Seq<u8>, more: Seq<u8>, at: int)
    requires
        0 <= at,
        !(field_at(buf, at) is Short),
    ensures
        field_at(buf + more, at) == field_at(buf, at),
{
    reveal(field_at);
    let all = buf + more;
    assert forall|from: int, to: int| 0 <= from <= to <= buf.len() implies #[trigger] all.subrange(
        from,
        to,
    ) == buf.subrange(from, to) by {
        assert(all.subrange(from, to) =~= buf.subrange(from, to));
    }
}

proof fn fields_final(buf: Seq<u8>, more: Seq<u8>, at: int, left: nat, got: Seq<FieldView>)
    requires
        0 <= at <= buf.len(),
        !(fields_at(buf, at, left, got) is Short),
    ensures
        fields_at(buf + more, at, left, got) == fields_at(buf, at, left, got),
    decreases left,
{
    if left > 0 {
        field_final(buf, more, at);
        field_end(buf, at);
        if let FieldStep::Done(field, next) = field_at(buf, at) {
            if got.len() + 1 <= MAX_FIELDS {
                fields_final(buf, more, next, (left - 1) as nat, got.push(field));
            }
        }
    }
}

/// More bytes never change what the bytes so far already decided: whether a
/// stream comes in one piece or in many, the same frames are read from it.
pub proof fn decided_is_final(buf: Seq<u8>, more: Seq<u8>)
    requires
        !(frame_of(buf) is Short),
    ensures
        frame_of(buf + more) == frame_of(buf),
{
    let all = buf + more;
    let m = buf[0];
    if 0x90 <= m <= 0x9f {
        fields_final(buf, more, 1, (m - 0x90) as nat, Seq::empty());
    } else if m == 0xdc {
        assert(all.subrange(1, 3) =~= buf.subrange(1, 3));
        fields_final(buf, more, 3, be_at(buf, 1, 2)->0, Seq::empty());
    } else if m == 0xdd {
        assert(all.subrange(1, 5) =~= buf.subrange(1, 5));
        fields_final(buf, more, 5, be_at(buf, 1, 4)->0, Seq::empty());
    } else {
        assert forall|from: int, to: int| 0 <= from <= to <= buf.len() implies #[trigger]
            all.subrange(from, to) == buf.subrange(from, to) by {
            assert(all.subrange(from, to) =~= buf.subrange(from, to));
        }
        if !(field_at(buf, 0) is Short) {
            field_final(buf, more, 0);
            field_end(buf, 0);
        }
    }
}

/// A frame that was written is read back, whatever bytes follow it, and
/// exactly its own bytes are used up.
pub proof fn frame_round_trip(fields: Seq<FieldView>, rest: Seq<u8>)
    requires
        fields.len() <= MAX_FIELDS,
        forall|i: int| 0 <= i < fields.len() ==> sendable(#[trigger] fields[i]),
    ensures
        frame_of(packed_frame(fields) + rest) == FrameStep::Whole(
            fields,
            packed_frame(fields).len() as int,
        ),
{
    fields_round_trip(fields, 0, rest);
    assert(fields.take(0) =~= Seq::<FieldView>::empty());
    let buf = packed_frame(fields) + rest;
    assert(buf[0] == (0x90 + fields.len()) as u8);
}

proof fn two_bytes(s: Seq<u8>)
    requires
        s.len() == 2,
    ensures
        be_value(s) == s[0] * 256 + s[1],
{
    reveal_with_fuel(be_value, 3);
    assert(s.drop_last().last() == s[0]);
}

proof fn four_bytes(s: Seq<u8>)
    requires
        s.len() == 4,
    ensures
        be_value(s) == ((s[0] * 256 + s[1]) * 256 + s[2]) * 256 + s[3],
{
    reveal_with_fuel(be_value, 3);
    assert(s.drop_last().drop_last() =~= seq![s[0], s[1]]);
    two_bytes(seq![s[0], s[1]]);
    assert(s.drop_last().last() == s[2]);
}

proof fn eight_bytes(s: Seq<u8>)
    requires
        s.len() == 8,
    ensures
        be_value(s) == ((((((s[0] * 256 + s[1]) * 256 + s[2]) * 256 + s[3]) * 256 + s[4]) * 256
            + s[5]) * 256 + s[6]) * 256 + s[7],
{
    reveal_with_fuel(be_value, 5);
    let front = s.drop_last().drop_last().drop_last().drop_last();
    assert(front =~= seq![s[0], s[1], s[2], s[3]]);
    four_bytes(front);
    assert(s.drop_last().last() == s[6]);
    assert(s.drop_last().drop_last().last() == s[5]);
    assert(s.drop_last().drop_last().drop_last().last() == s[4]);
}

proof fn field_bytes(pre: Seq<u8>, own: Seq<u8>, post: Seq<u8>)
    requires
        own.len() > 1,
    ensures
        (pre + own + post)[pre.len() as int] == own[0],
        be_at(pre + own + post, pre.len() as int + 1, (own.len() - 1) as nat) == Some(
            be_value(own.drop_first()),
        ),
{
    let buf = pre + own + post;
    assert(buf.subrange(pre.len() as int + 1, (pre.len() + own.len()) as int)
        =~= own.drop_first());
}

/// Numbers of one, two and four bytes are read with their most significant byte
/// first, whatever stands around them; signed ones are in two's complement.
pub proof fn numbers_are_read(pre: Seq<u8>, a: u8, b: u8, c: u8, d: u8, post: Seq<u8>)
    ensures
        a < 0x80 ==> field_at(pre + seq![a] + post, pre.len() as int) == FieldStep::Done(
            FieldView::U64(a as u64),
            pre.len() as int + 1,
        ),
        a >= 0xe0 ==> field_at(pre + seq![a] + post, pre.len() as int) == FieldStep::Done(
            FieldView::I64((a - 256) as i64),
            pre.len() as int + 1,
        ),
        field_at(pre + seq![0xccu8, a] + post, pre.len() as int) == FieldStep::Done(
            FieldView::U64(a as u64),
            pre.len() as int + 2,
        ),
        field_at(pre + seq![0xcdu8, a, b] + post, pre.len() as int) == FieldStep::Done(
            FieldView::U64((a * 256 + b) as u64),
            pre.len() as int + 3,
        ),
        field_at(pre + seq![0xceu8, a, b, c, d] + post, pre.len() as int) == FieldStep::Done(
            FieldView::U64((a * 0x100_0000 + b * 0x1_0000 + c * 256 + d) as u64),
            pre.len() as int + 5,
        ),
        field_at(pre + seq![0xd0u8, a] + post, pre.len() as int) == FieldStep::Done(
            FieldView::I64(
                (if a < 0x80 {
                    a as int
                } else {
                    a - 0x100
                }) as i64,
            ),
            pre.len() as int + 2,
        ),
        field_at(pre + seq![0xd1u8, a, b] + post, pre.len() as int) == FieldStep::Done(
            FieldView::I64(
                (if a < 0x80 {
                    a * 256 + b
                } else {
                    a * 256 + b - 0x1_0000
                }) as i64,
            ),
            pre.len() as int + 3,
        ),
        field_at(pre + seq![0xd2u8, a, b, c, d] + post, pre.len() as int) == FieldStep::Done(
            FieldView::I64(
                (if a < 0x80 {
                    a * 0x100_0000 + b * 0x1_0000 + c * 256 + d
                } else {
                    a * 0x100_0000 + b * 0x1_0000 + c * 256 + d - 0x1_0000_0000
                }) as i64,
            ),
            pre.len() as int + 5,
        ),
{
    reveal(field_at);
    assert((pre + seq![a] + post)[pre.len() as int] == a);
    let one = seq![0xccu8, a];
    let two = seq![0xcdu8, a, b];
    let four = seq![0xceu8, a, b, c, d];
    let one_signed = seq![0xd0u8, a];
    let two_signed = seq![0xd1u8, a, b];
    let four_signed = seq![0xd2u8, a, b, c, d];
    field_bytes(pre, one, post);
    field_bytes(pre, two, post);
    field_bytes(pre, four, post);
    field_bytes(pre, one_signed, post);
    field_bytes(pre, two_signed, post);
    field_bytes(pre, four_signed, post);
    assert(one.drop_first() =~= seq![a]);
    assert(one_signed.drop_first() =~= seq![a]);
    assert(two.drop_first() =~= seq![a, b]);
    assert(two_signed.drop_first() =~= seq![a, b]);
    assert(four.drop_first() =~= seq![a, b, c, d]);
    assert(four_signed.drop_first() =~= seq![a, b, c, d]);
    reveal_with_fuel(be_value, 2);
    assert(be_value(seq![a]) == a);
    two_bytes(seq![a, b]);
    four_bytes(seq![a, b, c, d]);
}

/// Numbers of eight bytes are read with their most significant byte first;
/// signed ones are in two's complement.
pub proof fn long_numbers_are_read(pre: Seq<u8>, s: Seq<u8>, post: Seq<u8>)
    requires
        s.len() == 8,
    ensures
        ({
            let high = ((s[0] * 256 + s[1]) * 256 + s[2]) * 256 + s[3];
            let low = ((s[4] * 256 + s[5]) * 256 + s[6]) * 256 + s[7];
            let value = high * 0x1_0000_0000 + low;
            &&& field_at(pre + (seq![0xcfu8] + s) + post, pre.len() as int) == FieldStep::Done(
                FieldView::U64(value as u64),
                pre.len() as int + 9,
            )
            &&& field_at(pre + (seq![0xd3u8] + s) + post, pre.len() as int) == FieldStep::Done(
                FieldView::I64(
                    (if s[0] < 0x80 {
                        value
                    } else {
                        value - 0x1_0000_0000_0000_0000
                    }) as i64,
                ),
                pre.len() as int + 9,
            )
        }),
{
    reveal(field_at);
    field_bytes(pre, seq![0xcfu8] + s, post);
    field_bytes(pre, seq![0xd3u8] + s, post);
    assert((seq![0xcfu8] + s).drop_first() =~= s);
    assert((seq![0xd3u8] + s).drop_first() =~= s);
    eight_bytes(s);
}

/// Fields are read as what they are asked for where they are that, and fail
/// otherwise.
pub proof fn fields_are_told_apart(n: u64, i: i64, s: Seq<char>, b: Seq<u8>)
    ensures
        opcode_in(FieldView::U64(n)) is Ok <==> n < 256,
        n < 256 ==> opcode_in(FieldView::U64(n)) == Ok::<u8, ErrorView>(n as u8),
        i < 0 ==> opcode_in(FieldView::I64(i)) is Err,
        opcode_in(FieldView::Str(s)) is Err,
        timestamp_in(FieldView::U64(n)) == Ok::<u64, ErrorView>(n),
        i >= 0 ==> timestamp_in(FieldView::I64(i)) == Ok::<u64, ErrorView>(i as u64),
        i < 0 ==> timestamp_in(FieldView::I64(i)) is Err,
        timestamp_in(FieldView::Bin(b)) is Err,
        -0x8000_0000 <= i <= 0x7fff_ffff ==> status_in(FieldView::I64(i)) == Ok::<i32, ErrorView>(
            i as i32,
        ),
        !(-0x8000_0000 <= i <= 0x7fff_ffff) ==> status_in(FieldView::I64(i)) is Err,
        n <= 0x7fff_ffff ==> status_in(FieldView::U64(n)) == Ok::<i32, ErrorView>(n as i32),
        n > 0x7fff_ffff ==> status_in(FieldView::U64(n)) is Err,
        text_in(FieldView::Str(s)) == Ok::<Seq<char>, ErrorView>(s),
        text_in(FieldView::Bin(b)) is Err,
        text_in(FieldView::U64(n)) is Err,
        bytes_in(FieldView::Bin(b)) == Ok::<Seq<u8>, ErrorView>(b),
        bytes_in(FieldView::Str(s)) == Ok::<Seq<u8>, ErrorView>(vstd::utf8::encode_utf8(s)),
        bytes_in(FieldView::U64(n)) is Err,
{
}

} // verus!
