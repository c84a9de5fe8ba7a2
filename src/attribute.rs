//! Node attributes: their types, values, wire decoding and encoding.
//!
//! Floating-point attributes are held as their IEEE-754 bit patterns.
use vstd::prelude::*;
use vstd::utf8::{decode_utf8, valid_utf8};
use crate::low::{encoding_of, ArrayAttributeEncoding, LowError};
use crate::reader::{IoError, SeekableReader};
use crate::wire::{get_u32, get_u64, le_u16, le_u32, le_u64};
use crate::zlib::{inflate_of, zlib_decompress};

verus! {

/// The thirteen attribute types.
#[derive(Debug, Clone, Copy, PartialEq, Eq, Structural)]
pub enum AttributeType {
    Bool,
    I16,
    I32,
    I64,
    F32,
    F64,
    ArrBool,
    ArrI32,
    ArrI64,
    ArrF32,
    ArrF64,
    Binary,
    String,
}

/// The type with the given type code, if any.
pub open spec fn type_of_code(code: u8) -> Option<AttributeType> {
    if code == 0x43 {
        Some(AttributeType::Bool)
    } else if code == 0x59 {
        Some(AttributeType::I16)
    } else if code == 0x49 {
        Some(AttributeType::I32)
    } else if code == 0x4c {
        Some(AttributeType::I64)
    } else if code == 0x46 {
        Some(AttributeType::F32)
    } else if code == 0x44 {
        Some(AttributeType::F64)
    } else if code == 0x62 {
        Some(AttributeType::ArrBool)
    } else if code == 0x69 {
        Some(AttributeType::ArrI32)
    } else if code == 0x6c {
        Some(AttributeType::ArrI64)
    } else if code == 0x66 {
        Some(AttributeType::ArrF32)
    } else if code == 0x64 {
        Some(AttributeType::ArrF64)
    } else if code == 0x52 {
        Some(AttributeType::Binary)
    } else if code == 0x53 {
        Some(AttributeType::String)
    } else {
        None
    }
}

impl AttributeType {
    /// The type code: `C Y I L F D b i l f d R S`.
    pub open spec fn spec_type_code(self) -> u8 {
        match self {
            AttributeType::Bool => 0x43,
            AttributeType::I16 => 0x59,
            AttributeType::I32 => 0x49,
            AttributeType::I64 => 0x4c,
            AttributeType::F32 => 0x46,
            AttributeType::F64 => 0x44,
            AttributeType::ArrBool => 0x62,
            AttributeType::ArrI32 => 0x69,
            AttributeType::ArrI64 => 0x6c,
            AttributeType::ArrF32 => 0x66,
            AttributeType::ArrF64 => 0x64,
            AttributeType::Binary => 0x52,
            AttributeType::String => 0x53,
        }
    }

    pub open spec fn is_single(self) -> bool {
        match self {
            AttributeType::Bool | AttributeType::I16 | AttributeType::I32 | AttributeType::I64
            | AttributeType::F32 | AttributeType::F64 => true,
            _ => false,
        }
    }

    pub open spec fn is_array(self) -> bool {
        match self {
            AttributeType::ArrBool | AttributeType::ArrI32 | AttributeType::ArrI64
            | AttributeType::ArrF32 | AttributeType::ArrF64 => true,
            _ => false,
        }
    }

    /// Width in bytes of a single value, or of one array element.
    pub open spec fn width(self) -> nat {
        match self {
            AttributeType::Bool | AttributeType::ArrBool => 1,
            AttributeType::I16 => 2,
            AttributeType::I32 | AttributeType::F32 | AttributeType::ArrI32
            | AttributeType::ArrF32 => 4,
            AttributeType::I64 | AttributeType::F64 | AttributeType::ArrI64
            | AttributeType::ArrF64 => 8,
            _ => 0,
        }
    }

    /// Whether this is one of the five array types.
    pub fn is_array_type(self) -> (r: bool)
        ensures
            r == self.is_array(),
    {
        match self {
            AttributeType::ArrBool | AttributeType::ArrI32 | AttributeType::ArrI64
            | AttributeType::ArrF32 | AttributeType::ArrF64 => true,
            _ => false,
        }
    }

    /// Reads a type code.
    pub fn from_type_code(code: u8) -> (r: Result<Self, LowError>)
        ensures
            match type_of_code(code) {
                Some(t) => r == Ok::<Self, LowError>(t),
                None => r == Err::<Self, LowError>(LowError::InvalidAttributeTypeCode(code)),
            },
    {
        match code {
            0x43 => Ok(AttributeType::Bool),
            0x59 => Ok(AttributeType::I16),
            0x49 => Ok(AttributeType::I32),
            0x4c => Ok(AttributeType::I64),
            0x46 => Ok(AttributeType::F32),
            0x44 => Ok(AttributeType::F64),
            0x62 => Ok(AttributeType::ArrBool),
            0x69 => Ok(AttributeType::ArrI32),
            0x6c => Ok(AttributeType::ArrI64),
            0x66 => Ok(AttributeType::ArrF32),
            0x64 => Ok(AttributeType::ArrF64),
            0x52 => Ok(AttributeType::Binary),
            0x53 => Ok(AttributeType::String),
            code => Err(LowError::InvalidAttributeTypeCode(code)),
        }
    }

    /// Returns the type code.
    pub fn type_code(self) -> (r: u8)
        ensures
            r == self.spec_type_code(),
            type_of_code(r) == Some(self),
    {
        match self {
            AttributeType::Bool => 0x43,
            AttributeType::I16 => 0x59,
            AttributeType::I32 => 0x49,
            AttributeType::I64 => 0x4c,
            AttributeType::F32 => 0x46,
            AttributeType::F64 => 0x44,
            AttributeType::ArrBool => 0x62,
            AttributeType::ArrI32 => 0x69,
            AttributeType::ArrI64 => 0x6c,
            AttributeType::ArrF32 => 0x66,
            AttributeType::ArrF64 => 0x64,
            AttributeType::Binary => 0x52,
            AttributeType::String => 0x53,
        }
    }
}

/// An attribute value. `F32` and `F64` hold bit patterns.
#[derive(Debug, Clone, PartialEq)]
pub enum AttributeValue {
    Bool(bool),
    I16(i16),
    I32(i32),
    I64(i64),
    F32(u32),
    F64(u64),
    ArrBool(Vec<bool>),
    ArrI32(Vec<i32>),
    ArrI64(Vec<i64>),
    ArrF32(Vec<u32>),
    ArrF64(Vec<u64>),
    Binary(Vec<u8>),
    String(String),
}

/// The mathematical value of an attribute.
pub enum AttrV {
    Bool(bool),
    I16(i16),
    I32(i32),
    I64(i64),
    F32(u32),
    F64(u64),
    ArrBool(Seq<bool>),
    ArrI32(Seq<i32>),
    ArrI64(Seq<i64>),
    ArrF32(Seq<u32>),
    ArrF64(Seq<u64>),
    Binary(Seq<u8>),
    String(Seq<char>),
}

impl View for AttributeValue {
    type V = AttrV;

    open spec fn view(&self) -> AttrV {
        match self {
            AttributeValue::Bool(v) => AttrV::Bool(*v),
            AttributeValue::I16(v) => AttrV::I16(*v),
            AttributeValue::I32(v) => AttrV::I32(*v),
            AttributeValue::I64(v) => AttrV::I64(*v),
            AttributeValue::F32(v) => AttrV::F32(*v),
            AttributeValue::F64(v) => AttrV::F64(*v),
            AttributeValue::ArrBool(v) => AttrV::ArrBool(v@),
            AttributeValue::ArrI32(v) => AttrV::ArrI32(v@),
            AttributeValue::ArrI64(v) => AttrV::ArrI64(v@),
            AttributeValue::ArrF32(v) => AttrV::ArrF32(v@),
            AttributeValue::ArrF64(v) => AttrV::ArrF64(v@),
            AttributeValue::Binary(v) => AttrV::Binary(v@),
            AttributeValue::String(v) => AttrV::String(v@),
        }
    }
}

impl AttrV {
    pub open spec fn attr_type(self) -> AttributeType {
        match self {
            AttrV::Bool(_) => AttributeType::Bool,
            AttrV::I16(_) => AttributeType::I16,
            AttrV::I32(_) => AttributeType::I32,
            AttrV::I64(_) => AttributeType::I64,
            AttrV::F32(_) => AttributeType::F32,
            AttrV::F64(_) => AttributeType::F64,
            AttrV::ArrBool(_) => AttributeType::ArrBool,
            AttrV::ArrI32(_) => AttributeType::ArrI32,
            AttrV::ArrI64(_) => AttributeType::ArrI64,
            AttrV::ArrF32(_) => AttributeType::ArrF32,
            AttrV::ArrF64(_) => AttributeType::ArrF64,
            AttrV::Binary(_) => AttributeType::Binary,
            AttrV::String(_) => AttributeType::String,
        }
    }
}

impl AttributeValue {
    /// Returns the type of the value.
    pub fn attr_type(&self) -> (r: AttributeType)
        ensures
            r == self@.attr_type(),
    {
        match self {
            AttributeValue::Bool(_) => AttributeType::Bool,
            AttributeValue::I16(_) => AttributeType::I16,
            AttributeValue::I32(_) => AttributeType::I32,
            AttributeValue::I64(_) => AttributeType::I64,
            AttributeValue::F32(_) => AttributeType::F32,
            AttributeValue::F64(_) => AttributeType::F64,
            AttributeValue::ArrBool(_) => AttributeType::ArrBool,
            AttributeValue::ArrI32(_) => AttributeType::ArrI32,
            AttributeValue::ArrI64(_) => AttributeType::ArrI64,
            AttributeValue::ArrF32(_) => AttributeType::ArrF32,
            AttributeValue::ArrF64(_) => AttributeType::ArrF64,
            AttributeValue::Binary(_) => AttributeType::Binary,
            AttributeValue::String(_) => AttributeType::String,
        }
    }
}

/// Whether a byte is one of the two canonical booleans, `Y` or `T`.
pub open spec fn canonical_bool(b: u8) -> bool {
    b == 0x59 || b == 0x54
}

/// The boolean that a byte stands for: its low bit.
pub open spec fn bool_of(b: u8) -> bool {
    b % 2 == 1
}

/// The single value of type `t` whose bytes start at `i`.
pub open spec fn single_value(t: AttributeType, b: Seq<u8>, i: int) -> AttrV {
    match t {
        AttributeType::Bool => AttrV::Bool(bool_of(b[i])),
        AttributeType::I16 => AttrV::I16(le_u16(b, i) as i16),
        AttributeType::I32 => AttrV::I32(le_u32(b, i) as i32),
        AttributeType::I64 => AttrV::I64(le_u64(b, i) as i64),
        AttributeType::F32 => AttrV::F32(le_u32(b, i) as u32),
        _ => AttrV::F64(le_u64(b, i) as u64),
    }
}

/// The elements of type `t` held, back to back, in `raw`.
pub open spec fn array_value(t: AttributeType, raw: Seq<u8>) -> AttrV {
    match t {
        AttributeType::ArrBool => AttrV::ArrBool(Seq::new(raw.len(), |k: int| bool_of(raw[k]))),
        AttributeType::ArrI32 => AttrV::ArrI32(
            Seq::new(raw.len() / 4, |k: int| le_u32(raw, 4 * k) as i32),
        ),
        AttributeType::ArrI64 => AttrV::ArrI64(
            Seq::new(raw.len() / 8, |k: int| le_u64(raw, 8 * k) as i64),
        ),
        AttributeType::ArrF32 => AttrV::ArrF32(
            Seq::new(raw.len() / 4, |k: int| le_u32(raw, 4 * k) as u32),
        ),
        _ => AttrV::ArrF64(Seq::new(raw.len() / 8, |k: int| le_u64(raw, 8 * k) as u64)),
    }
}

/// Whether a byte sequence, read as booleans, holds a non-canonical byte.
pub open spec fn has_noncanonical_bool(raw: Seq<u8>) -> bool {
    exists|k: int| 0 <= k < raw.len() && !canonical_bool(#[trigger] raw[k])
}

/// The outcome of decoding one attribute from the front of a byte sequence.
pub enum AttrParse {
    /// A value, its wire length, and whether a boolean byte was not `Y`/`T`.
    Done(AttrV, nat, bool),
    /// The bytes end inside the attribute.
    Eof,
    /// An unknown type code.
    BadTypeCode(u8),
    /// An array encoding other than 0 or 1.
    BadEncoding(u32),
    /// A zlib payload that does not decompress.
    BadCompression,
    /// A payload of the wrong length, or a string that is not UTF-8.
    BadPayload,
}

/// The raw element bytes of an array payload.
pub open spec fn array_raw(e: ArrayAttributeEncoding, payload: Seq<u8>) -> Option<Seq<u8>> {
    match e {
        ArrayAttributeEncoding::Direct => Some(payload),
        ArrayAttributeEncoding::Zlib => inflate_of(payload),
    }
}

/// Decodes a single value of type `t` at the front of `b`.
pub open spec fn parse_single(t: AttributeType, b: Seq<u8>) -> AttrParse {
    if b.len() < t.width() {
        AttrParse::Eof
    } else {
        AttrParse::Done(
            single_value(t, b, 0),
            t.width(),
            t == AttributeType::Bool && !canonical_bool(b[0]),
        )
    }
}

/// Decodes an array of type `t` at the front of `b`: its 12-byte header, then
/// its payload.
pub open spec fn parse_array(t: AttributeType, b: Seq<u8>) -> AttrParse {
    if b.len() < 12 {
        AttrParse::Eof
    } else {
        let n = le_u32(b, 0);
        let enc = le_u32(b, 4) as u32;
        let bytelen = le_u32(b, 8);
        match encoding_of(enc) {
            None => AttrParse::BadEncoding(enc),
            Some(e) => if b.len() < 12 + bytelen {
                AttrParse::Eof
            } else {
                match array_raw(e, b.subrange(12, 12 + bytelen as int)) {
                    None => AttrParse::BadCompression,
                    Some(raw) => if raw.len() != n * t.width() {
                        AttrParse::BadPayload
                    } else {
                        AttrParse::Done(
                            array_value(t, raw),
                            12 + bytelen,
                            t == AttributeType::ArrBool && has_noncanonical_bool(raw),
                        )
                    },
                }
            },
        }
    }
}

/// Decodes a binary or string value at the front of `b`: its 4-byte length,
/// then its payload.
pub open spec fn parse_special(t: AttributeType, b: Seq<u8>) -> AttrParse {
    if b.len() < 4 {
        AttrParse::Eof
    } else {
        let len = le_u32(b, 0);
        if b.len() < 4 + len {
            AttrParse::Eof
        } else {
            let payload = b.subrange(4, 4 + len as int);
            if t == AttributeType::Binary {
                AttrParse::Done(AttrV::Binary(payload), 4 + len, false)
            } else if valid_utf8(payload) {
                AttrParse::Done(AttrV::String(decode_utf8(payload)), 4 + len, false)
            } else {
                AttrParse::BadPayload
            }
        }
    }
}

/// Decodes the value of type `t` at the front of `b`.
pub open spec fn parse_body(t: AttributeType, b: Seq<u8>) -> AttrParse {
    if t.is_single() {
        parse_single(t, b)
    } else if t.is_array() {
        parse_array(t, b)
    } else {
        parse_special(t, b)
    }
}

/// Decodes the attribute at the front of `b`: a type code, then the value.
#[verifier::opaque]
pub open spec fn parse_attr(b: Seq<u8>) -> AttrParse {
    if b.len() < 1 {
        AttrParse::Eof
    } else {
        match type_of_code(b[0]) {
            None => AttrParse::BadTypeCode(b[0]),
            Some(t) => match parse_body(t, b.subrange(1, b.len() as int)) {
                AttrParse::Done(v, len, bad) => AttrParse::Done(v, len + 1, bad),
                p => p,
            },
        }
    }
}

/// Why an attribute could not be decoded.
#[derive(Debug, Clone, Copy, PartialEq, Eq, Structural)]
pub enum AttributeError {
    /// The source failed or ended early.
    Io(IoError),
    /// A bad type code or array encoding.
    Low(LowError),
    /// A zlib payload that does not decompress.
    BrokenCompression,
    /// A payload of the wrong length, or a string that is not UTF-8.
    NodeAttributeError,
}

/// The error that a failed decoding yields.
pub open spec fn attr_error_of(p: AttrParse) -> AttributeError {
    match p {
        AttrParse::BadTypeCode(c) => AttributeError::Low(LowError::InvalidAttributeTypeCode(c)),
        AttrParse::BadEncoding(v) => AttributeError::Low(LowError::InvalidArrayAttributeEncoding(v)),
        AttrParse::BadCompression => AttributeError::BrokenCompression,
        AttrParse::BadPayload => AttributeError::NodeAttributeError,
        _ => AttributeError::Io(IoError::UnexpectedEof),
    }
}

/// Relies on `String::from_utf8`: the decoded text exactly when the bytes are
/// valid UTF-8.
#[verifier::external_body]
pub(crate) fn string_from_utf8(b: Vec<u8>) -> (r: Option<String>)
    ensures
        r is Some <==> valid_utf8(b@),
        r matches Some(s) ==> s@ == decode_utf8(b@),
{
    String::from_utf8(b).ok()
}

/// Decodes `raw` as booleans, one byte each; also says whether a byte was
/// not `Y` or `T`.
fn decode_bools(raw: &Vec<u8>) -> (r: (Vec<bool>, bool))
    ensures
        AttrV::ArrBool(r.0@) == array_value(AttributeType::ArrBool, raw@),
        r.1 == has_noncanonical_bool(raw@),
{
    let mut out: Vec<bool> = Vec::new();
    let mut bad = false;
    let mut k: usize = 0;
    while k < raw.len()
        invariant
            k <= raw@.len(),
            out@ == Seq::new(k as nat, |j: int| bool_of(raw@[j])),
            bad == exists|j: int| 0 <= j < k && !canonical_bool(#[trigger] raw@[j]),
        decreases raw@.len() - k,
    {
        let b = raw[k];
        out.push(b % 2 == 1);
        if b != 0x59 && b != 0x54 {
            bad = true;
        }
        k = k + 1;
        assert(out@ =~= Seq::new(k as nat, |j: int| bool_of(raw@[j])));
    }
    (out, bad)
}

/// Decodes `raw` as little-endian 32-bit words.
fn decode_words(raw: &Vec<u8>) -> (r: Vec<u32>)
    requires
        raw@.len() % 4 == 0,
    ensures
        r@ == Seq::new(raw@.len() / 4, |k: int| le_u32(raw@, 4 * k) as u32),
{
    let mut out: Vec<u32> = Vec::new();
    let mut k: usize = 0;
    let n = raw.len() / 4;
    while k < n
        invariant
            n == raw@.len() / 4,
            raw@.len() % 4 == 0,
            raw@.len() <= usize::MAX,
            k <= n,
            out@ == Seq::new(k as nat, |j: int| le_u32(raw@, 4 * j) as u32),
        decreases n - k,
    {
        let w = get_u32(raw.as_slice(), 4 * k);
        out.push(w);
        k = k + 1;
        assert(out@ =~= Seq::new(k as nat, |j: int| le_u32(raw@, 4 * j) as u32));
    }
    out
}

/// Decodes `raw` as little-endian 64-bit words.
fn decode_dwords(raw: &Vec<u8>) -> (r: Vec<u64>)
    requires
        raw@.len() % 8 == 0,
    ensures
        r@ == Seq::new(raw@.len() / 8, |k: int| le_u64(raw@, 8 * k) as u64),
{
    let mut out: Vec<u64> = Vec::new();
    let mut k: usize = 0;
    let n = raw.len() / 8;
    while k < n
        invariant
            n == raw@.len() / 8,
            raw@.len() % 8 == 0,
            raw@.len() <= usize::MAX,
            k <= n,
            out@ == Seq::new(k as nat, |j: int| le_u64(raw@, 8 * j) as u64),
        decreases n - k,
    {
        let w = get_u64(raw.as_slice(), 8 * k);
        out.push(w);
        k = k + 1;
        assert(out@ =~= Seq::new(k as nat, |j: int| le_u64(raw@, 8 * j) as u64));
    }
    out
}

/// Reinterprets 32-bit words as `i32`.
fn words_to_i32(w: Vec<u32>) -> (r: Vec<i32>)
    ensures
        r@ == Seq::new(w@.len(), |k: int| w@[k] as i32),
{
    let mut out: Vec<i32> = Vec::new();
    let mut k: usize = 0;
    while k < w.len()
        invariant
            k <= w@.len(),
            out@ == Seq::new(k as nat, |j: int| w@[j] as i32),
        decreases w@.len() - k,
    {
        out.push(w[k] as i32);
        k = k + 1;
        assert(out@ =~= Seq::new(k as nat, |j: int| w@[j] as i32));
    }
    out
}

/// Reinterprets 64-bit words as `i64`.
fn dwords_to_i64(w: Vec<u64>) -> (r: Vec<i64>)
    ensures
        r@ == Seq::new(w@.len(), |k: int| w@[k] as i64),
{
    let mut out: Vec<i64> = Vec::new();
    let mut k: usize = 0;
    while k < w.len()
        invariant
            k <= w@.len(),
            out@ == Seq::new(k as nat, |j: int| w@[j] as i64),
        decreases w@.len() - k,
    {
        out.push(w[k] as i64);
        k = k + 1;
        assert(out@ =~= Seq::new(k as nat, |j: int| w@[j] as i64));
    }
    out
}

/// Decodes the raw element bytes of an array of type `t`; also says whether
/// a boolean byte was not `Y` or `T`.
pub fn decode_array(t: AttributeType, raw: &Vec<u8>) -> (r: (AttributeValue, bool))
    requires
        t.is_array(),
        raw@.len() % t.width() == 0,
    ensures
        r.0@ == array_value(t, raw@),
        r.1 == (t == AttributeType::ArrBool && has_noncanonical_bool(raw@)),
{
    match t {
        AttributeType::ArrBool => {
            let (v, bad) = decode_bools(raw);
            (AttributeValue::ArrBool(v), bad)
        },
        AttributeType::ArrI32 => {
            let w = decode_words(raw);
            let v = words_to_i32(w);
            assert(v@ =~= Seq::new(raw@.len() / 4, |k: int| le_u32(raw@, 4 * k) as i32));
            (AttributeValue::ArrI32(v), false)
        },
        AttributeType::ArrF32 => (AttributeValue::ArrF32(decode_words(raw)), false),
        AttributeType::ArrI64 => {
            let w = decode_dwords(raw);
            let v = dwords_to_i64(w);
            assert(v@ =~= Seq::new(raw@.len() / 8, |k: int| le_u64(raw@, 8 * k) as i64));
            (AttributeValue::ArrI64(v), false)
        },
        _ => (AttributeValue::ArrF64(decode_dwords(raw)), false),
    }
}

/// The postcondition shared by the attribute readers: the reader moved
/// forward, and the result is what `p` says.
pub open spec fn read_outcome(
    pre: SeekableReader,
    post: SeekableReader,
    p: AttrParse,
    r: Result<(AttributeValue, bool), AttributeError>,
) -> bool {
    &&& post.wf()
    &&& post.bytes() == pre.bytes()
    &&& post.offset() == pre.offset()
    &&& post.pos() >= pre.pos()
    &&& match p {
        AttrParse::Done(v, len, bad) => {
            &&& r is Ok
            &&& r->Ok_0.0@ == v
            &&& r->Ok_0.1 == bad
            &&& post.pos() == pre.pos() + len
        },
        p => r == Err::<(AttributeValue, bool), AttributeError>(attr_error_of(p)),
    }
}

fn read_single(t: AttributeType, reader: &mut SeekableReader) -> (r: Result<(AttributeValue, bool), AttributeError>)
    requires
        old(reader).wf(),
        t.is_single(),
    ensures
        read_outcome(*old(reader), *final(reader), parse_single(t, old(reader).rest()), r),
{
    match t {
        AttributeType::Bool => {
            let raw = match reader.read_u8() {
                Ok(v) => v,
                Err(e) => return Err(AttributeError::Io(e)),
            };
            Ok((AttributeValue::Bool(raw % 2 == 1), raw != 0x59 && raw != 0x54))
        },
        AttributeType::I16 => {
            let raw = match reader.read_u16() {
                Ok(v) => v,
                Err(e) => return Err(AttributeError::Io(e)),
            };
            Ok((AttributeValue::I16(raw as i16), false))
        },
        AttributeType::I32 => {
            let raw = match reader.read_u32() {
                Ok(v) => v,
                Err(e) => return Err(AttributeError::Io(e)),
            };
            Ok((AttributeValue::I32(raw as i32), false))
        },
        AttributeType::I64 => {
            let raw = match reader.read_u64() {
                Ok(v) => v,
                Err(e) => return Err(AttributeError::Io(e)),
            };
            Ok((AttributeValue::I64(raw as i64), false))
        },
        AttributeType::F32 => {
            let raw = match reader.read_u32() {
                Ok(v) => v,
                Err(e) => return Err(AttributeError::Io(e)),
            };
            Ok((AttributeValue::F32(raw), false))
        },
        _ => {
            let raw = match reader.read_u64() {
                Ok(v) => v,
                Err(e) => return Err(AttributeError::Io(e)),
            };
            Ok((AttributeValue::F64(raw), false))
        },
    }
}

fn read_special(t: AttributeType, reader: &mut SeekableReader) -> (r: Result<(AttributeValue, bool), AttributeError>)
    requires
        old(reader).wf(),
        t == AttributeType::Binary || t == AttributeType::String,
    ensures
        read_outcome(*old(reader), *final(reader), parse_special(t, old(reader).rest()), r),
{
    let ghost b = reader.rest();
    let len = match reader.read_u32() {
        Ok(v) => v,
        Err(e) => return Err(AttributeError::Io(e)),
    };
    let ghost b4 = reader.rest();
    assert(b4 =~= b.subrange(4, b.len() as int));
    let payload = match reader.read_exact(len as usize) {
        Ok(v) => v,
        Err(e) => return Err(AttributeError::Io(e)),
    };
    assert(payload@ =~= b.subrange(4, 4 + len as int));
    match t {
        AttributeType::Binary => Ok((AttributeValue::Binary(payload), false)),
        _ => match string_from_utf8(payload) {
            Some(s) => Ok((AttributeValue::String(s), false)),
            None => Err(AttributeError::NodeAttributeError),
        },
    }
}

fn read_array(t: AttributeType, reader: &mut SeekableReader) -> (r: Result<(AttributeValue, bool), AttributeError>)
    requires
        old(reader).wf(),
        t.is_array(),
    ensures
        read_outcome(*old(reader), *final(reader), parse_array(t, old(reader).rest()), r),
{
    let ghost b = reader.rest();
    let n = match reader.read_u32() {
        Ok(v) => v,
        Err(e) => return Err(AttributeError::Io(e)),
    };
    let ghost b4 = reader.rest();
    let raw_enc = match reader.read_u32() {
        Ok(v) => v,
        Err(e) => return Err(AttributeError::Io(e)),
    };
    let ghost b8 = reader.rest();
    let bytelen = match reader.read_u32() {
        Ok(v) => v,
        Err(e) => return Err(AttributeError::Io(e)),
    };
    let ghost b12 = reader.rest();
    assert(b4 =~= b.subrange(4, b.len() as int));
    assert(b8 =~= b.subrange(8, b.len() as int));
    assert(b12 =~= b.subrange(12, b.len() as int));
    assert(le_u32(b4, 0) == le_u32(b, 4));
    assert(le_u32(b8, 0) == le_u32(b, 8));
    assert(raw_enc == le_u32(b, 4) as u32);
    let enc = match ArrayAttributeEncoding::from_u32(raw_enc) {
        Ok(e) => e,
        Err(e) => return Err(AttributeError::Low(e)),
    };
    let payload = match reader.read_exact(bytelen as usize) {
        Ok(v) => v,
        Err(e) => return Err(AttributeError::Io(e)),
    };
    assert(payload@ =~= b.subrange(12, 12 + bytelen as int));
    let raw = match enc {
        ArrayAttributeEncoding::Direct => payload,
        ArrayAttributeEncoding::Zlib => match zlib_decompress(payload.as_slice()) {
            Some(v) => v,
            None => return Err(AttributeError::BrokenCompression),
        },
    };
    let width: usize = match t {
        AttributeType::ArrBool => 1,
        AttributeType::ArrI32 | AttributeType::ArrF32 => 4,
        _ => 8,
    };
    if raw.len() % width != 0 || raw.len() / width != n as usize {
        proof {
            if raw@.len() == n * t.width() {
                assert(raw@.len() as int % (width as int) == 0 && raw@.len() as int / (width as int) == n as int) by (nonlinear_arith)
                    requires
                        raw@.len() == n * width,
                        width > 0,
                ;
            }
        }
        return Err(AttributeError::NodeAttributeError);
    }
    assert(raw@.len() == n * t.width()) by (nonlinear_arith)
        requires
            raw@.len() as int / (width as int) == n as int,
            raw@.len() as int % (width as int) == 0,
            width == t.width(),
            width > 0,
    ;
    Ok(decode_array(t, &raw))
}

/// Reads one attribute: the type code, then the value.
///
/// On success the reader stands just past the attribute. The flag tells
/// whether a boolean byte was neither `Y` nor `T`.
pub fn read_attribute(reader: &mut SeekableReader) -> (r: Result<(AttributeValue, bool), AttributeError>)
    requires
        old(reader).wf(),
    ensures
        read_outcome(*old(reader), *final(reader), parse_attr(old(reader).rest()), r),
{
    let ghost b = reader.rest();
    reveal(parse_attr);
    let code = match reader.read_u8() {
        Ok(c) => c,
        Err(e) => return Err(AttributeError::Io(e)),
    };
    let t = match AttributeType::from_type_code(code) {
        Ok(t) => t,
        Err(e) => return Err(AttributeError::Low(e)),
    };
    assert(reader.rest() =~= b.subrange(1, b.len() as int));
    match t {
        AttributeType::Bool | AttributeType::I16 | AttributeType::I32 | AttributeType::I64
        | AttributeType::F32 | AttributeType::F64 => read_single(t, reader),
        AttributeType::Binary | AttributeType::String => read_special(t, reader),
        _ => read_array(t, reader),
    }
}

} // verus!
