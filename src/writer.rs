//! The binary writer.
//!
//! Node headers are written as placeholders and patched when the node is
//! closed, once its end offset and attribute length are known.
use vstd::prelude::*;
use vstd::utf8::encode_utf8;
use crate::attribute::{AttrV, AttributeValue};
use crate::low::{
    magic, magic_bytes, node_header_len, unknown3_expected, unknown3_expected_bytes,
    unknown1_pattern, unknown1_pattern_bytes, ArrayAttributeEncoding, ArrayAttributeHeader,
    FbxVersion, NodeHeader,
};
use crate::wire::{put_u16, put_u32, put_u64, u16_bytes, u32_bytes, u64_bytes};
use crate::zlib::{deflate_of, zlib_compress};
use crate::tree::{Tree, TreeNodeId};

verus! {

/// Writer errors.
#[derive(Debug, Clone, Copy, PartialEq, Eq, Structural)]
pub enum WriterError {
    /// The attributes of a node are too long for a narrow header.
    AttributeTooLong(u64),
    /// Zlib compression failed.
    Compression,
    /// A node ends beyond what a narrow header can hold.
    FileTooLarge(u64),
    /// `close_node` with no open node.
    NoNodesToClose,
    /// A node name longer than 255 bytes.
    NodeNameTooLong(u64),
    /// An array with more elements than a `u32` counts.
    TooManyArrayAttributeElements(u64),
    /// More attributes than a narrow header can count.
    TooManyAttributes(u64),
    /// `finalize` while nodes are open; holds how many.
    UnclosedNode(u64),
    /// A version whose major part is not 7.
    UnsupportedFbxVersion(u32),
}

/// The wire bytes of a node header, narrow before 7.5 and wide after.
pub open spec fn header_bytes(h: NodeHeader, wide: bool) -> Seq<u8> {
    if wide {
        u64_bytes(h.end_offset as nat) + u64_bytes(h.num_attributes as nat) + u64_bytes(
            h.bytelen_attributes as nat,
        ) + seq![h.bytelen_name]
    } else {
        u32_bytes(h.end_offset as nat) + u32_bytes(h.num_attributes as nat) + u32_bytes(
            h.bytelen_attributes as nat,
        ) + seq![h.bytelen_name]
    }
}

/// Whether a header fits the narrow encoding.
pub open spec fn fits_narrow(h: NodeHeader) -> bool {
    h.end_offset <= u32::MAX && h.num_attributes <= u32::MAX && h.bytelen_attributes <= u32::MAX
}

/// The error that a header too large for the narrow encoding gives.
pub open spec fn narrow_error(h: NodeHeader) -> WriterError {
    if h.end_offset > u32::MAX {
        WriterError::FileTooLarge(h.end_offset)
    } else if h.num_attributes > u32::MAX {
        WriterError::TooManyAttributes(h.num_attributes)
    } else {
        WriterError::AttributeTooLong(h.bytelen_attributes)
    }
}

fn encode_wide_header(h: &NodeHeader) -> (r: Vec<u8>)
    ensures
        r@ == header_bytes(*h, true),
        r@.len() == 25,
{
    let mut out: Vec<u8> = Vec::new();
    put_u64(&mut out, h.end_offset);
    put_u64(&mut out, h.num_attributes);
    put_u64(&mut out, h.bytelen_attributes);
    out.push(h.bytelen_name);
    assert(out@ =~= header_bytes(*h, true));
    out
}

fn encode_narrow_header(h: &NodeHeader) -> (r: Vec<u8>)
    requires
        fits_narrow(*h),
    ensures
        r@ == header_bytes(*h, false),
        r@.len() == 13,
{
    let mut out: Vec<u8> = Vec::new();
    put_u32(&mut out, h.end_offset as u32);
    put_u32(&mut out, h.num_attributes as u32);
    put_u32(&mut out, h.bytelen_attributes as u32);
    out.push(h.bytelen_name);
    assert(out@ =~= header_bytes(*h, false));
    out
}

/// Encodes the end marker.
fn encode_wide_or_narrow_marker(wide: bool) -> (r: Vec<u8>)
    ensures
        r@ == header_bytes(end_marker(), wide),
        r@.len() == node_header_len(wide),
{
    let h = NodeHeader { end_offset: 0, num_attributes: 0, bytelen_attributes: 0, bytelen_name: 0 };
    if wide {
        encode_wide_header(&h)
    } else {
        encode_narrow_header(&h)
    }
}

/// Encodes a node header.
pub fn encode_node_header(h: &NodeHeader, wide: bool) -> (r: Result<Vec<u8>, WriterError>)
    ensures
        match r {
            Ok(v) => (wide || fits_narrow(*h)) && v@ == header_bytes(*h, wide),
            Err(e) => !wide && !fits_narrow(*h) && e == narrow_error(*h),
        },
        r matches Ok(v) ==> v@.len() == node_header_len(wide),
{
    if wide {
        return Ok(encode_wide_header(h));
    }
    if h.end_offset > 0xffff_ffff {
        return Err(WriterError::FileTooLarge(h.end_offset));
    }
    if h.num_attributes > 0xffff_ffff {
        return Err(WriterError::TooManyAttributes(h.num_attributes));
    }
    if h.bytelen_attributes > 0xffff_ffff {
        return Err(WriterError::AttributeTooLong(h.bytelen_attributes));
    }
    Ok(encode_narrow_header(h))
}

/// Bytes of a boolean: `Y` for true, `T` for false.
pub open spec fn bool_byte(b: bool) -> u8 {
    if b {
        0x59
    } else {
        0x54
    }
}

/// Element bytes of a boolean array.
pub open spec fn bools_bytes(s: Seq<bool>) -> Seq<u8> {
    Seq::new(s.len(), |k: int| bool_byte(s[k]))
}

/// Element bytes of an array of 32-bit words.
pub open spec fn words_bytes(s: Seq<u32>) -> Seq<u8>
    decreases s.len(),
{
    if s.len() == 0 {
        Seq::empty()
    } else {
        words_bytes(s.drop_last()) + u32_bytes(s.last() as nat)
    }
}

/// Element bytes of an array of 64-bit words.
pub open spec fn dwords_bytes(s: Seq<u64>) -> Seq<u8>
    decreases s.len(),
{
    if s.len() == 0 {
        Seq::empty()
    } else {
        dwords_bytes(s.drop_last()) + u64_bytes(s.last() as nat)
    }
}

/// The raw element bytes of an array value, and the element count.
pub open spec fn array_elems(v: AttrV) -> (Seq<u8>, nat) {
    match v {
        AttrV::ArrBool(s) => (bools_bytes(s), s.len()),
        AttrV::ArrI32(s) => (words_bytes(s.map_values(|x: i32| x as u32)), s.len()),
        AttrV::ArrI64(s) => (dwords_bytes(s.map_values(|x: i64| x as u64)), s.len()),
        AttrV::ArrF32(s) => (words_bytes(s), s.len()),
        AttrV::ArrF64(s) => (dwords_bytes(s), s.len()),
        _ => (Seq::empty(), 0),
    }
}

/// The bytes after the type code of a single, binary or string value.
pub open spec fn scalar_bytes(v: AttrV) -> Seq<u8> {
    match v {
        AttrV::Bool(b) => seq![bool_byte(b)],
        AttrV::I16(x) => u16_bytes((x as u16) as nat),
        AttrV::I32(x) => u32_bytes((x as u32) as nat),
        AttrV::I64(x) => u64_bytes((x as u64) as nat),
        AttrV::F32(x) => u32_bytes(x as nat),
        AttrV::F64(x) => u64_bytes(x as nat),
        AttrV::Binary(p) => u32_bytes(p.len()) + p,
        AttrV::String(s) => u32_bytes(encode_utf8(s).len()) + encode_utf8(s),
        _ => Seq::empty(),
    }
}

/// The wire bytes of an attribute, arrays stored with encoding `enc`.
#[verifier::opaque]
pub open spec fn attr_bytes(v: AttrV, enc: ArrayAttributeEncoding) -> Seq<u8> {
    if v.attr_type().is_array() {
        let (raw, n) = array_elems(v);
        let payload = match enc {
            ArrayAttributeEncoding::Direct => raw,
            ArrayAttributeEncoding::Zlib => deflate_of(raw),
        };
        seq![v.attr_type().spec_type_code()] + u32_bytes(n) + u32_bytes(enc.spec_to_u32() as nat)
            + u32_bytes(payload.len()) + payload
    } else {
        seq![v.attr_type().spec_type_code()] + scalar_bytes(v)
    }
}

/// Whether every length in an attribute fits its 32-bit wire field.
pub open spec fn attr_fits(v: AttrV, enc: ArrayAttributeEncoding) -> bool {
    if v.attr_type().is_array() {
        let (raw, n) = array_elems(v);
        &&& n <= u32::MAX
        &&& (match enc {
            ArrayAttributeEncoding::Direct => raw.len(),
            ArrayAttributeEncoding::Zlib => deflate_of(raw).len(),
        }) <= u32::MAX
    } else {
        scalar_bytes(v).len() <= u32::MAX + 4
    }
}

fn push_bools(out: &mut Vec<u8>, s: &Vec<bool>)
    ensures
        final(out)@ == old(out)@ + bools_bytes(s@),
{
    let mut k: usize = 0;
    while k < s.len()
        invariant
            k <= s@.len(),
            out@ == old(out)@ + bools_bytes(s@.subrange(0, k as int)),
        decreases s@.len() - k,
    {
        out.push(if s[k] { 0x59u8 } else { 0x54u8 });
        k = k + 1;
        assert(bools_bytes(s@.subrange(0, k as int)) =~= bools_bytes(s@.subrange(0, k - 1))
            + seq![bool_byte(s@[k - 1])]);
    }
    assert(s@.subrange(0, s@.len() as int) =~= s@);
}

proof fn lemma_words_bytes_push(s: Seq<u32>, x: u32)
    ensures
        words_bytes(s.push(x)) == words_bytes(s) + u32_bytes(x as nat),
{
    assert(s.push(x).drop_last() =~= s);
}

proof fn lemma_dwords_bytes_push(s: Seq<u64>, x: u64)
    ensures
        dwords_bytes(s.push(x)) == dwords_bytes(s) + u64_bytes(x as nat),
{
    assert(s.push(x).drop_last() =~= s);
}

fn push_i32s(out: &mut Vec<u8>, s: &Vec<i32>)
    ensures
        final(out)@ == old(out)@ + words_bytes(s@.map_values(|x: i32| x as u32)),
{
    let ghost w = s@.map_values(|x: i32| x as u32);
    let mut k: usize = 0;
    while k < s.len()
        invariant
            k <= s@.len(),
            w == s@.map_values(|x: i32| x as u32),
            out@ == old(out)@ + words_bytes(w.subrange(0, k as int)),
        decreases s@.len() - k,
    {
        put_u32(out, s[k] as u32);
        proof {
            lemma_words_bytes_push(w.subrange(0, k as int), w[k as int]);
            assert(w.subrange(0, k as int).push(w[k as int]) =~= w.subrange(0, k + 1));
        }
        k = k + 1;
    }
    assert(w.subrange(0, s@.len() as int) =~= w);
}

fn push_u32s(out: &mut Vec<u8>, s: &Vec<u32>)
    ensures
        final(out)@ == old(out)@ + words_bytes(s@),
{
    let mut k: usize = 0;
    while k < s.len()
        invariant
            k <= s@.len(),
            out@ == old(out)@ + words_bytes(s@.subrange(0, k as int)),
        decreases s@.len() - k,
    {
        put_u32(out, s[k]);
        proof {
            lemma_words_bytes_push(s@.subrange(0, k as int), s@[k as int]);
            assert(s@.subrange(0, k as int).push(s@[k as int]) =~= s@.subrange(0, k + 1));
        }
        k = k + 1;
    }
    assert(s@.subrange(0, s@.len() as int) =~= s@);
}

fn push_i64s(out: &mut Vec<u8>, s: &Vec<i64>)
    ensures
        final(out)@ == old(out)@ + dwords_bytes(s@.map_values(|x: i64| x as u64)),
{
    let ghost w = s@.map_values(|x: i64| x as u64);
    let mut k: usize = 0;
    while k < s.len()
        invariant
            k <= s@.len(),
            w == s@.map_values(|x: i64| x as u64),
            out@ == old(out)@ + dwords_bytes(w.subrange(0, k as int)),
        decreases s@.len() - k,
    {
        put_u64(out, s[k] as u64);
        proof {
            lemma_dwords_bytes_push(w.subrange(0, k as int), w[k as int]);
            assert(w.subrange(0, k as int).push(w[k as int]) =~= w.subrange(0, k + 1));
        }
        k = k + 1;
    }
    assert(w.subrange(0, s@.len() as int) =~= w);
}

fn push_u64s(out: &mut Vec<u8>, s: &Vec<u64>)
    ensures
        final(out)@ == old(out)@ + dwords_bytes(s@),
{
    let mut k: usize = 0;
    while k < s.len()
        invariant
            k <= s@.len(),
            out@ == old(out)@ + dwords_bytes(s@.subrange(0, k as int)),
        decreases s@.len() - k,
    {
        put_u64(out, s[k]);
        proof {
            lemma_dwords_bytes_push(s@.subrange(0, k as int), s@[k as int]);
            assert(s@.subrange(0, k as int).push(s@[k as int]) =~= s@.subrange(0, k + 1));
        }
        k = k + 1;
    }
    assert(s@.subrange(0, s@.len() as int) =~= s@);
}

/// Appends the raw element bytes of an array value.
fn push_elems(out: &mut Vec<u8>, v: &AttributeValue)
    requires
        v@.attr_type().is_array(),
    ensures
        final(out)@ == old(out)@ + array_elems(v@).0,
{
    match v {
        AttributeValue::ArrBool(s) => push_bools(out, s),
        AttributeValue::ArrI32(s) => push_i32s(out, s),
        AttributeValue::ArrI64(s) => push_i64s(out, s),
        AttributeValue::ArrF32(s) => push_u32s(out, s),
        AttributeValue::ArrF64(s) => push_u64s(out, s),
        _ => {},
    }
}

/// The number of elements of an array value.
fn elem_count(v: &AttributeValue) -> (r: usize)
    requires
        v@.attr_type().is_array(),
    ensures
        r == array_elems(v@).1,
{
    match v {
        AttributeValue::ArrBool(s) => s.len(),
        AttributeValue::ArrI32(s) => s.len(),
        AttributeValue::ArrI64(s) => s.len(),
        AttributeValue::ArrF32(s) => s.len(),
        AttributeValue::ArrF64(s) => s.len(),
        _ => 0,
    }
}

/// Appends the bytes of a payload.
fn push_all(out: &mut Vec<u8>, p: &[u8])
    ensures
        final(out)@ == old(out)@ + p@,
{
    let mut k: usize = 0;
    while k < p.len()
        invariant
            k <= p@.len(),
            out@ == old(out)@ + p@.subrange(0, k as int),
        decreases p@.len() - k,
    {
        out.push(p[k]);
        k = k + 1;
        assert(out@ =~= old(out)@ + p@.subrange(0, k as int));
    }
    assert(p@.subrange(0, p@.len() as int) =~= p@);
}

/// Encodes an array attribute, with its type code.
fn encode_array(v: &AttributeValue, enc: ArrayAttributeEncoding) -> (r: Result<Vec<u8>, WriterError>)
    requires
        v@.attr_type().is_array(),
    ensures
        match r {
            Ok(b) => attr_fits(v@, enc) && b@ == attr_bytes(v@, enc),
            Err(WriterError::Compression) => enc == ArrayAttributeEncoding::Zlib,
            Err(WriterError::TooManyArrayAttributeElements(n)) => n == array_elems(v@).1
                && n > u32::MAX,
            Err(WriterError::AttributeTooLong(_)) => !attr_fits(v@, enc),
            Err(_) => false,
        },
{
    let n = elem_count(v);
    if n > 0xffff_ffff {
        return Err(WriterError::TooManyArrayAttributeElements(n as u64));
    }
    let mut raw: Vec<u8> = Vec::new();
    push_elems(&mut raw, v);
    let payload = match enc {
        ArrayAttributeEncoding::Direct => raw,
        ArrayAttributeEncoding::Zlib => match zlib_compress(raw.as_slice()) {
            Some(p) => p,
            None => return Err(WriterError::Compression),
        },
    };
    if payload.len() > 0xffff_ffff {
        return Err(WriterError::AttributeTooLong(payload.len() as u64));
    }
    let header = ArrayAttributeHeader {
        elements_count: n as u32,
        encoding: enc,
        bytelen: payload.len() as u32,
    };
    let mut out: Vec<u8> = Vec::new();
    out.push(v.attr_type().type_code());
    header.write(&mut out);
    push_all(&mut out, payload.as_slice());
    reveal(attr_bytes);
    assert(out@ =~= attr_bytes(v@, enc));
    Ok(out)
}

/// Encodes a single, binary or string attribute, with its type code.
fn encode_scalar(v: &AttributeValue) -> (r: Result<Vec<u8>, WriterError>)
    requires
        !v@.attr_type().is_array(),
    ensures
        match r {
            Ok(b) => attr_fits(v@, ArrayAttributeEncoding::Direct) && b@ == attr_bytes(
                v@,
                ArrayAttributeEncoding::Direct,
            ),
            Err(WriterError::AttributeTooLong(_)) => !attr_fits(v@, ArrayAttributeEncoding::Direct),
            Err(_) => false,
        },
{
    let mut out: Vec<u8> = Vec::new();
    out.push(v.attr_type().type_code());
    match v {
        AttributeValue::Bool(b) => out.push(if *b { 0x59u8 } else { 0x54u8 }),
        AttributeValue::I16(x) => put_u16(&mut out, *x as u16),
        AttributeValue::I32(x) => put_u32(&mut out, *x as u32),
        AttributeValue::I64(x) => put_u64(&mut out, *x as u64),
        AttributeValue::F32(x) => put_u32(&mut out, *x),
        AttributeValue::F64(x) => put_u64(&mut out, *x),
        AttributeValue::Binary(p) => {
            if p.len() > 0xffff_ffff {
                return Err(WriterError::AttributeTooLong(p.len() as u64));
            }
            put_u32(&mut out, p.len() as u32);
            push_all(&mut out, p.as_slice());
        },
        AttributeValue::String(s) => {
            let p = s.as_str().as_bytes();
            if p.len() > 0xffff_ffff {
                return Err(WriterError::AttributeTooLong(p.len() as u64));
            }
            put_u32(&mut out, p.len() as u32);
            push_all(&mut out, p);
        },
        _ => {},
    }
    reveal(attr_bytes);
    assert(out@ =~= attr_bytes(v@, ArrayAttributeEncoding::Direct));
    Ok(out)
}

/// Encodes an attribute with its type code; arrays use `enc`.
pub fn encode_attribute(v: &AttributeValue, enc: ArrayAttributeEncoding) -> (r: Result<Vec<u8>, WriterError>)
    ensures
        match r {
            Ok(b) => attr_fits(v@, enc) && b@ == attr_bytes(v@, enc),
            Err(WriterError::Compression) => enc == ArrayAttributeEncoding::Zlib
                && v@.attr_type().is_array(),
            Err(WriterError::TooManyArrayAttributeElements(n)) => v@.attr_type().is_array()
                && n == array_elems(v@).1 && n > u32::MAX,
            Err(WriterError::AttributeTooLong(_)) => !attr_fits(v@, enc),
            Err(_) => false,
        },
{
    reveal(attr_bytes);
    if v.attr_type().is_array_type() {
        encode_array(v, enc)
    } else {
        encode_scalar(v)
    }
}

/// A run of `n` zero bytes.
pub open spec fn zeros(n: nat) -> Seq<u8> {
    Seq::new(n, |k: int| 0u8)
}

/// `s` with the bytes at `pos` replaced by `b`.
pub open spec fn splice(s: Seq<u8>, pos: int, b: Seq<u8>) -> Seq<u8> {
    s.subrange(0, pos) + b + s.subrange(pos + b.len(), s.len() as int)
}

fn push_zeros(out: &mut Vec<u8>, n: u64)
    ensures
        final(out)@ == old(out)@ + zeros(n as nat),
{
    let mut k: u64 = 0;
    while k < n
        invariant
            k <= n,
            out@ == old(out)@ + zeros(k as nat),
        decreases n - k,
    {
        out.push(0u8);
        k = k + 1;
        assert(out@ =~= old(out)@ + zeros(k as nat));
    }
}

fn patch(sink: &mut Vec<u8>, pos: usize, b: &Vec<u8>)
    requires
        pos + b@.len() <= old(sink)@.len(),
    ensures
        final(sink)@ == splice(old(sink)@, pos as int, b@),
{
    let _len = sink.len();
    let mut k: usize = 0;
    while k < b.len()
        invariant
            pos + b@.len() <= sink@.len(),
            sink@.len() <= usize::MAX,
            k <= b@.len(),
            sink@.len() == old(sink)@.len(),
            forall|j: int| 0 <= j < sink@.len() ==> #[trigger] sink@[j] == if pos <= j < pos + k {
                b@[j - pos]
            } else {
                old(sink)@[j]
            },
        decreases b@.len() - k,
    {
        sink[pos + k] = b[k];
        k = k + 1;
    }
    assert(sink@ =~= splice(old(sink)@, pos as int, b@));
}

/// The header that a node opens with, before it is patched.
pub open spec fn placeholder(name_len: u8) -> NodeHeader {
    NodeHeader { end_offset: 0, num_attributes: 0, bytelen_attributes: 0, bytelen_name: name_len }
}

/// The end marker.
pub open spec fn end_marker() -> NodeHeader {
    placeholder(0)
}

/// Footer padding: computed to align, or forced.
#[derive(Debug, Clone, Copy, PartialEq, Eq, Structural)]
pub enum FbxFooterPaddingLength {
    /// Align the field after the padding to 16 bytes.
    Default,
    /// Exactly this many zero bytes.
    Forced(u8),
}

/// Fields of the footer to write; `None` takes the official value.
#[derive(Debug, Clone)]
pub struct FbxFooter {
    /// Sixteen bytes; by default the official high-nibble pattern.
    pub unknown1: Option<Vec<u8>>,
    /// Padding length.
    pub padding_len: FbxFooterPaddingLength,
    /// Four bytes; by default zeros.
    pub unknown2: Option<Vec<u8>>,
    /// Sixteen bytes; by default the official trailer.
    pub unknown3: Option<Vec<u8>>,
}

impl Default for FbxFooter {
    fn default() -> (r: Self)
        ensures
            r.unknown1 is None,
            r.padding_len == FbxFooterPaddingLength::Default,
            r.unknown2 is None,
            r.unknown3 is None,
    {
        FbxFooter {
            unknown1: None,
            padding_len: FbxFooterPaddingLength::Default,
            unknown2: None,
            unknown3: None,
        }
    }
}

impl FbxFooter {
    pub open spec fn spec_unknown1(&self) -> Seq<u8> {
        match self.unknown1 {
            Some(v) => v@,
            None => unknown1_pattern(),
        }
    }

    pub open spec fn spec_unknown2(&self) -> Seq<u8> {
        match self.unknown2 {
            Some(v) => v@,
            None => zeros(4),
        }
    }

    pub open spec fn spec_unknown3(&self) -> Seq<u8> {
        match self.unknown3 {
            Some(v) => v@,
            None => unknown3_expected(),
        }
    }

    /// The number of padding bytes when the footer's first field ends at `pos`.
    pub open spec fn spec_padding(&self, pos: nat) -> nat {
        match self.padding_len {
            FbxFooterPaddingLength::Default => ((16 - pos % 16) % 16) as nat,
            FbxFooterPaddingLength::Forced(n) => n as nat,
        }
    }

    pub open spec fn wf(&self) -> bool {
        &&& self.spec_unknown1().len() == 16
        &&& self.spec_unknown2().len() == 4
        &&& self.spec_unknown3().len() == 16
    }

    /// The footer bytes written after a file whose root terminator ends at
    /// `pos`, for version `version`.
    pub open spec fn spec_bytes(&self, pos: nat, version: u32) -> Seq<u8> {
        self.spec_unknown1() + zeros(self.spec_padding(pos + 16)) + self.spec_unknown2() + u32_bytes(
            version as nat,
        ) + zeros(120) + self.spec_unknown3()
    }
}

/// A step of writing: open a node with a name, append an attribute to it,
/// or close it.
pub enum WriteOp {
    Open(Seq<char>),
    Attr(AttrV),
    Close,
}

/// Whether `post` is what one step `op` makes of `pre`.
pub open spec fn op_post(pre: Writer, post: Writer, op: WriteOp) -> bool {
    &&& post.wf()
    &&& post.version() == pre.version()
    &&& match op {
        WriteOp::Open(name) => {
            &&& encode_utf8(name).len() <= 255
            &&& post.depth() == pre.depth() + 1
            &&& post.can_append()
            &&& post.current_attr_count() == 0
            &&& post.bytes() == pre.bytes() + header_bytes(
                placeholder(encode_utf8(name).len() as u8),
                pre.wide(),
            ) + encode_utf8(name)
        },
        WriteOp::Attr(v) => {
            &&& pre.can_append()
            &&& post.depth() == pre.depth()
            &&& post.can_append()
            &&& post.current_attr_count() == pre.current_attr_count() + 1
            &&& post.bytes() == pre.bytes() + attr_bytes(v, ArrayAttributeEncoding::Direct)
        },
        WriteOp::Close => {
            &&& pre.depth() > 0
            &&& post.depth() == pre.depth() - 1
            &&& post.bytes() == pre.closed_bytes()
        },
    }
}

/// Whether the writer states `ws` follow one another by the steps `ops`.
pub open spec fn op_run(ws: Seq<Writer>, ops: Seq<WriteOp>) -> bool {
    &&& ws.len() == ops.len() + 1
    &&& forall|i: int| 0 <= i < ops.len() ==> #[trigger] op_post(ws[i], ws[i + 1], ops[i])
}

proof fn lemma_op_run_append(ws1: Seq<Writer>, ops1: Seq<WriteOp>, ws2: Seq<Writer>, ops2: Seq<WriteOp>)
    requires
        op_run(ws1, ops1),
        op_run(ws2, ops2),
        ws1.last() == ws2[0],
    ensures
        op_run(ws1 + ws2.drop_first(), ops1 + ops2),
        (ws1 + ws2.drop_first())[0] == ws1[0],
        (ws1 + ws2.drop_first()).last() == ws2.last(),
{
    let ws = ws1 + ws2.drop_first();
    let ops = ops1 + ops2;
    let n1 = ops1.len() as int;
    assert forall|i: int| 0 <= i < ops.len() implies #[trigger] op_post(ws[i], ws[i + 1], ops[i]) by {
        if i < n1 {
            assert(op_post(ws1[i], ws1[i + 1], ops1[i]));
        } else {
            assert(op_post(ws2[i - n1], ws2[i - n1 + 1], ops2[i - n1]));
            assert(ws[i] == ws2[i - n1]);
        }
    }
}

proof fn lemma_op_run_push(ws: Seq<Writer>, ops: Seq<WriteOp>, w: Writer, op: WriteOp)
    requires
        op_run(ws, ops),
        op_post(ws.last(), w, op),
    ensures
        op_run(ws.push(w), ops.push(op)),
{
    let ws2 = ws.push(w);
    let ops2 = ops.push(op);
    assert forall|i: int| 0 <= i < ops2.len() implies #[trigger] op_post(ws2[i], ws2[i + 1], ops2[i]) by {
        if i < ops.len() {
            assert(op_post(ws[i], ws[i + 1], ops[i]));
        }
    }
}

/// The steps that open node `c` of a tree and append its attributes.
pub open spec fn node_ops(t: Tree, c: nat) -> Seq<WriteOp> {
    seq![WriteOp::Open(t.node(c as int).name)] + t.node(c as int).attributes.map_values(
        |v: AttrV| WriteOp::Attr(v),
    )
}

/// The steps that write node `c`, its subtree, and then its later siblings.
pub open spec fn chain_ops(t: Tree, c: nat) -> Seq<WriteOp>
    decreases t.len() - c, 1nat,
{
    if c < t.len() {
        node_ops(t, c) + children_ops(t, c) + seq![WriteOp::Close] + match t.spec_next_sibling(c) {
            Some(d) => if c < d && d < t.len() {
                chain_ops(t, d)
            } else {
                Seq::empty()
            },
            None => Seq::empty(),
        }
    } else {
        Seq::empty()
    }
}

/// The steps that write the children of node `i`, each with its subtree.
pub open spec fn children_ops(t: Tree, i: nat) -> Seq<WriteOp>
    decreases t.len() - i, 0nat,
{
    if i < t.len() {
        match t.spec_first_child(i) {
            Some(c) => if i < c && c < t.len() {
                chain_ops(t, c)
            } else {
                Seq::empty()
            },
            None => Seq::empty(),
        }
    } else {
        Seq::empty()
    }
}

/// Whether every node under the root can be written with direct arrays:
/// names of at most 255 bytes, fewer than `u64::MAX` attributes, and
/// attributes whose lengths fit their fields.
pub open spec fn tree_writable(t: Tree) -> bool {
    forall|i: int|
        1 <= i < t.len() ==> {
            &&& encode_utf8(#[trigger] t.node(i).name).len() <= 255
            &&& t.node(i).attributes.len() < u64::MAX
            &&& forall|k: int|
                0 <= k < t.node(i).attributes.len() ==> attr_fits(
                    #[trigger] t.node(i).attributes[k],
                    ArrayAttributeEncoding::Direct,
                )
        }
}

/// The errors that writing a tree may end in: one that the tree itself
/// causes, a file too large for its offsets, or a header too large for the
/// narrow width.
pub open spec fn tree_write_error(t: Tree, wide: bool, e: WriterError) -> bool {
    !tree_writable(t) || e is FileTooLarge || (!wide && (e is TooManyAttributes
        || e is AttributeTooLong))
}

/// The steps that write the sibling chain from `o` on.
pub open spec fn rest_ops(t: Tree, o: Option<TreeNodeId>) -> Seq<WriteOp> {
    match o {
        Some(c) => chain_ops(t, c.spec_index()),
        None => Seq::empty(),
    }
}

/// A node being written.
#[derive(Debug, Clone, Copy)]
struct OpenNode {
    header_pos: u64,
    body_pos: u64,
    header: NodeHeader,
    has_child: bool,
    is_attrs_finalized: bool,
}

/// The binary writer, over an in-memory sink.
#[derive(Debug, Clone)]
pub struct Writer {
    sink: Vec<u8>,
    fbx_version: FbxVersion,
    open_nodes: Vec<OpenNode>,
}

impl Writer {
    /// The bytes written so far.
    pub closed spec fn bytes(&self) -> Seq<u8> {
        self.sink@
    }

    /// The number of open nodes.
    pub closed spec fn depth(&self) -> nat {
        self.open_nodes@.len()
    }

    /// The version being written.
    pub closed spec fn version(&self) -> FbxVersion {
        self.fbx_version
    }

    /// Whether attributes may be appended now: a node is open and has no
    /// child yet.
    pub closed spec fn can_append(&self) -> bool {
        self.open_nodes@.len() > 0 && !self.open_nodes@.last().is_attrs_finalized
    }

    /// The number of attributes of the innermost open node.
    pub closed spec fn current_attr_count(&self) -> nat {
        self.open_nodes@.last().header.num_attributes as nat
    }

    pub open spec fn wide(&self) -> bool {
        self.version().spec_wide_headers()
    }

    pub closed spec fn wf(&self) -> bool {
        &&& self.sink@.len() <= u64::MAX
        &&& forall|i: int| 0 <= i < self.open_nodes@.len() ==> {
            let n = #[trigger] self.open_nodes@[i];
            &&& n.header_pos + node_header_len(self.wide()) <= n.body_pos
            &&& n.body_pos <= self.sink@.len()
            &&& (!n.is_attrs_finalized ==> n.header.bytelen_attributes == 0)
        }
    }

    /// Starts a file: writes the magic and the version.
    pub fn new(fbx_version: FbxVersion) -> (r: Result<Writer, WriterError>)
        ensures
            match r {
                Ok(w) => {
                    &&& fbx_version.spec_raw() / 1000 == 7
                    &&& w.wf()
                    &&& w.depth() == 0
                    &&& w.version() == fbx_version
                    &&& w.bytes() == magic() + u32_bytes(fbx_version.spec_raw() as nat)
                },
                Err(e) => {
                    &&& fbx_version.spec_raw() / 1000 != 7
                    &&& e == WriterError::UnsupportedFbxVersion(fbx_version.spec_raw())
                },
            },
    {
        if fbx_version.major() != 7 {
            return Err(WriterError::UnsupportedFbxVersion(fbx_version.raw()));
        }
        let mut sink = magic_bytes();
        put_u32(&mut sink, fbx_version.raw());
        Ok(Writer { sink, fbx_version, open_nodes: Vec::new() })
    }

    /// Returns the version being written.
    pub fn fbx_version(&self) -> (r: FbxVersion)
        ensures
            r == self.version(),
    {
        self.fbx_version
    }

    /// Returns the number of open nodes.
    pub fn open_depth(&self) -> (r: usize)
        ensures
            r == self.depth(),
    {
        self.open_nodes.len()
    }

    /// Returns the bytes written so far.
    pub fn sink(&self) -> (r: &Vec<u8>)
        ensures
            r@ == self.bytes(),
    {
        &self.sink
    }

    fn is_wide(&self) -> (r: bool)
        ensures
            r == self.wide(),
    {
        self.fbx_version.raw() >= 7500
    }

    /// Records the attribute length of the innermost node, once.
    fn finalize_attributes(&mut self)
        requires
            old(self).wf(),
        ensures
            final(self).wf(),
            final(self).bytes() == old(self).bytes(),
            final(self).depth() == old(self).depth(),
            final(self).version() == old(self).version(),
            final(self).depth() > 0 ==> !final(self).can_append(),
            final(self).depth() > 0 ==> final(self).open_nodes@.last().header.num_attributes
                == old(self).open_nodes@.last().header.num_attributes,
            final(self).depth() > 0 ==> final(self).open_nodes@.last().has_child
                == old(self).open_nodes@.last().has_child,
            forall|i: int|
                0 <= i < final(self).depth() - 1 ==> final(self).open_nodes@[i]
                    == old(self).open_nodes@[i],
            final(self).depth() > 0 ==> {
                let (a, b) = (final(self).open_nodes@.last(), old(self).open_nodes@.last());
                &&& a.header_pos == b.header_pos
                &&& a.body_pos == b.body_pos
                &&& a.header.bytelen_name == b.header.bytelen_name
                &&& a.header.bytelen_attributes == if b.is_attrs_finalized {
                    b.header.bytelen_attributes
                } else {
                    (old(self).bytes().len() - b.body_pos) as u64
                }
            },
    {
        let n = self.open_nodes.len();
        if n == 0 {
            return;
        }
        let mut node = self.open_nodes[n - 1];
        if node.is_attrs_finalized {
            return;
        }
        node.header.bytelen_attributes = self.sink.len() as u64 - node.body_pos;
        node.is_attrs_finalized = true;
        self.open_nodes.set(n - 1, node);
    }

    /// Opens a child of the innermost open node (or a top-level node), and
    /// writes its placeholder header and name.
    pub fn new_node(&mut self, name: &str) -> (r: Result<(), WriterError>)
        requires
            old(self).wf(),
        ensures
            final(self).wf(),
            final(self).version() == old(self).version(),
            match r {
                Ok(_) => {
                    &&& encode_utf8(name@).len() <= 255
                    &&& final(self).depth() == old(self).depth() + 1
                    &&& final(self).can_append()
                    &&& final(self).current_attr_count() == 0
                    &&& final(self).bytes() == old(self).bytes() + header_bytes(
                        placeholder(encode_utf8(name@).len() as u8),
                        old(self).wide(),
                    ) + encode_utf8(name@)
                },
                Err(e) => {
                    &&& encode_utf8(name@).len() > 255
                    &&& e == WriterError::NodeNameTooLong(encode_utf8(name@).len() as u64)
                    &&& final(self).bytes() == old(self).bytes()
                    &&& final(self).depth() == old(self).depth()
                },
            },
    {
        let name_bytes = name.as_bytes();
        if name_bytes.len() > 255 {
            return Err(WriterError::NodeNameTooLong(name_bytes.len() as u64));
        }
        self.finalize_attributes();
        let n = self.open_nodes.len();
        if n > 0 {
            let mut parent = self.open_nodes[n - 1];
            parent.has_child = true;
            self.open_nodes.set(n - 1, parent);
        }
        let header = NodeHeader {
            end_offset: 0,
            num_attributes: 0,
            bytelen_attributes: 0,
            bytelen_name: name_bytes.len() as u8,
        };
        let header_pos = self.sink.len() as u64;
        let wide = self.is_wide();
        let hb = match encode_node_header(&header, wide) {
            Ok(b) => b,
            Err(e) => return Err(e),
        };
        push_all(&mut self.sink, hb.as_slice());
        push_all(&mut self.sink, name_bytes);
        let body_pos = self.sink.len() as u64;
        self.open_nodes.push(
            OpenNode { header_pos, body_pos, header, has_child: false, is_attrs_finalized: false },
        );
        proof {
            assert(self.open_nodes@.last().header_pos + node_header_len(self.wide())
                <= self.open_nodes@.last().body_pos);
        }
        Ok(())
    }

    /// Appends an attribute to the innermost open node; arrays are stored
    /// with encoding `enc`.
    pub fn append_attribute(&mut self, v: &AttributeValue, enc: ArrayAttributeEncoding) -> (r:
        Result<(), WriterError>)
        requires
            old(self).wf(),
            old(self).can_append(),
        ensures
            final(self).wf(),
            final(self).version() == old(self).version(),
            final(self).depth() == old(self).depth(),
            r is Err ==> *final(self) == *old(self),
            match r {
                Ok(_) => {
                    &&& attr_fits(v@, enc)
                    &&& final(self).can_append()
                    &&& final(self).current_attr_count() == old(self).current_attr_count() + 1
                    &&& final(self).bytes() == old(self).bytes() + attr_bytes(v@, enc)
                },
                Err(WriterError::TooManyAttributes(n)) => n == old(self).current_attr_count()
                    && n == u64::MAX,
                Err(WriterError::Compression) => enc == ArrayAttributeEncoding::Zlib
                    && v@.attr_type().is_array(),
                Err(WriterError::TooManyArrayAttributeElements(n)) => v@.attr_type().is_array()
                    && n == array_elems(v@).1 && n > u32::MAX,
                Err(WriterError::AttributeTooLong(_)) => !attr_fits(v@, enc),
                Err(_) => false,
            },
    {
        let n = self.open_nodes.len();
        let mut node = self.open_nodes[n - 1];
        if node.header.num_attributes == u64::MAX {
            return Err(WriterError::TooManyAttributes(node.header.num_attributes));
        }
        let b = match encode_attribute(v, enc) {
            Ok(b) => b,
            Err(e) => return Err(e),
        };
        push_all(&mut self.sink, b.as_slice());
        let _len = self.sink.len();
        node.header.num_attributes = node.header.num_attributes + 1;
        self.open_nodes.set(n - 1, node);
        Ok(())
    }

    /// Appends a binary attribute.
    pub fn append_binary_direct(&mut self, binary: &[u8]) -> (r: Result<(), WriterError>)
        requires
            old(self).wf(),
            old(self).can_append(),
        ensures
            final(self).wf(),
            final(self).version() == old(self).version(),
            final(self).depth() == old(self).depth(),
            match r {
                Ok(_) => {
                    &&& final(self).can_append()
                    &&& final(self).current_attr_count() == old(self).current_attr_count() + 1
                    &&& final(self).bytes() == old(self).bytes() + attr_bytes(
                        AttrV::Binary(binary@),
                        ArrayAttributeEncoding::Direct,
                    )
                },
                Err(_) => binary@.len() > u32::MAX || old(self).current_attr_count() == u64::MAX,
            },
    {
        let mut copy: Vec<u8> = Vec::new();
        push_all(&mut copy, binary);
        let v = AttributeValue::Binary(copy);
        self.append_attribute(&v, ArrayAttributeEncoding::Direct)
    }

    /// Appends a string attribute.
    pub fn append_string_direct(&mut self, string: &str) -> (r: Result<(), WriterError>)
        requires
            old(self).wf(),
            old(self).can_append(),
        ensures
            final(self).wf(),
            final(self).version() == old(self).version(),
            final(self).depth() == old(self).depth(),
            match r {
                Ok(_) => {
                    &&& final(self).can_append()
                    &&& final(self).current_attr_count() == old(self).current_attr_count() + 1
                    &&& final(self).bytes() == old(self).bytes() + attr_bytes(
                        AttrV::String(string@),
                        ArrayAttributeEncoding::Direct,
                    )
                },
                Err(_) => encode_utf8(string@).len() > u32::MAX || old(self).current_attr_count()
                    == u64::MAX,
            },
    {
        let v = AttributeValue::String(string.to_owned());
        self.append_attribute(&v, ArrayAttributeEncoding::Direct)
    }

    /// The innermost node's header as its close patches it.
    pub closed spec fn closed_header(&self) -> NodeHeader {
        let n = self.open_nodes@.last();
        let marker = n.has_child || n.header.num_attributes == 0;
        let end = self.sink@.len() + if marker {
            node_header_len(self.wide())
        } else {
            0
        };
        let bytelen = if n.is_attrs_finalized {
            n.header.bytelen_attributes
        } else {
            (self.sink@.len() - n.body_pos) as u64
        };
        NodeHeader {
            end_offset: end as u64,
            num_attributes: n.header.num_attributes,
            bytelen_attributes: bytelen,
            bytelen_name: n.header.bytelen_name,
        }
    }

    /// The bytes after closing the innermost node.
    pub closed spec fn closed_bytes(&self) -> Seq<u8> {
        let n = self.open_nodes@.last();
        let marker = n.has_child || n.header.num_attributes == 0;
        let mid = if marker {
            self.sink@ + header_bytes(end_marker(), self.wide())
        } else {
            self.sink@
        };
        splice(mid, n.header_pos as int, header_bytes(self.closed_header(), self.wide()))
    }

    /// Whether the innermost node's patched header fits the header width.
    pub open spec fn close_fits(&self) -> bool {
        self.wide() || fits_narrow(self.closed_header())
    }

    /// Closes the innermost open node: writes its end marker where the node
    /// has a child or no attribute, and patches its header. On failure
    /// nothing is written.
    pub fn close_node(&mut self) -> (r: Result<(), WriterError>)
        requires
            old(self).wf(),
        ensures
            final(self).wf(),
            final(self).version() == old(self).version(),
            (old(self).depth() == 0) == (r == Err::<(), WriterError>(WriterError::NoNodesToClose)),
            r is Err ==> *final(self) == *old(self),
            r is Ok ==> {
                &&& old(self).depth() > 0
                &&& final(self).depth() == old(self).depth() - 1
                &&& final(self).bytes() == old(self).closed_bytes()
            },
            old(self).depth() > 0 && old(self).bytes().len() + 25 <= u64::MAX
                && old(self).close_fits() ==> r is Ok,
            r matches Err(e) ==> e == WriterError::NoNodesToClose || e is FileTooLarge || (
            !old(self).wide() && (e is TooManyAttributes || e is AttributeTooLong)),
    {
        let n = self.open_nodes.len();
        if n == 0 {
            return Err(WriterError::NoNodesToClose);
        }
        let node = self.open_nodes[n - 1];
        let wide = self.is_wide();
        let len = self.sink.len() as u64;
        if len > u64::MAX - 25 {
            return Err(WriterError::FileTooLarge(len));
        }
        let marker = node.has_child || node.header.num_attributes == 0;
        let marker_len: u64 = if marker {
            if wide {
                25
            } else {
                13
            }
        } else {
            0
        };
        let bytelen = if node.is_attrs_finalized {
            node.header.bytelen_attributes
        } else {
            len - node.body_pos
        };
        let h = NodeHeader {
            end_offset: len + marker_len,
            num_attributes: node.header.num_attributes,
            bytelen_attributes: bytelen,
            bytelen_name: node.header.bytelen_name,
        };
        assert(h == self.closed_header());
        let hb = match encode_node_header(&h, wide) {
            Ok(b) => b,
            Err(e) => return Err(e),
        };
        let ghost pre = *self;
        let _ = self.open_nodes.pop();
        if marker {
            let mb = encode_wide_or_narrow_marker(wide);
            push_all(&mut self.sink, mb.as_slice());
        }
        patch(&mut self.sink, node.header_pos as usize, &hb);
        proof {
            assert(self.open_nodes@ =~= pre.open_nodes@.drop_last());
            assert(self.sink@ == pre.closed_bytes());
        }
        let _l = self.sink.len();
        Ok(())
    }

    /// Ends the file: writes the root's end marker and the footer, and gives
    /// the bytes back.
    pub fn finalize(self, footer: &FbxFooter) -> (r: Result<Vec<u8>, WriterError>)
        requires
            self.wf(),
            footer.wf(),
        ensures
            match r {
                Ok(v) => {
                    let body = self.bytes() + header_bytes(end_marker(), self.wide());
                    &&& self.depth() == 0
                    &&& v@ == body + footer.spec_bytes(body.len(), self.version().spec_raw())
                },
                Err(e) => self.depth() > 0 && e == WriterError::UnclosedNode(self.depth() as u64),
            },
    {
        let mut this = self;
        if this.open_nodes.len() != 0 {
            return Err(WriterError::UnclosedNode(this.open_nodes.len() as u64));
        }
        let wide = this.is_wide();
        let hb = match encode_node_header(&NodeHeader::node_end(), wide) {
            Ok(b) => b,
            Err(e) => return Err(e),
        };
        let mut sink = this.sink;
        push_all(&mut sink, hb.as_slice());
        let ghost body = sink@;
        match &footer.unknown1 {
            Some(u) => push_all(&mut sink, u.as_slice()),
            None => {
                let u = unknown1_pattern_bytes();
                push_all(&mut sink, u.as_slice());
            },
        }
        assert(sink@ == body + footer.spec_unknown1());
        let pad: u64 = match footer.padding_len {
            FbxFooterPaddingLength::Default => ((16 - sink.len() % 16) % 16) as u64,
            FbxFooterPaddingLength::Forced(n) => n as u64,
        };
        assert(pad == footer.spec_padding(body.len() + 16));
        push_zeros(&mut sink, pad);
        let ghost s1 = sink@;
        match &footer.unknown2 {
            Some(u) => push_all(&mut sink, u.as_slice()),
            None => push_zeros(&mut sink, 4),
        }
        assert(sink@ == s1 + footer.spec_unknown2());
        put_u32(&mut sink, this.fbx_version.raw());
        push_zeros(&mut sink, 120);
        let ghost s2 = sink@;
        match &footer.unknown3 {
            Some(u) => push_all(&mut sink, u.as_slice()),
            None => {
                let u = unknown3_expected_bytes();
                push_all(&mut sink, u.as_slice());
            },
        }
        assert(sink@ == s2 + footer.spec_unknown3());
        assert(sink@ =~= body + footer.spec_bytes(body.len(), self.version().spec_raw()));
        Ok(sink)
    }

    /// Writes every node of a tree under the root, depth first and children
    /// in order, each with its attributes (arrays stored directly).
    pub fn write_tree(&mut self, tree: &Tree) -> (r: Result<(), WriterError>)
        requires
            old(self).wf(),
            tree.wf(),
        ensures
            final(self).wf(),
            final(self).version() == old(self).version(),
            r is Ok ==> final(self).depth() == old(self).depth() && exists|ws: Seq<Writer>| #[trigger]
                op_run(ws, children_ops(*tree, 0)) && ws[0] == *old(self) && ws.last()
                == *final(self),
            r matches Err(e) ==> tree_write_error(*tree, old(self).wide(), e),
            tree.no_child_between(0, -1, tree.len() as int) ==> r is Ok,
    {
        let root = tree.root();
        let (r, Ghost(ws)) = self.write_children(tree, root);
        proof {
            if r is Ok {
                assert(op_run(ws, children_ops(*tree, 0)) && ws[0] == *old(self) && ws.last()
                    == *self);
            }
        }
        r
    }

    /// Writes the children of `id`, each followed by its own children; also
    /// gives the states the writer went through.
    fn write_children(&mut self, tree: &Tree, id: TreeNodeId) -> (r: (Result<(), WriterError>, Ghost<Seq<Writer>>))
        requires
            old(self).wf(),
            tree.wf(),
            tree.has(id),
        ensures
            final(self).wf(),
            final(self).version() == old(self).version(),
            r.0 is Ok ==> final(self).depth() == old(self).depth() && op_run(
                r.1@,
                children_ops(*tree, id.spec_index()),
            ) && r.1@[0] == *old(self) && r.1@.last() == *final(self),
            r.0 matches Err(e) ==> tree_write_error(*tree, old(self).wide(), e),
            tree.no_child_between(id.spec_index(), -1, tree.len() as int) ==> r.0 is Ok,
        decreases tree.len() - id.spec_index(),
    {
        let ghost mut ws: Seq<Writer> = seq![*self];
        let ghost mut done: Seq<WriteOp> = Seq::empty();
        let mut cur = tree.first_child(id);
        proof {
            if tree.no_child_between(id.spec_index(), -1, tree.len() as int) {
                if let Some(c) = cur {
                    assert(!tree.is_child(c.spec_index() as int, id.spec_index()));
                }
            }
        }
        assert(done + rest_ops(*tree, cur) =~= children_ops(*tree, id.spec_index()));
        while cur.is_some()
            invariant
                self.wf(),
                self.version() == old(self).version(),
                self.depth() == old(self).depth(),
                tree.wf(),
                tree.has(id),
                cur matches Some(c) ==> tree.has(c) && c.spec_index() > id.spec_index(),
                tree.no_child_between(id.spec_index(), -1, tree.len() as int) ==> cur is None,
                op_run(ws, done),
                ws[0] == *old(self),
                ws.last() == *self,
                done + rest_ops(*tree, cur) == children_ops(*tree, id.spec_index()),
            decreases tree.len() - match cur {
                Some(c) => c.spec_index() as int,
                None => tree.len() as int,
            },
        {
            let c = cur.unwrap();
            let ghost ci = c.spec_index();
            match self.new_node(tree.name(c)) {
                Ok(_) => {},
                Err(e) => {
                    proof {
                        assert(!tree_writable(*tree)) by {
                            if tree_writable(*tree) {
                                assert(encode_utf8(tree.node(ci as int).name).len() <= 255);
                            }
                        }
                    }
                    return (Err(e), Ghost(ws));
                },
            }
            proof {
                lemma_op_run_push(ws, done, *self, WriteOp::Open(tree.node(ci as int).name));
                ws = ws.push(*self);
                done = done.push(WriteOp::Open(tree.node(ci as int).name));
            }
            let ghost done0 = done;
            let attrs = tree.attributes(c);
            let mut k: usize = 0;
            while k < attrs.len()
                invariant
                    self.wf(),
                    self.version() == old(self).version(),
                    self.depth() == old(self).depth() + 1,
                    self.can_append(),
                    self.current_attr_count() == k,
                    self.wide() == old(self).wide(),
                    !tree.no_child_between(id.spec_index(), -1, tree.len() as int),
                    k <= attrs@.len(),
                    attrs@.map_values(|a: AttributeValue| a@) == tree.node(ci as int).attributes,
                    1 <= ci < tree.len(),
                    op_run(ws, done),
                    ws[0] == *old(self),
                    ws.last() == *self,
                    done == done0 + tree.node(ci as int).attributes.subrange(0, k as int).map_values(
                        |v: AttrV| WriteOp::Attr(v),
                    ),
                decreases attrs@.len() - k,
            {
                match self.append_attribute(&attrs[k], ArrayAttributeEncoding::Direct) {
                    Ok(_) => {},
                    Err(e) => {
                        proof {
                            assert(!tree_writable(*tree)) by {
                                if tree_writable(*tree) {
                                    assert(attrs@[k as int]@ == tree.node(ci as int).attributes[k as int]);
                                    assert(encode_utf8(tree.node(ci as int).name).len() <= 255);
                                    assert(attr_fits(tree.node(ci as int).attributes[k as int], ArrayAttributeEncoding::Direct));
                                    assert(tree.node(ci as int).attributes.len() < u64::MAX);
                                }
                            }
                        }
                        return (Err(e), Ghost(ws));
                    },
                }
                proof {
                    let v = tree.node(ci as int).attributes[k as int];
                    assert(attrs@[k as int]@ == v);
                    lemma_op_run_push(ws, done, *self, WriteOp::Attr(v));
                    ws = ws.push(*self);
                    done = done.push(WriteOp::Attr(v));
                    assert(done =~= done0 + tree.node(ci as int).attributes.subrange(0, k + 1).map_values(
                        |v: AttrV| WriteOp::Attr(v),
                    ));
                }
                k = k + 1;
            }
            proof {
                assert(tree.node(ci as int).attributes.subrange(0, k as int) =~= tree.node(ci as int).attributes);
            }
            let (rc, Ghost(ws2)) = self.write_children(tree, c);
            match rc {
                Ok(_) => {},
                Err(e) => return (Err(e), Ghost(ws)),
            }
            proof {
                lemma_op_run_append(ws, done, ws2, children_ops(*tree, ci));
                ws = ws + ws2.drop_first();
                done = done + children_ops(*tree, ci);
            }
            let ghost before_close = *self;
            match self.close_node() {
                Ok(_) => {},
                Err(e) => return (Err(e), Ghost(ws)),
            }
            proof {
                lemma_op_run_push(ws, done, *self, WriteOp::Close);
                ws = ws.push(*self);
                done = done.push(WriteOp::Close);
            }
            let next = tree.next_sibling(c);
            proof {
                if tree.node(ci as int).parent is None {
                    assert(next is None);
                }
                assert(chain_ops(*tree, ci) == node_ops(*tree, ci) + children_ops(*tree, ci) + seq![WriteOp::Close] + rest_ops(*tree, next));
                assert(done =~= done0.drop_last() + node_ops(*tree, ci) + children_ops(*tree, ci) + seq![WriteOp::Close]);
            }
            cur = next;
        }
        (Ok(()), Ghost(ws))
    }
}

} // verus!
