//! Laws that relate what the writer emits to what the parser reads.
use vstd::prelude::*;
use vstd::utf8::{encode_utf8, encode_utf8_decode_utf8, encode_utf8_valid_utf8};
use crate::attribute::{
    array_raw, array_value, bool_of, canonical_bool, has_noncanonical_bool, parse_array,
    parse_attr, parse_body, parse_single, parse_special, type_of_code, AttrParse, AttrV,
    AttributeType,
};
use crate::low::{encoding_of, ArrayAttributeEncoding, NodeHeader};
use crate::parser::{expected_padding, node_header_at, valid_footer};
use crate::wire::{
    lemma_u16_at, lemma_u16_bytes, lemma_u32_at, lemma_u32_bytes, lemma_u64_at, lemma_u64_bytes,
    le_u32, le_u64, u32_bytes, u64_bytes,
};
use crate::writer::{
    array_elems, attr_bytes, attr_fits, bool_byte, dwords_bytes, fits_narrow, header_bytes,
    scalar_bytes, words_bytes, zeros, FbxFooter, FbxFooterPaddingLength,
};
use crate::zlib::{deflate_of, inflate_of};

verus! {

/// The bytes of an array attribute after its type code: count, encoding,
/// payload length, payload.
pub open spec fn array_body(n: nat, enc: ArrayAttributeEncoding, payload: Seq<u8>) -> Seq<u8> {
    u32_bytes(n) + u32_bytes(enc.spec_to_u32() as nat) + u32_bytes(payload.len()) + payload
}

proof fn lemma_array_body_fields(n: nat, enc: ArrayAttributeEncoding, payload: Seq<u8>, s: Seq<u8>)
    requires
        n <= u32::MAX,
        payload.len() <= u32::MAX,
    ensures
        ({
            let b = array_body(n, enc, payload) + s;
            &&& b.len() == 12 + payload.len() + s.len()
            &&& le_u32(b, 0) == n
            &&& le_u32(b, 4) == enc.spec_to_u32()
            &&& le_u32(b, 8) == payload.len()
            &&& b.subrange(12, 12 + payload.len() as int) == payload
        }),
{
    let e = enc.spec_to_u32() as nat;
    let (x, y, z) = (u32_bytes(n), u32_bytes(e), u32_bytes(payload.len()));
    lemma_u32_bytes(n);
    lemma_u32_bytes(e);
    lemma_u32_bytes(payload.len());
    let b = array_body(n, enc, payload) + s;
    let empty = Seq::<u8>::empty();
    assert(b =~= empty + x + (y + z + payload + s));
    lemma_u32_at(empty, n, y + z + payload + s);
    assert(b =~= x + y + (z + payload + s));
    lemma_u32_at(x, e, z + payload + s);
    assert(b =~= (x + y) + z + (payload + s));
    lemma_u32_at(x + y, payload.len(), payload + s);
    assert(b.subrange(12, 12 + payload.len() as int) =~= payload);
}

/// An array decodes to the same elements whether its payload is stored
/// directly or as a zlib stream that decompresses to the same bytes.
pub proof fn lemma_direct_and_zlib_agree(
    t: AttributeType,
    n: nat,
    raw: Seq<u8>,
    z: Seq<u8>,
    s1: Seq<u8>,
    s2: Seq<u8>,
)
    requires
        t.is_array(),
        n <= u32::MAX,
        raw.len() <= u32::MAX,
        z.len() <= u32::MAX,
        inflate_of(z) == Some(raw),
    ensures
        parse_array(t, array_body(n, ArrayAttributeEncoding::Direct, raw) + s1) == match parse_array(
            t,
            array_body(n, ArrayAttributeEncoding::Zlib, z) + s2,
        ) {
            AttrParse::Done(v, _, bad) => AttrParse::Done(v, 12 + raw.len(), bad),
            p => p,
        },
{
    lemma_array_body_fields(n, ArrayAttributeEncoding::Direct, raw, s1);
    lemma_array_body_fields(n, ArrayAttributeEncoding::Zlib, z, s2);
}

/// A zlib array that decodes holds exactly `n` elements of its width once
/// decompressed.
pub proof fn lemma_zlib_length(t: AttributeType, b: Seq<u8>)
    requires
        t.is_array(),
        b.len() >= 12,
        encoding_of(le_u32(b, 4) as u32) == Some(ArrayAttributeEncoding::Zlib),
        parse_array(t, b) is Done,
    ensures
        ({
            let payload = b.subrange(12, 12 + le_u32(b, 8) as int);
            &&& inflate_of(payload) is Some
            &&& inflate_of(payload)->0.len() == le_u32(b, 0) * t.width()
        }),
{
}

/// A node header reads back as written, in either width.
pub proof fn lemma_node_header_round_trip(h: NodeHeader, wide: bool, s: Seq<u8>)
    requires
        wide || fits_narrow(h),
    ensures
        node_header_at(header_bytes(h, wide) + s, wide) == h,
{
    if wide {
        lemma_wide_header(h, s);
    } else {
        lemma_narrow_header(h, s);
    }
}

proof fn lemma_window_u64(a: Seq<u8>, i: int, c: Seq<u8>)
    requires
        c.len() == 8,
        0 <= i,
        i + 8 <= a.len(),
        a[i] == c[0] && a[i + 1] == c[1] && a[i + 2] == c[2] && a[i + 3] == c[3],
        a[i + 4] == c[4] && a[i + 5] == c[5] && a[i + 6] == c[6] && a[i + 7] == c[7],
    ensures
        le_u64(a, i) == le_u64(c, 0),
{
}

proof fn lemma_window_u32(a: Seq<u8>, i: int, c: Seq<u8>)
    requires
        c.len() == 4,
        0 <= i,
        i + 4 <= a.len(),
        a[i] == c[0] && a[i + 1] == c[1] && a[i + 2] == c[2] && a[i + 3] == c[3],
    ensures
        le_u32(a, i) == le_u32(c, 0),
{
}

proof fn lemma_wide_header(h: NodeHeader, s: Seq<u8>)
    ensures
        node_header_at(header_bytes(h, true) + s, true) == h,
{
    let (x, y, z) = (
        u64_bytes_of(h.end_offset),
        u64_bytes_of(h.num_attributes),
        u64_bytes_of(h.bytelen_attributes),
    );
    lemma_u64_bytes(h.end_offset as nat);
    lemma_u64_bytes(h.num_attributes as nat);
    lemma_u64_bytes(h.bytelen_attributes as nat);
    let b = header_bytes(h, true) + s;
    assert(b.len() == 25 + s.len());
    lemma_window_u64(b, 0, x);
    lemma_window_u64(b, 8, y);
    lemma_window_u64(b, 16, z);
}

proof fn lemma_narrow_header(h: NodeHeader, s: Seq<u8>)
    requires
        fits_narrow(h),
    ensures
        node_header_at(header_bytes(h, false) + s, false) == h,
{
    let (x, y, z) = (
        u32_bytes(h.end_offset as nat),
        u32_bytes(h.num_attributes as nat),
        u32_bytes(h.bytelen_attributes as nat),
    );
    lemma_u32_bytes(h.end_offset as nat);
    lemma_u32_bytes(h.num_attributes as nat);
    lemma_u32_bytes(h.bytelen_attributes as nat);
    let b = header_bytes(h, false) + s;
    assert(b.len() == 13 + s.len());
    lemma_window_u32(b, 0, x);
    lemma_window_u32(b, 4, y);
    lemma_window_u32(b, 8, z);
}

pub open spec fn u64_bytes_of(v: u64) -> Seq<u8> {
    crate::wire::u64_bytes(v as nat)
}

/// A footer written with zero `unknown2`, the official trailer and a
/// padding below 16 reads back as valid; with the default padding the
/// padding is the aligned one.
pub proof fn lemma_footer_round_trip(f: FbxFooter, pos: nat, version: u32, s: Seq<u8>)
    requires
        f.wf(),
        f.spec_unknown2() == zeros(4),
        f.spec_unknown3() == crate::low::unknown3_expected(),
        f.spec_padding(pos + 16) < 16,
    ensures
        valid_footer(f.spec_bytes(pos, version) + s, version, f.spec_padding(pos + 16)),
        f.padding_len == FbxFooterPaddingLength::Default ==> f.spec_padding(pos + 16)
            == expected_padding(pos + 16),
{
    let pl = f.spec_padding(pos + 16);
    let u1 = f.spec_unknown1();
    let b = f.spec_bytes(pos, version) + s;
    let head = u1 + zeros(pl) + zeros(4);
    let vb = u32_bytes(version as nat);
    lemma_u32_bytes(version as nat);
    assert(b =~= head + vb + (zeros(120) + crate::low::unknown3_expected() + s));
    lemma_u32_at(head, version as nat, zeros(120) + crate::low::unknown3_expected() + s);
    assert(head.len() == 20 + pl);
    assert forall|k: int| 16 <= k < 20 + pl implies b[k] == 0 by {
        assert(b[k] == head[k]);
        if k < 16 + pl {
            assert(head[k] == zeros(pl)[k - 16]);
        } else {
            assert(head[k] == zeros(4)[k - 16 - pl]);
        }
    }
    assert forall|k: int| 24 + pl <= k < 144 + pl implies b[k] == 0 by {
        assert(b[k] == zeros(120)[k - 24 - pl]);
    }
    assert(b.subrange(144 + pl as int, 160 + pl as int) =~= crate::low::unknown3_expected());
}

proof fn lemma_words_bytes(w: Seq<u32>)
    ensures
        words_bytes(w).len() == 4 * w.len(),
        forall|k: int| 0 <= k < w.len() ==> le_u32(words_bytes(w), 4 * k) == w[k] as nat,
    decreases w.len(),
{
    if w.len() > 0 {
        let init = w.drop_last();
        lemma_words_bytes(init);
        lemma_u32_bytes(w.last() as nat);
        let b = words_bytes(w);
        let pre = words_bytes(init);
        assert(b == pre + u32_bytes(w.last() as nat));
        assert forall|k: int| 0 <= k < w.len() implies le_u32(b, 4 * k) == w[k] as nat by {
            if k < w.len() - 1 {
                assert(b[4 * k] == pre[4 * k]);
                assert(b[4 * k + 1] == pre[4 * k + 1]);
                assert(b[4 * k + 2] == pre[4 * k + 2]);
                assert(b[4 * k + 3] == pre[4 * k + 3]);
                assert(w[k] == init[k]);
            } else {
                assert(b == pre + u32_bytes(w.last() as nat) + Seq::<u8>::empty());
                lemma_u32_at(pre, w.last() as nat, Seq::<u8>::empty());
            }
        }
    }
}

proof fn lemma_dwords_bytes(w: Seq<u64>)
    ensures
        dwords_bytes(w).len() == 8 * w.len(),
        forall|k: int| 0 <= k < w.len() ==> le_u64(dwords_bytes(w), 8 * k) == w[k] as nat,
    decreases w.len(),
{
    if w.len() > 0 {
        let init = w.drop_last();
        lemma_dwords_bytes(init);
        lemma_u64_bytes(w.last() as nat);
        let b = dwords_bytes(w);
        let pre = dwords_bytes(init);
        assert(b == pre + u64_bytes(w.last() as nat));
        assert forall|k: int| 0 <= k < w.len() implies le_u64(b, 8 * k) == w[k] as nat by {
            if k < w.len() - 1 {
                assert(b[8 * k] == pre[8 * k]);
                assert(b[8 * k + 1] == pre[8 * k + 1]);
                assert(b[8 * k + 2] == pre[8 * k + 2]);
                assert(b[8 * k + 3] == pre[8 * k + 3]);
                assert(b[8 * k + 4] == pre[8 * k + 4]);
                assert(b[8 * k + 5] == pre[8 * k + 5]);
                assert(b[8 * k + 6] == pre[8 * k + 6]);
                assert(b[8 * k + 7] == pre[8 * k + 7]);
                assert(w[k] == init[k]);
            } else {
                assert(b == pre + u64_bytes(w.last() as nat) + Seq::<u8>::empty());
                lemma_u64_at(pre, w.last() as nat, Seq::<u8>::empty());
            }
        }
    }
}

/// The raw element bytes of an array value decode back to it.
proof fn lemma_array_elems(v: AttrV)
    requires
        v.attr_type().is_array(),
    ensures
        array_elems(v).0.len() == array_elems(v).1 * v.attr_type().width(),
        array_value(v.attr_type(), array_elems(v).0) == v,
        v.attr_type() == AttributeType::ArrBool ==> !has_noncanonical_bool(array_elems(v).0),
{
    let (raw, n) = array_elems(v);
    match v {
        AttrV::ArrBool(s) => {
            assert forall|k: int| 0 <= k < raw.len() implies canonical_bool(#[trigger] raw[k]) by {}
            let d = Seq::new(raw.len(), |k: int| bool_of(raw[k]));
            assert forall|k: int| 0 <= k < s.len() implies d[k] == s[k] by {
                assert(raw[k] == bool_byte(s[k]));
            }
            assert(d =~= s);
        },
        AttrV::ArrI32(s) => {
            let w = s.map_values(|x: i32| x as u32);
            lemma_words_bytes(w);
            let d = Seq::new(raw.len() / 4, |k: int| le_u32(raw, 4 * k) as i32);
            assert forall|k: int| 0 <= k < s.len() implies d[k] == s[k] by {
                let x = s[k];
                assert(w[k] == x as u32);
                assert((x as u32) as i32 == x) by (bit_vector);
            }
            assert(d =~= s);
        },
        AttrV::ArrF32(s) => {
            lemma_words_bytes(s);
            let d = Seq::new(raw.len() / 4, |k: int| le_u32(raw, 4 * k) as u32);
            assert(d =~= s);
        },
        AttrV::ArrI64(s) => {
            let w = s.map_values(|x: i64| x as u64);
            lemma_dwords_bytes(w);
            let d = Seq::new(raw.len() / 8, |k: int| le_u64(raw, 8 * k) as i64);
            assert forall|k: int| 0 <= k < s.len() implies d[k] == s[k] by {
                let x = s[k];
                assert(w[k] == x as u64);
                assert((x as u64) as i64 == x) by (bit_vector);
            }
            assert(d =~= s);
        },
        AttrV::ArrF64(s) => {
            lemma_dwords_bytes(s);
            let d = Seq::new(raw.len() / 8, |k: int| le_u64(raw, 8 * k) as u64);
            assert(d =~= s);
        },
        _ => {},
    }
}

proof fn lemma_type_code(t: AttributeType)
    ensures
        type_of_code(t.spec_type_code()) == Some(t),
{
}

proof fn lemma_single_round_trip(v: AttrV, s: Seq<u8>)
    requires
        v.attr_type().is_single(),
    ensures
        parse_single(v.attr_type(), scalar_bytes(v) + s) == AttrParse::Done(
            v,
            scalar_bytes(v).len(),
            false,
        ),
{
    let b = scalar_bytes(v) + s;
    let e = Seq::<u8>::empty();
    match v {
        AttrV::Bool(x) => {},
        AttrV::I16(x) => {
            lemma_u16_bytes((x as u16) as nat);
            assert(b == e + scalar_bytes(v) + s);
            lemma_u16_at(e, (x as u16) as nat, s);
            assert((x as u16) as i16 == x) by (bit_vector);
        },
        AttrV::I32(x) => {
            lemma_u32_bytes((x as u32) as nat);
            assert(b == e + scalar_bytes(v) + s);
            lemma_u32_at(e, (x as u32) as nat, s);
            assert((x as u32) as i32 == x) by (bit_vector);
        },
        AttrV::I64(x) => {
            lemma_u64_bytes((x as u64) as nat);
            assert(b == e + scalar_bytes(v) + s);
            lemma_u64_at(e, (x as u64) as nat, s);
            assert((x as u64) as i64 == x) by (bit_vector);
        },
        AttrV::F32(x) => {
            lemma_u32_bytes(x as nat);
            assert(b == e + scalar_bytes(v) + s);
            lemma_u32_at(e, x as nat, s);
        },
        AttrV::F64(x) => {
            lemma_u64_bytes(x as nat);
            assert(b == e + scalar_bytes(v) + s);
            lemma_u64_at(e, x as nat, s);
        },
        _ => {},
    }
}

proof fn lemma_special_round_trip(v: AttrV, s: Seq<u8>)
    requires
        v.attr_type() == AttributeType::Binary || v.attr_type() == AttributeType::String,
        scalar_bytes(v).len() <= u32::MAX + 4,
    ensures
        parse_special(v.attr_type(), scalar_bytes(v) + s) == AttrParse::Done(
            v,
            scalar_bytes(v).len(),
            false,
        ),
{
    let p = match v {
        AttrV::Binary(p) => p,
        AttrV::String(c) => encode_utf8(c),
        _ => Seq::empty(),
    };
    lemma_u32_bytes(p.len());
    let b = scalar_bytes(v) + s;
    assert(b =~= Seq::<u8>::empty() + u32_bytes(p.len()) + (p + s));
    lemma_u32_at(Seq::<u8>::empty(), p.len(), p + s);
    assert(b.subrange(4, 4 + p.len() as int) =~= p);
    if let AttrV::String(c) = v {
        encode_utf8_valid_utf8(c);
        encode_utf8_decode_utf8(c);
    }
}

/// Every attribute whose lengths fit reads back as written, arrays stored
/// directly.
pub proof fn lemma_attribute_round_trip(v: AttrV, s: Seq<u8>)
    requires
        attr_fits(v, ArrayAttributeEncoding::Direct),
    ensures
        parse_attr(attr_bytes(v, ArrayAttributeEncoding::Direct) + s) == AttrParse::Done(
            v,
            attr_bytes(v, ArrayAttributeEncoding::Direct).len(),
            false,
        ),
{
    lemma_attribute_round_trip_with(v, ArrayAttributeEncoding::Direct, s);
}

/// An array attribute stored as a zlib stream reads back as written, where
/// the stream decompresses to the bytes that were compressed.
pub proof fn lemma_attribute_round_trip_zlib(v: AttrV, s: Seq<u8>)
    requires
        v.attr_type().is_array(),
        attr_fits(v, ArrayAttributeEncoding::Zlib),
        inflate_of(deflate_of(array_elems(v).0)) == Some(array_elems(v).0),
    ensures
        parse_attr(attr_bytes(v, ArrayAttributeEncoding::Zlib) + s) == AttrParse::Done(
            v,
            attr_bytes(v, ArrayAttributeEncoding::Zlib).len(),
            false,
        ),
{
    lemma_attribute_round_trip_with(v, ArrayAttributeEncoding::Zlib, s);
}

proof fn lemma_array_round_trip(v: AttrV, enc: ArrayAttributeEncoding, s: Seq<u8>)
    requires
        v.attr_type().is_array(),
        attr_fits(v, enc),
        enc == ArrayAttributeEncoding::Zlib ==> inflate_of(deflate_of(array_elems(v).0)) == Some(
            array_elems(v).0,
        ),
    ensures
        ({
            let (raw, n) = array_elems(v);
            let payload = match enc {
                ArrayAttributeEncoding::Direct => raw,
                ArrayAttributeEncoding::Zlib => deflate_of(raw),
            };
            parse_array(v.attr_type(), array_body(n, enc, payload) + s) == AttrParse::Done(
                v,
                12 + payload.len(),
                false,
            )
        }),
{
    let (raw, n) = array_elems(v);
    lemma_array_elems(v);
    let payload = match enc {
        ArrayAttributeEncoding::Direct => raw,
        ArrayAttributeEncoding::Zlib => deflate_of(raw),
    };
    lemma_array_body_fields(n, enc, payload, s);
    assert(array_raw(enc, payload) == Some(raw));
}

/// The attribute bytes split at the type code.
proof fn lemma_attr_bytes_split(v: AttrV, enc: ArrayAttributeEncoding, s: Seq<u8>)
    ensures
        ({
            let b = attr_bytes(v, enc) + s;
            &&& b.len() >= 1
            &&& b[0] == v.attr_type().spec_type_code()
            &&& attr_bytes(v, enc).len() == 1 + if v.attr_type().is_array() {
                let (raw, n) = array_elems(v);
                let payload = match enc {
                    ArrayAttributeEncoding::Direct => raw,
                    ArrayAttributeEncoding::Zlib => deflate_of(raw),
                };
                12 + payload.len()
            } else {
                scalar_bytes(v).len()
            }
            &&& b.subrange(1, b.len() as int) == if v.attr_type().is_array() {
                let (raw, n) = array_elems(v);
                let payload = match enc {
                    ArrayAttributeEncoding::Direct => raw,
                    ArrayAttributeEncoding::Zlib => deflate_of(raw),
                };
                array_body(n, enc, payload) + s
            } else {
                scalar_bytes(v) + s
            }
        }),
{
    reveal(attr_bytes);
    let b = attr_bytes(v, enc) + s;
    if v.attr_type().is_array() {
        let (raw, n) = array_elems(v);
        let payload = match enc {
            ArrayAttributeEncoding::Direct => raw,
            ArrayAttributeEncoding::Zlib => deflate_of(raw),
        };
        assert(b.subrange(1, b.len() as int) =~= array_body(n, enc, payload) + s);
    } else {
        assert(b.subrange(1, b.len() as int) =~= scalar_bytes(v) + s);
    }
}

/// Decoding an attribute is decoding its body after the type code.
proof fn lemma_parse_attr_code(b: Seq<u8>, t: AttributeType, r: AttrParse)
    requires
        b.len() >= 1,
        b[0] == t.spec_type_code(),
        parse_body(t, b.subrange(1, b.len() as int)) == r,
    ensures
        parse_attr(b) == match r {
            AttrParse::Done(v, len, bad) => AttrParse::Done(v, len + 1, bad),
            p => p,
        },
{
    reveal(parse_attr);
    lemma_type_code(t);
}

proof fn lemma_attribute_round_trip_with(v: AttrV, enc: ArrayAttributeEncoding, s: Seq<u8>)
    requires
        attr_fits(v, enc),
        enc == ArrayAttributeEncoding::Zlib ==> v.attr_type().is_array() && inflate_of(
            deflate_of(array_elems(v).0),
        ) == Some(array_elems(v).0),
    ensures
        parse_attr(attr_bytes(v, enc) + s) == AttrParse::Done(v, attr_bytes(v, enc).len(), false),
{
    let t = v.attr_type();
    let b = attr_bytes(v, enc) + s;
    lemma_attr_bytes_split(v, enc, s);
    let body = b.subrange(1, b.len() as int);
    if t.is_array() {
        lemma_array_round_trip(v, enc, s);
        let (raw, n) = array_elems(v);
        let payload = match enc {
            ArrayAttributeEncoding::Direct => raw,
            ArrayAttributeEncoding::Zlib => deflate_of(raw),
        };
        lemma_parse_attr_code(b, t, AttrParse::Done(v, 12 + payload.len(), false));
    } else if t.is_single() {
        lemma_single_round_trip(v, s);
        lemma_parse_attr_code(b, t, AttrParse::Done(v, scalar_bytes(v).len(), false));
    } else {
        lemma_special_round_trip(v, s);
        lemma_parse_attr_code(b, t, AttrParse::Done(v, scalar_bytes(v).len(), false));
    }
}

} // verus!
