//! Little-endian integer encodings on byte sequences.
use vstd::prelude::*;

verus! {

/// The unsigned value of the two bytes of `b` that start at `i`.
pub open spec fn le_u16(b: Seq<u8>, i: int) -> nat {
    b[i] as nat + 256 * (b[i + 1] as nat)
}

/// The unsigned value of the four bytes of `b` that start at `i`.
pub open spec fn le_u32(b: Seq<u8>, i: int) -> nat {
    le_u16(b, i) + 65536 * le_u16(b, i + 2)
}

/// The unsigned value of the eight bytes of `b` that start at `i`.
pub open spec fn le_u64(b: Seq<u8>, i: int) -> nat {
    le_u32(b, i) + 4294967296 * le_u32(b, i + 4)
}

/// The two little-endian bytes of `v`.
pub open spec fn u16_bytes(v: nat) -> Seq<u8> {
    seq![(v % 256) as u8, ((v / 256) % 256) as u8]
}

/// The four little-endian bytes of `v`.
pub open spec fn u32_bytes(v: nat) -> Seq<u8> {
    u16_bytes(v % 65536) + u16_bytes(v / 65536)
}

/// The eight little-endian bytes of `v`.
pub open spec fn u64_bytes(v: nat) -> Seq<u8> {
    u32_bytes(v % 4294967296) + u32_bytes(v / 4294967296)
}

pub proof fn lemma_u16_bytes(v: nat)
    requires
        v < 65536,
    ensures
        u16_bytes(v).len() == 2,
        le_u16(u16_bytes(v), 0) == v,
{
    assert(v == (v % 256) + 256 * (v / 256)) by (nonlinear_arith);
    assert(v / 256 < 256) by (nonlinear_arith) requires v < 65536;
}

pub proof fn lemma_u32_bytes(v: nat)
    requires
        v < 4294967296,
    ensures
        u32_bytes(v).len() == 4,
        le_u32(u32_bytes(v), 0) == v,
{
    assert(v == (v % 65536) + 65536 * (v / 65536)) by (nonlinear_arith);
    assert(v / 65536 < 65536) by (nonlinear_arith) requires v < 4294967296;
    lemma_u16_bytes(v % 65536);
    lemma_u16_bytes(v / 65536);
    let b = u32_bytes(v);
    let lo = u16_bytes(v % 65536);
    let hi = u16_bytes(v / 65536);
    assert(b[2] == hi[0] && b[3] == hi[1]);
}

pub proof fn lemma_u64_bytes(v: nat)
    requires
        v < 18446744073709551616,
    ensures
        u64_bytes(v).len() == 8,
        le_u64(u64_bytes(v), 0) == v,
{
    assert(v == (v % 4294967296) + 4294967296 * (v / 4294967296)) by (nonlinear_arith);
    assert(v / 4294967296 < 4294967296) by (nonlinear_arith) requires v < 18446744073709551616;
    lemma_u32_bytes(v % 4294967296);
    lemma_u32_bytes(v / 4294967296);
    let b = u64_bytes(v);
    let hi = u32_bytes(v / 4294967296);
    assert(b[4] == hi[0] && b[5] == hi[1] && b[6] == hi[2] && b[7] == hi[3]);
}

/// The four bytes of `v`, between any prefix and suffix, read back as `v`.
pub proof fn lemma_u32_at(p: Seq<u8>, v: nat, s: Seq<u8>)
    requires
        v < 4294967296,
    ensures
        le_u32(p + u32_bytes(v) + s, p.len() as int) == v,
{
    lemma_u32_bytes(v);
    let t = p + u32_bytes(v) + s;
    let b = u32_bytes(v);
    let i = p.len() as int;
    assert(t[i] == b[0] && t[i + 1] == b[1] && t[i + 2] == b[2] && t[i + 3] == b[3]);
}

/// The eight bytes of `v`, between any prefix and suffix, read back as `v`.
pub proof fn lemma_u64_at(p: Seq<u8>, v: nat, s: Seq<u8>)
    requires
        v < 18446744073709551616,
    ensures
        le_u64(p + u64_bytes(v) + s, p.len() as int) == v,
{
    lemma_u64_bytes(v);
    let t = p + u64_bytes(v) + s;
    let b = u64_bytes(v);
    let i = p.len() as int;
    assert(t[i] == b[0] && t[i + 1] == b[1] && t[i + 2] == b[2] && t[i + 3] == b[3]);
    assert(t[i + 4] == b[4] && t[i + 5] == b[5] && t[i + 6] == b[6] && t[i + 7] == b[7]);
}

/// The two bytes of `v`, between any prefix and suffix, read back as `v`.
pub proof fn lemma_u16_at(p: Seq<u8>, v: nat, s: Seq<u8>)
    requires
        v < 65536,
    ensures
        le_u16(p + u16_bytes(v) + s, p.len() as int) == v,
{
    lemma_u16_bytes(v);
    let t = p + u16_bytes(v) + s;
    let b = u16_bytes(v);
    let i = p.len() as int;
    assert(t[i] == b[0] && t[i + 1] == b[1]);
}

/// Reads the little-endian `u16` at `i`.
pub fn get_u16(b: &[u8], i: usize) -> (r: u16)
    requires
        i + 2 <= b@.len(),
    ensures
        r as nat == le_u16(b@, i as int),
{
    b[i] as u16 + (b[i + 1] as u16) * 256
}

/// Reads the little-endian `u32` at `i`.
pub fn get_u32(b: &[u8], i: usize) -> (r: u32)
    requires
        i + 4 <= b@.len(),
    ensures
        r as nat == le_u32(b@, i as int),
{
    let _n = b.len();
    let lo = get_u16(b, i);
    let hi = get_u16(b, i + 2);
    lo as u32 + (hi as u32) * 65536
}

/// Reads the little-endian `u64` at `i`.
pub fn get_u64(b: &[u8], i: usize) -> (r: u64)
    requires
        i + 8 <= b@.len(),
    ensures
        r as nat == le_u64(b@, i as int),
{
    let _n = b.len();
    let lo = get_u32(b, i);
    let hi = get_u32(b, i + 4);
    lo as u64 + (hi as u64) * 4294967296
}

/// Appends the little-endian bytes of `v`.
pub fn put_u16(out: &mut Vec<u8>, v: u16)
    ensures
        final(out)@ == old(out)@ + u16_bytes(v as nat),
{
    out.push((v % 256) as u8);
    out.push(((v / 256) % 256) as u8);
    assert(final(out)@ =~= old(out)@ + u16_bytes(v as nat));
}

/// Appends the little-endian bytes of `v`.
pub fn put_u32(out: &mut Vec<u8>, v: u32)
    ensures
        final(out)@ == old(out)@ + u32_bytes(v as nat),
{
    put_u16(out, (v % 65536) as u16);
    put_u16(out, (v / 65536) as u16);
    assert(final(out)@ =~= old(out)@ + u32_bytes(v as nat));
}

/// Appends the little-endian bytes of `v`.
pub fn put_u64(out: &mut Vec<u8>, v: u64)
    ensures
        final(out)@ == old(out)@ + u64_bytes(v as nat),
{
    put_u32(out, (v % 4294967296) as u32);
    put_u32(out, (v / 4294967296) as u32);
    assert(final(out)@ =~= old(out)@ + u64_bytes(v as nat));
}

/// Whether two byte vectors are equal.
pub fn bytes_eq(a: &Vec<u8>, b: &Vec<u8>) -> (r: bool)
    ensures
        r == (a@ == b@),
{
    if a.len() != b.len() {
        return false;
    }
    let mut i: usize = 0;
    while i < a.len()
        invariant
            a@.len() == b@.len(),
            i <= a@.len(),
            forall|j: int| 0 <= j < i ==> a@[j] == b@[j],
        decreases a@.len() - i,
    {
        if a[i] != b[i] {
            return false;
        }
        i = i + 1;
    }
    assert(a@ =~= b@);
    true
}

} // verus!
