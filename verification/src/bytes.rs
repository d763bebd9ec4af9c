//! Big-endian integer encoding and byte-string helpers used by the class
//! file decoder and encoder.
use vstd::prelude::*;

verus! {

/// The unsigned 16-bit big-endian value stored at `s[p..p+2]`.
pub open spec fn be_u16(s: Seq<u8>, p: int) -> u16 {
    (s[p] as int * 256 + s[p + 1] as int) as u16
}

/// The unsigned 32-bit big-endian value stored at `s[p..p+4]`.
pub open spec fn be_u32(s: Seq<u8>, p: int) -> u32 {
    (be_u16(s, p) as int * 65536 + be_u16(s, p + 2) as int) as u32
}

/// The unsigned 64-bit big-endian value stored at `s[p..p+8]`.
pub open spec fn be_u64(s: Seq<u8>, p: int) -> u64 {
    (be_u32(s, p) as int * 4294967296 + be_u32(s, p + 4) as int) as u64
}

/// Big-endian encoding of a 16-bit value.
pub open spec fn u16_bytes(v: u16) -> Seq<u8> {
    seq![(v / 256) as u8, (v % 256) as u8]
}

/// Big-endian encoding of a 32-bit value.
pub open spec fn u32_bytes(v: u32) -> Seq<u8> {
    u16_bytes((v / 65536) as u16) + u16_bytes((v % 65536) as u16)
}

/// Big-endian encoding of a 64-bit value.
pub open spec fn u64_bytes(v: u64) -> Seq<u8> {
    u32_bytes((v / 4294967296) as u32) + u32_bytes((v % 4294967296) as u32)
}

/// Two's complement reading of a byte.
pub open spec fn i8_of(b: u8) -> i8 {
    if b < 128 { b as i8 } else { (b as int - 256) as i8 }
}

/// Two's complement byte of a signed 8-bit value.
pub open spec fn byte_of_i8(v: i8) -> u8 {
    if v >= 0 { v as u8 } else { (v as int + 256) as u8 }
}

/// Two's complement reading of a 16-bit value.
pub open spec fn i16_of(v: u16) -> i16 {
    if v < 32768 { v as i16 } else { (v as int - 65536) as i16 }
}

/// Two's complement bits of a signed 16-bit value.
pub open spec fn u16_of_i16(v: i16) -> u16 {
    if v >= 0 { v as u16 } else { (v as int + 65536) as u16 }
}

/// Two's complement reading of a 32-bit value.
pub open spec fn i32_of(v: u32) -> i32 {
    if v < 0x8000_0000 { v as i32 } else { (v as int - 0x1_0000_0000) as i32 }
}

/// Two's complement bits of a signed 32-bit value.
pub open spec fn u32_of_i32(v: i32) -> u32 {
    if v >= 0 { v as u32 } else { (v as int + 0x1_0000_0000) as u32 }
}

pub proof fn lemma_u16_roundtrip(s: Seq<u8>, p: int)
    requires
        0 <= p,
        p + 2 <= s.len(),
    ensures
        s.subrange(p, p + 2) == u16_bytes(be_u16(s, p)),
{
    assert(s.subrange(p, p + 2) =~= u16_bytes(be_u16(s, p)));
}

pub proof fn lemma_u16_bytes_read(v: u16)
    ensures
        u16_bytes(v).len() == 2,
        be_u16(u16_bytes(v), 0) == v,
{
}

pub proof fn lemma_u32_roundtrip(s: Seq<u8>, p: int)
    requires
        0 <= p,
        p + 4 <= s.len(),
    ensures
        s.subrange(p, p + 4) == u32_bytes(be_u32(s, p)),
{
    lemma_u16_roundtrip(s, p);
    lemma_u16_roundtrip(s, p + 2);
    lemma_div_mod_split(be_u16(s, p) as int, be_u16(s, p + 2) as int, 65536);
    assert(s.subrange(p, p + 4) =~= s.subrange(p, p + 2) + s.subrange(p + 2, p + 4));
}

pub proof fn lemma_u32_bytes_read(v: u32)
    ensures
        u32_bytes(v).len() == 4,
        be_u32(u32_bytes(v), 0) == v,
{
    lemma_u16_bytes_read((v / 65536) as u16);
    lemma_u16_bytes_read((v % 65536) as u16);
    let s = u32_bytes(v);
    assert(be_u16(s, 0) == (v / 65536) as u16);
    assert(be_u16(s, 2) == (v % 65536) as u16);
}

pub proof fn lemma_u64_roundtrip(s: Seq<u8>, p: int)
    requires
        0 <= p,
        p + 8 <= s.len(),
    ensures
        s.subrange(p, p + 8) == u64_bytes(be_u64(s, p)),
{
    lemma_u32_roundtrip(s, p);
    lemma_u32_roundtrip(s, p + 4);
    let hi = be_u32(s, p);
    let lo = be_u32(s, p + 4);
    let v = be_u64(s, p);
    assert(v as int == hi as int * 4294967296 + lo as int);
    lemma_div_mod_split(hi as int, lo as int, 4294967296);
    assert(s.subrange(p, p + 8) =~= s.subrange(p, p + 4) + s.subrange(p + 4, p + 8));
}

proof fn lemma_div_mod_split(hi: int, lo: int, m: int)
    requires
        0 <= lo < m,
        0 <= hi,
        0 < m,
    ensures
        (hi * m + lo) / m == hi,
        (hi * m + lo) % m == lo,
{
    vstd::arithmetic::div_mod::lemma_fundamental_div_mod_converse(hi * m + lo, m, hi, lo);
}

pub proof fn lemma_u64_bytes_read(v: u64)
    ensures
        u64_bytes(v).len() == 8,
        be_u64(u64_bytes(v), 0) == v,
{
    lemma_u32_bytes_read((v / 4294967296) as u32);
    lemma_u32_bytes_read((v % 4294967296) as u32);
    let s = u64_bytes(v);
    assert(s.subrange(0, 4) =~= u32_bytes((v / 4294967296) as u32));
    assert(s.subrange(4, 8) =~= u32_bytes((v % 4294967296) as u32));
    assert(be_u32(s, 0) == be_u32(s.subrange(0, 4), 0));
    assert(be_u32(s, 4) == be_u32(s.subrange(4, 8), 0));
}

pub proof fn lemma_i8_roundtrip(b: u8)
    ensures
        byte_of_i8(i8_of(b)) == b,
{
}

pub proof fn lemma_i16_roundtrip(v: u16)
    ensures
        u16_of_i16(i16_of(v)) == v,
{
}

pub proof fn lemma_i32_roundtrip(v: u32)
    ensures
        u32_of_i32(i32_of(v)) == v,
{
}

/// Reads a big-endian `u16` at `p`.
pub fn read_u16(data: &[u8], p: usize) -> (v: u16)
    requires
        p + 2 <= data@.len(),
    ensures
        v == be_u16(data@, p as int),
{
    (data[p] as u16) * 256 + (data[p + 1] as u16)
}

/// Reads a big-endian `u32` at `p`.
pub fn read_u32(data: &[u8], p: usize) -> (v: u32)
    requires
        p + 4 <= data@.len(),
    ensures
        v == be_u32(data@, p as int),
{
    let _n = data.len();
    let hi = read_u16(data, p);
    let lo = read_u16(data, p + 2);
    (hi as u32) * 65536 + (lo as u32)
}

/// Reads a big-endian `u64` at `p`.
pub fn read_u64(data: &[u8], p: usize) -> (v: u64)
    requires
        p + 8 <= data@.len(),
    ensures
        v == be_u64(data@, p as int),
{
    let _n = data.len();
    let hi = read_u32(data, p);
    let lo = read_u32(data, p + 4);
    (hi as u64) * 4294967296 + (lo as u64)
}

/// Appends the big-endian encoding of `v`.
pub fn push_u16(out: &mut Vec<u8>, v: u16)
    ensures
        final(out)@ == old(out)@ + u16_bytes(v),
{
    out.push((v / 256) as u8);
    out.push((v % 256) as u8);
    assert(final(out)@ =~= old(out)@ + u16_bytes(v));
}

/// Appends the big-endian encoding of `v`.
pub fn push_u32(out: &mut Vec<u8>, v: u32)
    ensures
        final(out)@ == old(out)@ + u32_bytes(v),
{
    push_u16(out, (v / 65536) as u16);
    push_u16(out, (v % 65536) as u16);
    assert(final(out)@ =~= old(out)@ + u32_bytes(v));
}

/// Appends the big-endian encoding of `v`.
pub fn push_u64(out: &mut Vec<u8>, v: u64)
    ensures
        final(out)@ == old(out)@ + u64_bytes(v),
{
    push_u32(out, (v / 4294967296) as u32);
    push_u32(out, (v % 4294967296) as u32);
    assert(final(out)@ =~= old(out)@ + u64_bytes(v));
}

/// Appends all of `bytes`.
pub fn push_all(out: &mut Vec<u8>, bytes: &[u8])
    ensures
        final(out)@ == old(out)@ + bytes@,
{
    let mut i: usize = 0;
    while i < bytes.len()
        invariant
            i <= bytes@.len(),
            out@ == old(out)@ + bytes@.subrange(0, i as int),
        decreases bytes@.len() - i,
    {
        out.push(bytes[i]);
        i += 1;
        assert(out@ =~= old(out)@ + bytes@.subrange(0, i as int));
    }
    assert(bytes@.subrange(0, i as int) =~= bytes@);
}

/// Copies `data[start..end]` into a fresh vector.
pub fn copy_range(data: &[u8], start: usize, end: usize) -> (r: Vec<u8>)
    requires
        start <= end <= data@.len(),
    ensures
        r@ == data@.subrange(start as int, end as int),
{
    let mut r: Vec<u8> = Vec::new();
    let mut i: usize = start;
    while i < end
        invariant
            start <= i <= end <= data@.len(),
            r@ == data@.subrange(start as int, i as int),
        decreases end - i,
    {
        r.push(data[i]);
        i += 1;
        assert(r@ =~= data@.subrange(start as int, i as int));
    }
    r
}

/// Whether `s` begins with `prefix`.
pub open spec fn has_prefix(s: Seq<u8>, prefix: Seq<u8>) -> bool {
    prefix.len() <= s.len() && s.subrange(0, prefix.len() as int) == prefix
}

/// Whether `s` ends with `suffix`.
pub open spec fn has_suffix(s: Seq<u8>, suffix: Seq<u8>) -> bool {
    suffix.len() <= s.len() && s.subrange(s.len() - suffix.len(), s.len() as int) == suffix
}

/// Whether `needle` occurs in `s` starting at `i`.
pub open spec fn occurs_at(s: Seq<u8>, needle: Seq<u8>, i: int) -> bool {
    0 <= i && i + needle.len() <= s.len() && s.subrange(i, i + needle.len()) == needle
}

/// Whether `needle` occurs somewhere in `s` as a contiguous run.
pub open spec fn has_infix(s: Seq<u8>, needle: Seq<u8>) -> bool {
    exists|i: int| occurs_at(s, needle, i)
}

/// Whether `a[i..i+b.len()]` equals `b`.
fn matches_at(a: &[u8], i: usize, b: &[u8]) -> (r: bool)
    requires
        i + b@.len() <= a@.len(),
    ensures
        r == (a@.subrange(i as int, i + b@.len()) == b@),
{
    let _n = a.len();
    let mut k: usize = 0;
    while k < b.len()
        invariant
            k <= b@.len(),
            i + b@.len() <= a@.len(),
            a@.len() <= usize::MAX,
            forall|j: int| 0 <= j < k ==> a@[i + j] == b@[j],
        decreases b@.len() - k,
    {
        if a[i + k] != b[k] {
            assert(a@.subrange(i as int, i + b@.len())[k as int] != b@[k as int]);
            return false;
        }
        k += 1;
    }
    assert(a@.subrange(i as int, i + b@.len()) =~= b@);
    true
}

/// Byte-wise equality of two byte strings.
pub fn bytes_eq(a: &[u8], b: &[u8]) -> (r: bool)
    ensures
        r == (a@ == b@),
{
    if a.len() != b.len() {
        return false;
    }
    let r = matches_at(a, 0, b);
    assert(a@.subrange(0, b@.len() as int) =~= a@);
    r
}

/// Whether `s` begins with `prefix`.
pub fn starts_with(s: &[u8], prefix: &[u8]) -> (r: bool)
    ensures
        r == has_prefix(s@, prefix@),
{
    if prefix.len() > s.len() {
        return false;
    }
    matches_at(s, 0, prefix)
}

/// Whether `s` ends with `suffix`.
pub fn ends_with(s: &[u8], suffix: &[u8]) -> (r: bool)
    ensures
        r == has_suffix(s@, suffix@),
{
    if suffix.len() > s.len() {
        return false;
    }
    matches_at(s, s.len() - suffix.len(), suffix)
}

/// Whether `needle` occurs in `s`.
pub fn contains(s: &[u8], needle: &[u8]) -> (r: bool)
    ensures
        r == has_infix(s@, needle@),
{
    if needle.len() > s.len() {
        assert forall|i: int| !occurs_at(s@, needle@, i) by {}
        return false;
    }
    let last = s.len() - needle.len();
    let mut i: usize = 0;
    while i < last
        invariant
            needle@.len() <= s@.len(),
            last == s@.len() - needle@.len(),
            i <= last,
            forall|j: int| 0 <= j < i ==> !occurs_at(s@, needle@, j),
        decreases last - i,
    {
        if matches_at(s, i, needle) {
            assert(occurs_at(s@, needle@, i as int));
            return true;
        }
        i += 1;
    }
    if matches_at(s, last, needle) {
        assert(occurs_at(s@, needle@, last as int));
        return true;
    }
    assert forall|j: int| !occurs_at(s@, needle@, j) by {
        if 0 <= j < i {
        }
    }

    false
}

} // verus!
