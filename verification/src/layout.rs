//! What the bytes of a class file determine: the size of a constant pool
//! entry, an instruction or an attribute read from its leading bytes, and
//! the fact that an encoding is found again at exactly its own size. The
//! decoder's promise to read every well-formed class file rests on these.
use crate::bytes::{
    be_u16, be_u32, i32_of, lemma_u16_bytes_read, lemma_u32_bytes_read, u16_bytes, u32_bytes, u32_of_i32,
};
use crate::classfile::{
    cp_wf, encode_const, encode_consts, encode_cp, encode_i32s, encode_instr, encode_instrs, encode_pairs,
    encode_raw_attr, encode_raw_attrs, i32_bytes, instr_offset, instr_wf, positions_are_offsets, raw_attr_fits,
    RawAttr, code_fits, encode_code_body, Code,
    is_branch_op, is_cpref_op, is_local_op, is_simple_op, is_wide_entry, switch_pad, zeros, Const, Instr,
};
use vstd::prelude::*;

verus! {

/// A 16-bit value is read back from its encoding.
pub proof fn lemma_read_u16(s: Seq<u8>, p: int, v: u16)
    requires
        0 <= p,
        p + 2 <= s.len(),
        s.subrange(p, p + 2) == u16_bytes(v),
    ensures
        be_u16(s, p) == v,
{
    lemma_u16_bytes_read(v);
    assert(s[p] == s.subrange(p, p + 2)[0]);
    assert(s[p + 1] == s.subrange(p, p + 2)[1]);
}

/// A 32-bit value is read back from its encoding.
pub proof fn lemma_read_u32(s: Seq<u8>, p: int, v: u32)
    requires
        0 <= p,
        p + 4 <= s.len(),
        s.subrange(p, p + 4) == u32_bytes(v),
    ensures
        be_u32(s, p) == v,
{
    lemma_u32_bytes_read(v);
    let t = u32_bytes(v);
    assert(s[p] == t[0]);
    assert(s[p + 1] == t[1]);
    assert(s[p + 2] == t[2]);
    assert(s[p + 3] == t[3]);
    assert(be_u16(s, p) == be_u16(t, 0));
    assert(be_u16(s, p + 2) == be_u16(t, 2));
}

/// The size of the constant pool entry at `p`, as its tag (and, for a
/// UTF-8 entry, its length field) gives it, when the entry lies within `s`.
pub open spec fn entry_size(s: Seq<u8>, p: int) -> Option<int> {
    if p < 0 || p >= s.len() {
        None
    } else {
        let t = s[p];
        let n: int = if t == 1 {
            if p + 3 <= s.len() {
                3 + be_u16(s, p + 1)
            } else {
                0
            }
        } else if t == 3 || t == 4 {
            5
        } else if t == 5 || t == 6 {
            9
        } else if t == 7 || t == 8 || t == 16 || t == 19 || t == 20 {
            3
        } else if t == 9 || t == 10 || t == 11 || t == 12 || t == 17 || t == 18 {
            5
        } else if t == 15 {
            4
        } else {
            0
        };
        if n > 0 && p + n <= s.len() {
            Some(n)
        } else {
            None
        }
    }
}

/// Entry `c` is encoded in `s` at `p`: it is no `Null` slot and its UTF-8
/// bytes fit their length field.
pub open spec fn const_at(s: Seq<u8>, p: int, c: Const) -> bool {
    &&& !(c is Null)
    &&& (c matches Const::Utf8(b) ==> b@.len() <= 65535)
    &&& 0 <= p
    &&& p + encode_const(c).len() <= s.len()
    &&& s.subrange(p, p + encode_const(c).len()) == encode_const(c)
}

/// An entry encoded at `p` has the size its leading bytes give.
pub proof fn lemma_const_at(s: Seq<u8>, p: int, c: Const)
    requires
        const_at(s, p, c),
    ensures
        entry_size(s, p) == Some(encode_const(c).len() as int),
{
    let e = encode_const(c);
    let n = e.len() as int;
    assert(s[p] == s.subrange(p, p + n)[0]);
    match c {
        Const::Utf8(b) => {
            assert(s.subrange(p + 1, p + 3) =~= s.subrange(p, p + n).subrange(1, 3));
            assert(e.subrange(1, 3) =~= u16_bytes(b@.len() as u16));
            lemma_read_u16(s, p + 1, b@.len() as u16);
        },
        _ => {},
    }
}

/// Two entries encoded at the same place have the same encoding.
pub proof fn lemma_const_unique(s: Seq<u8>, p: int, a: Const, b: Const)
    requires
        const_at(s, p, a),
        const_at(s, p, b),
    ensures
        encode_const(a) == encode_const(b),
{
    lemma_const_at(s, p, a);
    lemma_const_at(s, p, b);
}

/// A wide entry is one whose tag says so.
pub proof fn lemma_wide_tag(c: Const)
    ensures
        is_wide_entry(c) <==> (encode_const(c).len() > 0 && (encode_const(c)[0] == 5 || encode_const(c)[0] == 6)),
{
}

/// The constant pool `cp` is encoded in `s` at `p`.
pub open spec fn cp_at(s: Seq<u8>, p: int, cp: Seq<Const>) -> bool {
    &&& cp_wf(cp)
    &&& 0 <= p
    &&& p + encode_cp(cp).len() <= s.len()
    &&& s.subrange(p, p + encode_cp(cp).len()) == encode_cp(cp)
}

/// The encoding of the first `k + 1` entries extends that of the first
/// `k` by entry `k`, and begins the encoding of all entries.
pub proof fn lemma_consts_prefix(cs: Seq<Const>, k: int)
    requires
        0 <= k < cs.len(),
    ensures
        encode_consts(cs.subrange(0, k + 1)) == encode_consts(cs.subrange(0, k)) + encode_const(cs[k]),
        encode_consts(cs.subrange(0, k + 1)).len() <= encode_consts(cs).len(),
        encode_consts(cs).subrange(0, encode_consts(cs.subrange(0, k + 1)).len() as int) == encode_consts(
            cs.subrange(0, k + 1),
        ),
    decreases cs.len(),
{
    assert(cs.subrange(0, k + 1).drop_last() =~= cs.subrange(0, k));
    if k + 1 == cs.len() {
        assert(cs.subrange(0, k + 1) =~= cs);
    } else {
        let d = cs.drop_last();
        lemma_consts_prefix(d, k);
        assert(d.subrange(0, k + 1) =~= cs.subrange(0, k + 1));
        assert(d.subrange(0, k) =~= cs.subrange(0, k));
        let n = encode_consts(cs.subrange(0, k + 1)).len() as int;
        assert(encode_consts(cs) == encode_consts(d) + encode_const(cs.last()));
        assert(encode_consts(cs).subrange(0, n) =~= encode_consts(d).subrange(0, n));
    }
}

/// Where entry `k` of a pool encoded at `p` lies.
pub proof fn lemma_entry_in_pool(s: Seq<u8>, p: int, cp: Seq<Const>, k: int)
    requires
        cp_at(s, p, cp),
        0 <= k < cp.len(),
    ensures
        !(cp[k] is Null) ==> const_at(s, p + 2 + encode_consts(cp.subrange(0, k)).len(), cp[k]),
        encode_consts(cp.subrange(0, k + 1)) == encode_consts(cp.subrange(0, k)) + encode_const(cp[k]),
        encode_consts(cp.subrange(0, k + 1)).len() <= encode_consts(cp).len(),
{
    let e = encode_consts(cp);
    let el = e.len() as int;
    lemma_consts_prefix(cp, k);
    assert(s.subrange(p + 2, p + 2 + el) =~= encode_cp(cp).subrange(2, 2 + el));
    assert(encode_cp(cp).subrange(2, 2 + el) =~= e);
    let m = encode_consts(cp.subrange(0, k)).len() as int;
    let l = encode_const(cp[k]).len() as int;
    let f = encode_consts(cp.subrange(0, k + 1));
    assert(s.subrange(p + 2 + m, p + 2 + m + l) =~= e.subrange(m, m + l));
    assert(e.subrange(m, m + l) =~= f.subrange(m, m + l));
    assert(f.subrange(m, m + l) =~= encode_const(cp[k]));
    if cp[k] matches Const::Utf8(b) {
        assert(cp[k] matches Const::Utf8(b) ==> b@.len() <= 65535);
    }
}

/// Entries `0..k` of two pools encoded at the same place have the same
/// encodings.
proof fn lemma_cp_unique_upto(s: Seq<u8>, p: int, a: Seq<Const>, b: Seq<Const>, k: int)
    requires
        cp_at(s, p, a),
        cp_at(s, p, b),
        a.len() == b.len(),
        0 <= k <= a.len(),
    ensures
        forall|i: int| 0 <= i < k ==> encode_const(#[trigger] a[i]) == encode_const(b[i]),
        encode_consts(a.subrange(0, k)) == encode_consts(b.subrange(0, k)),
    decreases k,
{
    if k == 0 {
        assert(a.subrange(0, 0) =~= b.subrange(0, 0));
    } else {
        let j = k - 1;
        lemma_cp_unique_upto(s, p, a, b, j);
        lemma_entry_in_pool(s, p, a, j);
        lemma_entry_in_pool(s, p, b, j);
        if j == 0 {
            assert(a[0] is Null && b[0] is Null);
        } else {
            assert(a[j] is Null <==> is_wide_entry(a[j - 1]));
            assert(b[j] is Null <==> is_wide_entry(b[j - 1]));
            assert(encode_const(a[j - 1]) == encode_const(b[j - 1]));
            lemma_wide_tag(a[j - 1]);
            lemma_wide_tag(b[j - 1]);
            if !(a[j] is Null) {
                lemma_const_unique(s, p + 2 + encode_consts(a.subrange(0, j)).len(), a[j], b[j]);
            }
        }
    }
}

/// Two pools encoded at the same place have the same entries, up to
/// their encodings.
pub proof fn lemma_cp_unique(s: Seq<u8>, p: int, a: Seq<Const>, b: Seq<Const>)
    requires
        cp_at(s, p, a),
        cp_at(s, p, b),
    ensures
        a.len() == b.len(),
        forall|i: int| 0 <= i < a.len() ==> encode_const(#[trigger] a[i]) == encode_const(b[i]),
        encode_cp(a) == encode_cp(b),
{
    assert(s.subrange(p, p + 2) =~= encode_cp(a).subrange(0, 2));
    assert(s.subrange(p, p + 2) =~= encode_cp(b).subrange(0, 2));
    assert(encode_cp(a).subrange(0, 2) =~= u16_bytes(a.len() as u16));
    assert(encode_cp(b).subrange(0, 2) =~= u16_bytes(b.len() as u16));
    lemma_read_u16(s, p, a.len() as u16);
    lemma_read_u16(s, p, b.len() as u16);
    lemma_cp_unique_upto(s, p, a, b, a.len() as int);
    assert(a.subrange(0, a.len() as int) =~= a);
    assert(b.subrange(0, b.len() as int) =~= b);
}

/// A signed 32-bit value is read back from its encoding.
pub proof fn lemma_read_i32(s: Seq<u8>, p: int, v: i32)
    requires
        0 <= p,
        p + 4 <= s.len(),
        s.subrange(p, p + 4) == i32_bytes(v),
    ensures
        i32_of(be_u32(s, p)) == v,
{
    lemma_read_u32(s, p, u32_of_i32(v));
}

/// Bytes taken by the encoding of a run of `i32`s.
pub proof fn lemma_i32s_len(vs: Seq<i32>)
    ensures
        encode_i32s(vs).len() == 4 * vs.len(),
    decreases vs.len(),
{
    if vs.len() > 0 {
        lemma_i32s_len(vs.drop_last());
    }
}

/// Bytes taken by the encoding of a run of `i32` pairs.
pub proof fn lemma_pairs_len(vs: Seq<(i32, i32)>)
    ensures
        encode_pairs(vs).len() == 8 * vs.len(),
    decreases vs.len(),
{
    if vs.len() > 0 {
        lemma_pairs_len(vs.drop_last());
    }
}

/// Opcodes of one-byte instructions.
pub open spec fn one_byte_op(op: u8) -> bool {
    ||| 0x03 <= op <= 0x0f
    ||| 0x2a <= op <= 0x2d
    ||| is_simple_op(op)
}

/// Opcodes of instructions with one operand byte.
pub open spec fn two_byte_op(op: u8) -> bool {
    op == 0x10 || op == 0x12 || op == 0xbc || is_local_op(op)
}

/// Opcodes of instructions with two operand bytes.
pub open spec fn three_byte_op(op: u8) -> bool {
    ||| op == 0x84 || op == 0x11 || op == 0xa7 || is_branch_op(op)
    ||| op == 0x13 || op == 0x14 || op == 0xb6 || op == 0xb7 || op == 0xb3 || is_cpref_op(op)
}

/// Opcodes of instructions with four operand bytes.
pub open spec fn five_byte_op(op: u8) -> bool {
    op == 0xc8 || op == 0xc9 || op == 0xb9 || op == 0xba
}

/// Where the fixed part of a switch whose opcode sits at `p` begins.
pub open spec fn switch_start(p: int, off: int) -> int {
    p + 1 + switch_pad(off)
}

/// The padding after a switch opcode at `p` is zero.
pub open spec fn zero_padded(s: Seq<u8>, p: int, off: int) -> bool {
    forall|j: int| p + 1 <= j < switch_start(p, off) ==> #[trigger] s[j] == 0u8
}

/// Size of the `tableswitch` at `p` (0 when its header is not readable
/// before `limit` or its bounds are reversed).
pub open spec fn tableswitch_size(s: Seq<u8>, p: int, off: int, limit: int) -> int {
    let q = switch_start(p, off);
    if q + 12 <= limit && zero_padded(s, p, off) {
        let low = i32_of(be_u32(s, q + 4));
        let high = i32_of(be_u32(s, q + 8));
        if low <= high {
            q + 12 + 4 * (high - low + 1) - p
        } else {
            0
        }
    } else {
        0
    }
}

/// Size of the `lookupswitch` at `p` (0 when its header is not readable
/// before `limit` or its pair count is negative).
pub open spec fn lookupswitch_size(s: Seq<u8>, p: int, off: int, limit: int) -> int {
    let q = switch_start(p, off);
    if q + 8 <= limit && zero_padded(s, p, off) {
        let n = i32_of(be_u32(s, q + 4));
        if n >= 0 {
            q + 8 + 8 * n - p
        } else {
            0
        }
    } else {
        0
    }
}

/// The size of the instruction at `p` as its opcode (and, for `wide` and
/// the switches, the bytes after it) gives it, when it ends by `limit`;
/// `off` is its offset within the code.
pub open spec fn instr_size(s: Seq<u8>, p: int, off: int, limit: int) -> Option<int> {
    let op = s[p];
    let n: int = if one_byte_op(op) {
        1
    } else if two_byte_op(op) {
        2
    } else if three_byte_op(op) {
        3
    } else if op == 0xc5 {
        4
    } else if five_byte_op(op) {
        5
    } else if op == 0xc4 {
        if p + 2 <= limit {
            if s[p + 1] == 0x84 {
                6
            } else if is_local_op(s[p + 1]) {
                4
            } else {
                0
            }
        } else {
            0
        }
    } else if op == 0xaa {
        tableswitch_size(s, p, off, limit)
    } else if op == 0xab {
        lookupswitch_size(s, p, off, limit)
    } else {
        0
    };
    if 0 < n && p + n <= limit {
        Some(n)
    } else {
        None
    }
}

/// The size of a `tableswitch` or `lookupswitch` instruction.
pub proof fn lemma_switch_size(s: Seq<u8>, p: int, off: int, limit: int)
    requires
        0 <= p < s.len(),
        s[p] == 0xaa || s[p] == 0xab,
    ensures
        s[p] == 0xaa ==> instr_size(s, p, off, limit) == (if 0 < tableswitch_size(s, p, off, limit) && p
            + tableswitch_size(s, p, off, limit) <= limit {
            Some(tableswitch_size(s, p, off, limit))
        } else {
            None
        }),
        s[p] == 0xab ==> instr_size(s, p, off, limit) == (if 0 < lookupswitch_size(s, p, off, limit) && p
            + lookupswitch_size(s, p, off, limit) <= limit {
            Some(lookupswitch_size(s, p, off, limit))
        } else {
            None
        }),
{
}

/// Instruction `i`, placed at code offset `off`, is encoded in `s` at `p`
/// and ends by `limit`.
pub open spec fn instr_at(s: Seq<u8>, p: int, off: int, limit: int, i: Instr) -> bool {
    &&& instr_wf(i)
    &&& 0 <= p
    &&& p + encode_instr(i, off).len() <= limit <= s.len()
    &&& s.subrange(p, p + encode_instr(i, off).len()) == encode_instr(i, off)
}

/// An instruction encoded at `p` has the size its leading bytes give.
#[verifier::rlimit(40)]
pub proof fn lemma_instr_at(s: Seq<u8>, p: int, off: int, limit: int, i: Instr)
    requires
        instr_at(s, p, off, limit, i),
        0 <= off,
    ensures
        instr_size(s, p, off, limit) == Some(encode_instr(i, off).len() as int),
{
    let e = encode_instr(i, off);
    let n = e.len() as int;
    assert(s[p] == s.subrange(p, p + n)[0]);
    match i {
        Instr::WideLocal(op, ix) => {
            assert(s[p + 1] == s.subrange(p, p + n)[1]);
        },
        Instr::WideIinc(ix, d) => {
            assert(s[p + 1] == s.subrange(p, p + n)[1]);
        },
        Instr::Tableswitch(def, low, high, offs) => {
            let q = switch_start(p, off);
            let pad = switch_pad(off);
            lemma_i32s_len(offs@);
            assert forall|j: int| p + 1 <= j < q implies #[trigger] s[j] == 0u8 by {
                assert(s[j] == s.subrange(p, p + n)[j - p]);
                assert(e[j - p] == zeros(pad)[j - p - 1]);
            }
            assert(s.subrange(q + 4, q + 8) =~= e.subrange(1 + pad + 4, 1 + pad + 8));
            assert(e.subrange(1 + pad + 4, 1 + pad + 8) =~= i32_bytes(low));
            assert(s.subrange(q + 8, q + 12) =~= e.subrange(1 + pad + 8, 1 + pad + 12));
            assert(e.subrange(1 + pad + 8, 1 + pad + 12) =~= i32_bytes(high));
            lemma_read_i32(s, q + 4, low);
            lemma_read_i32(s, q + 8, high);
        },
        Instr::Lookupswitch(def, pairs) => {
            let q = switch_start(p, off);
            let pad = switch_pad(off);
            lemma_pairs_len(pairs@);
            assert forall|j: int| p + 1 <= j < q implies #[trigger] s[j] == 0u8 by {
                assert(s[j] == s.subrange(p, p + n)[j - p]);
                assert(e[j - p] == zeros(pad)[j - p - 1]);
            }
            assert(s.subrange(q + 4, q + 8) =~= e.subrange(1 + pad + 4, 1 + pad + 8));
            assert(e.subrange(1 + pad + 4, 1 + pad + 8) =~= i32_bytes(pairs@.len() as i32));
            lemma_read_i32(s, q + 4, pairs@.len() as i32);
        },
        _ => {},
    }
}

/// Two instructions encoded at the same place have encodings of the same
/// size.
pub proof fn lemma_instr_unique(s: Seq<u8>, p: int, off: int, limit: int, a: Instr, b: Instr)
    requires
        instr_at(s, p, off, limit, a),
        instr_at(s, p, off, limit, b),
        0 <= off,
    ensures
        encode_instr(a, off) == encode_instr(b, off),
{
    lemma_instr_at(s, p, off, limit, a);
    lemma_instr_at(s, p, off, limit, b);
}

/// The bytecode `is` occupies the `len` bytes of `s` at `start`, each
/// instruction carrying its own offset.
pub open spec fn code_at(s: Seq<u8>, start: int, len: int, is: Seq<(u32, Instr)>) -> bool {
    &&& forall|k: int| 0 <= k < is.len() ==> instr_wf(#[trigger] is[k].1)
    &&& positions_are_offsets(is)
    &&& encode_instrs(is).len() == len
    &&& 0 <= start
    &&& start + len <= s.len()
    &&& s.subrange(start, start + len) == encode_instrs(is)
}

/// The encoding of the first `k + 1` instructions extends that of the first
/// `k` by instruction `k`, and begins the encoding of all of them.
pub proof fn lemma_instrs_prefix(is: Seq<(u32, Instr)>, k: int)
    requires
        0 <= k < is.len(),
    ensures
        encode_instrs(is.subrange(0, k + 1)) == encode_instrs(is.subrange(0, k)) + encode_instr(
            is[k].1,
            instr_offset(is, k),
        ),
        encode_instrs(is.subrange(0, k + 1)).len() <= encode_instrs(is).len(),
        encode_instrs(is).subrange(0, encode_instrs(is.subrange(0, k + 1)).len() as int) == encode_instrs(
            is.subrange(0, k + 1),
        ),
    decreases is.len(),
{
    assert(is.subrange(0, k + 1).drop_last() =~= is.subrange(0, k));
    if k + 1 == is.len() {
        assert(is.subrange(0, k + 1) =~= is);
    } else {
        let d = is.drop_last();
        lemma_instrs_prefix(d, k);
        assert(d.subrange(0, k + 1) =~= is.subrange(0, k + 1));
        assert(d.subrange(0, k) =~= is.subrange(0, k));
        let n = encode_instrs(is.subrange(0, k + 1)).len() as int;
        let prev = encode_instrs(d);
        assert(encode_instrs(is) == prev + encode_instr(is.last().1, prev.len() as int));
        assert(encode_instrs(is).subrange(0, n) =~= prev.subrange(0, n));
    }
}

/// Where instruction `k` of a bytecode at `start` lies.
pub proof fn lemma_instr_in_code(s: Seq<u8>, start: int, len: int, is: Seq<(u32, Instr)>, k: int)
    requires
        code_at(s, start, len, is),
        0 <= k < is.len(),
    ensures
        instr_at(s, start + instr_offset(is, k), instr_offset(is, k), start + len, is[k].1),
        instr_offset(is, k + 1) == instr_offset(is, k) + encode_instr(is[k].1, instr_offset(is, k)).len(),
        instr_offset(is, k + 1) <= len,
        is[k].0 == instr_offset(is, k),
{
    lemma_instrs_prefix(is, k);
    let e = encode_instrs(is);
    let m = instr_offset(is, k);
    let l = encode_instr(is[k].1, m).len() as int;
    let f = encode_instrs(is.subrange(0, k + 1));
    assert(s.subrange(start + m, start + m + l) =~= e.subrange(m, m + l));
    assert(e.subrange(m, m + l) =~= f.subrange(m, m + l));
    assert(f.subrange(m, m + l) =~= encode_instr(is[k].1, m));
    assert(instr_wf(is[k].1));
}

/// Bytecode ends after its last instruction.
pub proof fn lemma_code_end(is: Seq<(u32, Instr)>)
    ensures
        instr_offset(is, is.len() as int) == encode_instrs(is).len(),
{
    assert(is.subrange(0, is.len() as int) =~= is);
}

/// Where a run of `n` attributes starting at `p` ends (each attribute a
/// two-byte name, a four-byte length and that many bytes), when every one
/// of them ends by `limit`.
pub open spec fn attrs_end(s: Seq<u8>, p: int, n: int, limit: int) -> Option<int>
    decreases n,
{
    if n <= 0 {
        Some(p)
    } else {
        match attrs_end(s, p, n - 1, limit) {
            Some(q) => if q + 6 <= limit && q + 6 + be_u32(s, q + 2) <= limit {
                Some(q + 6 + be_u32(s, q + 2))
            } else {
                None
            },
            None => None,
        }
    }
}

/// One more attribute after a run reads as a run of one from where the run
/// ends.
pub proof fn lemma_attrs_end_step(s: Seq<u8>, p0: int, k: int, p: int, limit: int)
    requires
        0 <= k,
        attrs_end(s, p0, k, limit) == Some(p),
    ensures
        attrs_end(s, p0, k + 1, limit) == attrs_end(s, p, 1, limit),
{
    reveal_with_fuel(attrs_end, 2);
}

/// A run of attributes that does not end by `limit` does not when longer.
pub proof fn lemma_attrs_end_none(s: Seq<u8>, p: int, n: int, m: int, limit: int)
    requires
        n <= m,
        attrs_end(s, p, n, limit) is None,
    ensures
        attrs_end(s, p, m, limit) is None,
    decreases m - n,
{
    if n < m {
        lemma_attrs_end_none(s, p, n, m - 1, limit);
    }
}

/// A run of attributes ends no earlier than it starts.
pub proof fn lemma_attrs_end_ge(s: Seq<u8>, p: int, n: int, limit: int)
    ensures
        attrs_end(s, p, n, limit) matches Some(e) ==> p <= e <= (if n <= 0 { p } else { limit }),
    decreases n,
{
    if n > 0 {
        lemma_attrs_end_ge(s, p, n - 1, limit);
    }
}

/// Attribute `a` is encoded in `s` at `p` and ends by `limit`.
pub open spec fn raw_attrs_at(s: Seq<u8>, p: int, limit: int, attrs: Seq<RawAttr>) -> bool {
    &&& forall|k: int| 0 <= k < attrs.len() ==> raw_attr_fits(#[trigger] attrs[k])
    &&& 0 <= p
    &&& p + encode_raw_attrs(attrs).len() <= limit <= s.len()
    &&& s.subrange(p, p + encode_raw_attrs(attrs).len()) == encode_raw_attrs(attrs)
}

/// An encoded run of attributes ends where its encoding does.
pub proof fn lemma_raw_attrs_at(s: Seq<u8>, p: int, limit: int, attrs: Seq<RawAttr>)
    requires
        raw_attrs_at(s, p, limit, attrs),
    ensures
        attrs_end(s, p, attrs.len() as int, limit) == Some(p + encode_raw_attrs(attrs).len()),
    decreases attrs.len(),
{
    if attrs.len() > 0 {
        let d = attrs.drop_last();
        let a = attrs.last();
        let e = encode_raw_attrs(attrs);
        let ed = encode_raw_attrs(d);
        assert(e == ed + encode_raw_attr(a));
        assert(s.subrange(p, p + ed.len()) =~= e.subrange(0, ed.len() as int));
        assert(e.subrange(0, ed.len() as int) =~= ed);
        assert forall|k: int| 0 <= k < d.len() implies raw_attr_fits(#[trigger] d[k]) by {
            assert(d[k] == attrs[k]);
        }
        assert(raw_attr_fits(attrs[attrs.len() - 1]));
        lemma_raw_attrs_at(s, p, limit, d);
        let l = ed.len() as int;
        let q = p + l;
        assert(s.subrange(q + 2, q + 6) =~= e.subrange(l + 2, l + 6));
        assert(e.subrange(l + 2, l + 6) =~= u32_bytes(a.data@.len() as u32));
        lemma_read_u32(s, q + 2, a.data@.len() as u32);
    }
}

/// A run of attributes reads the same within a copy of the bytes it lies in.
pub proof fn lemma_attrs_end_shift(s: Seq<u8>, t: Seq<u8>, a: int, p: int, n: int, e: int)
    requires
        0 <= a,
        0 <= p,
        a + t.len() <= s.len(),
        s.subrange(a, a + t.len()) == t,
    ensures
        attrs_end(t, p, n, t.len() as int) == Some(e) ==> attrs_end(s, a + p, n, s.len() as int) == Some(a + e),
        attrs_end(s, a + p, n, s.len() as int) == Some(a + e) && e <= t.len() ==> attrs_end(t, p, n, t.len() as int)
            == Some(e),
    decreases n,
{
    if n > 0 {
        lemma_attrs_end_ge(t, p, n - 1, t.len() as int);
        lemma_attrs_end_ge(s, a + p, n - 1, s.len() as int);
        if attrs_end(t, p, n, t.len() as int) == Some(e) {
            let q = attrs_end(t, p, n - 1, t.len() as int)->0;
            lemma_attrs_end_shift(s, t, a, p, n - 1, q);
            assert(s[a + q + 2] == t[q + 2]);
            assert(s[a + q + 3] == t[q + 3]);
            assert(s[a + q + 4] == t[q + 4]);
            assert(s[a + q + 5] == t[q + 5]);
        }
        if attrs_end(s, a + p, n, s.len() as int) == Some(a + e) && e <= t.len() {
            let qq = attrs_end(s, a + p, n - 1, s.len() as int)->0;
            let q = qq - a;
            lemma_attrs_end_shift(s, t, a, p, n - 1, q);
            assert(s[a + q + 2] == t[q + 2]);
            assert(s[a + q + 3] == t[q + 3]);
            assert(s[a + q + 4] == t[q + 4]);
            assert(s[a + q + 5] == t[q + 5]);
        }
    }
}

/// Where a run of `n` fields starting at `p` ends (each field eight bytes
/// whose last two count its attributes, then those attributes), when every
/// part of it ends by `limit`.
pub open spec fn fields_end(s: Seq<u8>, p: int, n: int, limit: int) -> Option<int>
    decreases n,
{
    if n <= 0 {
        Some(p)
    } else {
        match fields_end(s, p, n - 1, limit) {
            Some(q) => if q + 8 <= limit {
                attrs_end(s, q + 8, be_u16(s, q + 6) as int, limit)
            } else {
                None
            },
            None => None,
        }
    }
}

/// Where the field table (a two-byte count, then the fields) starting at
/// `p` ends.
pub open spec fn field_table_end(s: Seq<u8>, p: int, limit: int) -> Option<int> {
    if 0 <= p && p + 2 <= limit {
        fields_end(s, p + 2, be_u16(s, p) as int, limit)
    } else {
        None
    }
}

/// The bytes are exactly one field table.
pub open spec fn field_table_ok(f: Seq<u8>) -> bool {
    field_table_end(f, 0, f.len() as int) == Some(f.len() as int)
}

/// A run of fields that does not end by `limit` does not when longer.
pub proof fn lemma_fields_end_none(s: Seq<u8>, p: int, n: int, m: int, limit: int)
    requires
        n <= m,
        fields_end(s, p, n, limit) is None,
    ensures
        fields_end(s, p, m, limit) is None,
    decreases m - n,
{
    if n < m {
        lemma_fields_end_none(s, p, n, m - 1, limit);
    }
}

/// A run of fields ends no earlier than it starts.
pub proof fn lemma_fields_end_ge(s: Seq<u8>, p: int, n: int, limit: int)
    ensures
        fields_end(s, p, n, limit) matches Some(e) ==> p <= e,
    decreases n,
{
    if n > 0 {
        lemma_fields_end_ge(s, p, n - 1, limit);
        if let Some(q) = fields_end(s, p, n - 1, limit) {
            lemma_attrs_end_ge(s, q + 8, be_u16(s, q + 6) as int, limit);
        }
    }
}

/// A run of fields reads the same within a copy of the bytes it lies in.
pub proof fn lemma_fields_end_shift(s: Seq<u8>, t: Seq<u8>, a: int, p: int, n: int, e: int)
    requires
        0 <= a,
        0 <= p,
        a + t.len() <= s.len(),
        s.subrange(a, a + t.len()) == t,
    ensures
        fields_end(t, p, n, t.len() as int) == Some(e) ==> fields_end(s, a + p, n, s.len() as int) == Some(a + e),
        fields_end(s, a + p, n, s.len() as int) == Some(a + e) && e <= t.len() ==> fields_end(t, p, n, t.len() as int)
            == Some(e),
    decreases n,
{
    if n > 0 {
        lemma_fields_end_ge(t, p, n - 1, t.len() as int);
        lemma_fields_end_ge(s, a + p, n - 1, s.len() as int);
        if fields_end(t, p, n, t.len() as int) == Some(e) {
            let q = fields_end(t, p, n - 1, t.len() as int)->0;
            lemma_fields_end_shift(s, t, a, p, n - 1, q);
            assert(s[a + q + 6] == t[q + 6]);
            assert(s[a + q + 7] == t[q + 7]);
            lemma_attrs_end_shift(s, t, a, q + 8, be_u16(t, q + 6) as int, e);
        }
        if fields_end(s, a + p, n, s.len() as int) == Some(a + e) && e <= t.len() {
            let qq = fields_end(s, a + p, n - 1, s.len() as int)->0;
            let q = qq - a;
            lemma_attrs_end_ge(s, qq + 8, be_u16(s, qq + 6) as int, s.len() as int);
            lemma_fields_end_shift(s, t, a, p, n - 1, q);
            assert(s[a + q + 6] == t[q + 6]);
            assert(s[a + q + 7] == t[q + 7]);
            lemma_attrs_end_shift(s, t, a, q + 8, be_u16(t, q + 6) as int, e);
        }
    }
}

/// A field table reads the same within a copy of the bytes it lies in.
pub proof fn lemma_field_table_shift(s: Seq<u8>, a: int, t: Seq<u8>)
    requires
        0 <= a,
        a + t.len() <= s.len(),
        s.subrange(a, a + t.len()) == t,
    ensures
        field_table_ok(t) ==> field_table_end(s, a, s.len() as int) == Some(a + t.len()),
        field_table_end(s, a, s.len() as int) == Some(a + t.len()) ==> field_table_ok(t),
{
    if t.len() >= 2 {
        assert(s[a] == t[0]);
        assert(s[a + 1] == t[1]);
        lemma_fields_end_shift(s, t, a, 2, be_u16(t, 0) as int, t.len() as int);
    }
    if field_table_end(s, a, s.len() as int) == Some(a + t.len()) {
        lemma_fields_end_ge(s, a + 2, be_u16(s, a) as int, s.len() as int);
    }
}

/// The exception table is a two-byte count and that many eight-byte
/// entries.
pub open spec fn exception_table_ok(t: Seq<u8>) -> bool {
    t.len() >= 2 && t.len() == 2 + 8 * be_u16(t, 0)
}

/// The body of a `Code` attribute `c` occupies exactly `s[pos..limit]`.
pub open spec fn code_body_at(s: Seq<u8>, pos: int, limit: int, c: Code) -> bool {
    &&& code_fits(c)
    &&& positions_are_offsets(c.bytecode@)
    &&& exception_table_ok(c.exception_table@)
    &&& 0 <= pos <= limit <= s.len()
    &&& s.subrange(pos, limit) == encode_code_body(c)
}

/// What the bytes of an encoded code body give: the code length, the
/// bytecode, the exception table's count and the attributes.
pub proof fn lemma_code_body_at(s: Seq<u8>, pos: int, limit: int, c: Code)
    requires
        code_body_at(s, pos, limit, c),
    ensures
        ({
            let cl = encode_instrs(c.bytecode@).len() as int;
            let p = pos + 8 + cl;
            let eend = p + c.exception_table@.len();
            &&& pos + 8 <= limit
            &&& be_u32(s, pos + 4) == cl
            &&& code_at(s, pos + 8, cl, c.bytecode@)
            &&& p + 2 <= eend
            &&& eend == p + 2 + 8 * be_u16(s, p)
            &&& eend + 2 <= limit
            &&& be_u16(s, eend) == c.attrs@.len()
            &&& attrs_end(s, eend + 2, c.attrs@.len() as int, limit) == Some(limit)
        }),
{
    let e = encode_code_body(c);
    let code = encode_instrs(c.bytecode@);
    let cl = code.len() as int;
    let et = c.exception_table@;
    let el = et.len() as int;
    let ra = encode_raw_attrs(c.attrs@);
    let p = pos + 8 + cl;
    let eend = p + el;
    assert(e.len() == 8 + cl + el + 2 + ra.len());
    assert(s.subrange(pos + 4, pos + 8) =~= e.subrange(4, 8));
    assert(e.subrange(4, 8) =~= u32_bytes(cl as u32));
    lemma_read_u32(s, pos + 4, cl as u32);
    assert(s.subrange(pos + 8, p) =~= e.subrange(8, 8 + cl));
    assert(e.subrange(8, 8 + cl) =~= code);
    assert(s.subrange(p, eend) =~= e.subrange(8 + cl, 8 + cl + el));
    assert(e.subrange(8 + cl, 8 + cl + el) =~= et);
    assert(s[p] == s.subrange(p, eend)[0]);
    assert(s[p + 1] == s.subrange(p, eend)[1]);
    assert(s.subrange(eend, eend + 2) =~= e.subrange(8 + cl + el, 8 + cl + el + 2));
    assert(e.subrange(8 + cl + el, 8 + cl + el + 2) =~= u16_bytes(c.attrs@.len() as u16));
    lemma_read_u16(s, eend, c.attrs@.len() as u16);
    assert(s.subrange(eend + 2, limit) =~= e.subrange(8 + cl + el + 2, e.len() as int));
    assert(e.subrange(8 + cl + el + 2, e.len() as int) =~= ra);
    lemma_raw_attrs_at(s, eend + 2, limit, c.attrs@);
}

} // verus!
