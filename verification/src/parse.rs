//! Decoding of class-file bytes into the model of `classfile`.
//!
//! Every decoder returns the value it read together with the position just
//! after it, and proves that the bytes it consumed are exactly the encoding
//! of that value; and it reads a value whenever one is encoded where it
//! looks (see `layout` for what the leading bytes of each part determine).
use crate::bytes::{
    be_u16, be_u32, be_u64, byte_of_i8, copy_range, i16_of, i32_of, i8_of, lemma_i16_roundtrip,
    lemma_i32_roundtrip, lemma_i8_roundtrip, lemma_u16_roundtrip, lemma_u32_roundtrip,
    lemma_u64_roundtrip, read_u16, read_u32, read_u64, u16_bytes, u16_of_i16, u32_bytes,
    u32_of_i32,
};
use crate::classfile::{
    class_fits, class_magic, code_fits, cp_wf, encode_class, encode_code_body, encode_const,
    encode_consts, encode_cp, encode_i32s, encode_instr, encode_instrs, encode_method,
    encode_method_attr, encode_method_attrs, encode_methods, encode_pairs, encode_raw_attr,
    encode_raw_attrs, encode_u16s, i16_bytes, i32_bytes, instr_offset, instr_wf, is_branch_op,
    is_cpref_op, is_local_op, is_simple_op, is_wide_entry, method_attr_fits, method_fits,
    positions_are_offsets, raw_attr_fits, switch_pad, tag_u16, tag_u16_u16, zeros, ClassFile, Code,
    Const, Instr, Method, MethodAttr, RawAttr,
};
use crate::layout::{
    attrs_end, code_at, code_body_at, const_at, cp_at, entry_size, exception_table_ok, field_table_end,
    field_table_ok, fields_end, instr_at, instr_size, lemma_attrs_end_none, lemma_attrs_end_step,
    lemma_code_body_at, lemma_code_end, lemma_const_at, lemma_const_unique, lemma_cp_unique,
    lemma_entry_in_pool, lemma_field_table_shift, lemma_fields_end_none, lemma_instr_at, lemma_instr_in_code,
    lemma_instr_unique, lemma_read_i32, lemma_read_u16, lemma_read_u32, lemma_switch_size, lemma_wide_tag,
    switch_start, zero_padded,
};
use vstd::prelude::*;

verus! {

/// `s[a..c]` splits at `b`.
pub proof fn lemma_split(s: Seq<u8>, a: int, b: int, c: int)
    requires
        0 <= a <= b <= c <= s.len(),
    ensures
        s.subrange(a, c) == s.subrange(a, b) + s.subrange(b, c),
{
    assert(s.subrange(a, c) =~= s.subrange(a, b) + s.subrange(b, c));
}

proof fn lemma_u16_at(s: Seq<u8>, p: int)
    requires
        0 <= p,
        p + 2 <= s.len(),
    ensures
        s.subrange(p, p + 2) == u16_bytes(be_u16(s, p)),
{
    lemma_u16_roundtrip(s, p);
}

proof fn lemma_byte_at(s: Seq<u8>, p: int)
    requires
        0 <= p < s.len(),
    ensures
        s.subrange(p, p + 1) == seq![s[p]],
{
    assert(s.subrange(p, p + 1) =~= seq![s[p]]);
}

fn parse_tag_u16(data: &[u8], pos: usize) -> (r: Option<(u16, usize)>)
    requires
        pos < data@.len(),
    ensures
        r matches Some((v, end)) ==> end == pos + 3 && end <= data@.len() && data@.subrange(
            pos as int,
            end as int,
        ) == tag_u16(data@[pos as int], v),
        r is Some <==> pos + 3 <= data@.len(),
{
    if data.len() - pos < 3 {
        return None;
    }
    let v = read_u16(data, pos + 1);
    proof {
        lemma_split(data@, pos as int, pos + 1, pos + 3);
        lemma_byte_at(data@, pos as int);
        lemma_u16_at(data@, pos + 1);
    }
    Some((v, pos + 3))
}

fn parse_tag_u16_u16(data: &[u8], pos: usize) -> (r: Option<(u16, u16, usize)>)
    requires
        pos < data@.len(),
    ensures
        r matches Some((a, b, end)) ==> end == pos + 5 && end <= data@.len() && data@.subrange(
            pos as int,
            end as int,
        ) == tag_u16_u16(data@[pos as int], a, b),
        r is Some <==> pos + 5 <= data@.len(),
{
    if data.len() - pos < 5 {
        return None;
    }
    let a = read_u16(data, pos + 1);
    let b = read_u16(data, pos + 3);
    proof {
        lemma_split(data@, pos as int, pos + 1, pos + 3);
        lemma_split(data@, pos as int, pos + 3, pos + 5);
        lemma_byte_at(data@, pos as int);
        lemma_u16_at(data@, pos + 1);
        lemma_u16_at(data@, pos + 3);
    }
    Some((a, b, pos + 5))
}

/// Decodes one constant pool entry at `pos`: an entry is read exactly
/// when one is encoded there.
pub fn parse_const(data: &[u8], pos: usize) -> (r: Option<(Const, usize)>)
    ensures
        r matches Some((c, end)) ==> {
            &&& pos < end <= data@.len()
            &&& data@.subrange(pos as int, end as int) == encode_const(c)
            &&& !(c is Null)
            &&& c matches Const::Utf8(b) ==> b@.len() <= 65535
        },
        r is Some <==> exists|c: Const| #[trigger] const_at(data@, pos as int, c),
{
    let r = read_const(data, pos);
    proof {
        if exists|c: Const| #[trigger] const_at(data@, pos as int, c) {
            let c = choose|c: Const| #[trigger] const_at(data@, pos as int, c);
            lemma_const_at(data@, pos as int, c);
        }
        if r is Some {
            assert(const_at(data@, pos as int, (r->0).0));
        }
    }
    r
}

fn read_const(data: &[u8], pos: usize) -> (r: Option<(Const, usize)>)
    ensures
        r matches Some((c, end)) ==> {
            &&& pos < end <= data@.len()
            &&& data@.subrange(pos as int, end as int) == encode_const(c)
            &&& !(c is Null)
            &&& c matches Const::Utf8(b) ==> b@.len() <= 65535
        },
        r is Some <==> entry_size(data@, pos as int) is Some,
{
    let _n = data.len();
    if pos >= data.len() {
        return None;
    }
    let tag = data[pos];
    match tag {
        1 => {
            if data.len() - pos < 3 {
                return None;
            }
            let len = read_u16(data, pos + 1) as usize;
            if len > data.len() - pos - 3 {
                return None;
            }
            let b = copy_range(data, pos + 3, pos + 3 + len);
            proof {
                lemma_split(data@, pos as int, pos + 1, pos + 3);
                lemma_split(data@, pos as int, pos + 3, pos + 3 + len);
                lemma_byte_at(data@, pos as int);
                lemma_u16_at(data@, pos + 1);
            }
            Some((Const::Utf8(b), pos + 3 + len))
        },
        3 | 4 => {
            if data.len() - pos < 5 {
                return None;
            }
            let v = read_u32(data, pos + 1);
            proof {
                lemma_split(data@, pos as int, pos + 1, pos + 5);
                lemma_byte_at(data@, pos as int);
                lemma_u32_roundtrip(data@, pos + 1);
            }
            if tag == 3 {
                Some((Const::Int(v), pos + 5))
            } else {
                Some((Const::Float(v), pos + 5))
            }
        },
        5 | 6 => {
            if data.len() - pos < 9 {
                return None;
            }
            let v = read_u64(data, pos + 1);
            proof {
                lemma_split(data@, pos as int, pos + 1, pos + 9);
                lemma_byte_at(data@, pos as int);
                lemma_u64_roundtrip(data@, pos + 1);
            }
            if tag == 5 {
                Some((Const::Long(v), pos + 9))
            } else {
                Some((Const::Double(v), pos + 9))
            }
        },
        7 | 8 | 16 | 19 | 20 => {
            let (v, end) = match parse_tag_u16(data, pos) {
                Some(x) => x,
                None => return None,
            };
            let c = if tag == 7 {
                Const::Class(v)
            } else if tag == 8 {
                Const::Str(v)
            } else if tag == 16 {
                Const::MethodType(v)
            } else if tag == 19 {
                Const::Module(v)
            } else {
                Const::Package(v)
            };
            Some((c, end))
        },
        9 | 10 | 11 | 12 | 17 | 18 => {
            let (a, b, end) = match parse_tag_u16_u16(data, pos) {
                Some(x) => x,
                None => return None,
            };
            let c = if tag == 9 {
                Const::Field(a, b)
            } else if tag == 10 {
                Const::Method(a, b)
            } else if tag == 11 {
                Const::InterfaceMethod(a, b)
            } else if tag == 12 {
                Const::NameAndType(a, b)
            } else if tag == 17 {
                Const::Dynamic(a, b)
            } else {
                Const::InvokeDynamic(a, b)
            };
            Some((c, end))
        },
        15 => {
            if data.len() - pos < 4 {
                return None;
            }
            let k = data[pos + 1];
            let v = read_u16(data, pos + 2);
            proof {
                lemma_split(data@, pos as int, pos + 2, pos + 4);
                assert(data@.subrange(pos as int, pos + 2) =~= seq![15u8, k]);
                lemma_u16_at(data@, pos + 2);
            }
            Some((Const::MethodHandle(k, v), pos + 4))
        },
        _ => None,
    }
}

/// Decodes a constant pool (count and entries) at `pos`: a pool is read
/// exactly when one is encoded there.
#[verifier::rlimit(60)]
#[verifier::spinoff_prover]
pub fn parse_cp(data: &[u8], pos: usize) -> (r: Option<(Vec<Const>, usize)>)
    ensures
        r matches Some((cp, end)) ==> {
            &&& pos < end <= data@.len()
            &&& data@.subrange(pos as int, end as int) == encode_cp(cp@)
            &&& cp_wf(cp@)
        },
        r is Some <==> exists|cp: Seq<Const>| #[trigger] cp_at(data@, pos as int, cp),
{
    let _n = data.len();
    let ghost has = exists|cp: Seq<Const>| #[trigger] cp_at(data@, pos as int, cp);
    let ghost t = choose|cp: Seq<Const>| #[trigger] cp_at(data@, pos as int, cp);
    if pos > data.len() || data.len() - pos < 2 {
        return None;
    }
    let count = read_u16(data, pos) as usize;
    proof {
        if has {
            assert(data@.subrange(pos as int, pos + 2) =~= encode_cp(t).subrange(0, 2));
            assert(encode_cp(t).subrange(0, 2) =~= u16_bytes(t.len() as u16));
            lemma_read_u16(data@, pos as int, t.len() as u16);
        }
    }
    if count < 1 {
        return None;
    }
    let mut cp: Vec<Const> = Vec::new();
    cp.push(Const::Null);
    let mut p = pos + 2;
    proof {
        assert(cp@.drop_last() =~= Seq::<Const>::empty());
        assert(encode_consts(Seq::<Const>::empty()) =~= Seq::<u8>::empty());
        assert(encode_consts(cp@) == encode_consts(cp@.drop_last()) + encode_const(Const::Null));
        assert(data@.subrange(pos + 2, p as int) =~= encode_consts(cp@));
        if has {
            lemma_entry_in_pool(data@, pos as int, t, 0);
            assert(t.subrange(0, 0) =~= Seq::<Const>::empty());
        }
    }
    while cp.len() < count
        invariant
            pos + 2 <= p <= data@.len(),
            1 <= cp@.len() <= count,
            count <= 65535,
            count == be_u16(data@, pos as int),
            cp@[0] is Null,
            !is_wide_entry(cp@.last()),
            forall|i: int| 1 <= i < cp@.len() ==> (#[trigger] cp@[i] is Null <==> is_wide_entry(cp@[i - 1])),
            forall|i: int| 0 <= i < cp@.len() ==> (#[trigger] cp@[i] matches Const::Utf8(b) ==> b@.len() <= 65535),
            data@.subrange(pos + 2, p as int) == encode_consts(cp@),
            has == exists|cp: Seq<Const>| #[trigger] cp_at(data@, pos as int, cp),
            has ==> cp_at(data@, pos as int, t),
            has ==> t.len() == count,
            has ==> p == pos + 2 + encode_consts(t.subrange(0, cp@.len() as int)).len(),
            has ==> forall|i: int| 0 <= i < cp@.len() ==> encode_const(#[trigger] cp@[i]) == encode_const(t[i]),
        decreases count - cp@.len(),
    {
        let ghost k = cp@.len() as int;
        proof {
            if has {
                lemma_entry_in_pool(data@, pos as int, t, k);
                assert(t[k] is Null <==> is_wide_entry(t[k - 1]));
                assert(encode_const(cp@[k - 1]) == encode_const(t[k - 1]));
                lemma_wide_tag(cp@[k - 1]);
                lemma_wide_tag(t[k - 1]);
                assert(const_at(data@, p as int, t[k]));
            }
        }
        let (c, end) = match parse_const(data, p) {
            Some(x) => x,
            None => return None,
        };
        proof {
            if has {
                assert(const_at(data@, p as int, c));
                lemma_const_unique(data@, p as int, c, t[k]);
                lemma_wide_tag(c);
                lemma_wide_tag(t[k]);
            }
        }
        let wide = matches!(c, Const::Long(_) | Const::Double(_));
        let ghost old_cp = cp@;
        if wide {
            if cp.len() + 2 > count {
                proof {
                    if has {
                        assert(!is_wide_entry(t.last()));
                    }
                }
                return None;
            }
            cp.push(c);
            cp.push(Const::Null);
            proof {
                assert(cp@.drop_last() =~= old_cp.push(c));
                assert(old_cp.push(c).drop_last() =~= old_cp);
                assert(encode_consts(old_cp.push(c)) == encode_consts(old_cp) + encode_const(c));
                assert(encode_consts(cp@) == encode_consts(old_cp.push(c)) + encode_const(Const::Null));
                assert(encode_consts(cp@) =~= encode_consts(old_cp) + encode_const(c));
                lemma_split(data@, pos + 2, p as int, end as int);
                if has {
                    assert(t[k + 1] is Null <==> is_wide_entry(t[k]));
                    lemma_entry_in_pool(data@, pos as int, t, k + 1);
                    assert forall|i: int| 0 <= i < cp@.len() implies encode_const(#[trigger] cp@[i]) == encode_const(
                        t[i],
                    ) by {
                        if i < k {
                            assert(cp@[i] == old_cp[i]);
                        }
                    }
                }
            }
        } else {
            cp.push(c);
            proof {
                assert(cp@.drop_last() =~= old_cp);
                lemma_split(data@, pos + 2, p as int, end as int);
                if has {
                    assert forall|i: int| 0 <= i < cp@.len() implies encode_const(#[trigger] cp@[i]) == encode_const(
                        t[i],
                    ) by {
                        if i < k {
                            assert(cp@[i] == old_cp[i]);
                        }
                    }
                }
            }
        }
        p = end;
    }
    proof {
        lemma_split(data@, pos as int, pos + 2, p as int);
        lemma_u16_at(data@, pos as int);
        assert(cp_at(data@, pos as int, cp@));
    }
    Some((cp, p))
}

fn read_i32(data: &[u8], p: usize) -> (v: i32)
    requires
        p + 4 <= data@.len(),
    ensures
        data@.subrange(p as int, p + 4) == i32_bytes(v),
{
    let u = read_u32(data, p);
    let v = if u < 0x8000_0000 {
        u as i32
    } else {
        (u as i64 - 0x1_0000_0000i64) as i32
    };
    proof {
        assert(v == i32_of(u));
        lemma_i32_roundtrip(u);
        lemma_u32_roundtrip(data@, p as int);
    }
    v
}

fn read_i16(data: &[u8], p: usize) -> (v: i16)
    requires
        p + 2 <= data@.len(),
    ensures
        data@.subrange(p as int, p + 2) == i16_bytes(v),
{
    let u = read_u16(data, p);
    let v = if u < 32768 {
        u as i16
    } else {
        (u as i32 - 65536i32) as i16
    };
    proof {
        assert(v == i16_of(u));
        lemma_i16_roundtrip(u);
        lemma_u16_roundtrip(data@, p as int);
    }
    v
}

fn read_i8(b: u8) -> (v: i8)
    ensures
        byte_of_i8(v) == b,
{
    let v = if b < 128 {
        b as i8
    } else {
        (b as i16 - 256i16) as i8
    };
    proof {
        assert(v == i8_of(b));
        lemma_i8_roundtrip(b);
    }
    v
}

/// Decodes a `tableswitch` whose opcode sits at `p`, `off` being the
/// opcode's offset within the code.
fn parse_tableswitch(data: &[u8], p: usize, off: usize, limit: usize) -> (r: Option<(Instr, usize)>)
    requires
        p < limit <= data@.len(),
        data@[p as int] == 0xaa,
        off <= p,
    ensures
        r matches Some((i, end)) ==> {
            &&& p < end <= limit
            &&& data@.subrange(p as int, end as int) == encode_instr(i, off as int)
            &&& instr_wf(i)
        },
        r is Some <==> instr_size(data@, p as int, off as int, limit as int) is Some,
        r matches Some((_, end)) ==> instr_size(data@, p as int, off as int, limit as int) == Some(end - p),
{
    proof {
        lemma_switch_size(data@, p as int, off as int, limit as int);
    }
    let pad = 3 - off % 4;
    if pad > limit - p - 1 || limit - p - 1 - pad < 12 {
        return None;
    }
    let q = p + 1 + pad;
    let mut k: usize = p + 1;
    while k < q
        invariant
            p + 1 <= k <= q <= limit <= data@.len(),
            data@[p as int] == 0xaa,
            q == switch_start(p as int, off as int),
            forall|j: int| p + 1 <= j < k ==> data@[j] == 0u8,
        decreases q - k,
    {
        if data[k] != 0 {
            proof {
                assert(data@[k as int] != 0u8);
                assert(k < switch_start(p as int, off as int));
                assert(!zero_padded(data@, p as int, off as int));
                lemma_switch_size(data@, p as int, off as int, limit as int);
            }
            return None;
        }
        k += 1;
    }
    assert(zero_padded(data@, p as int, off as int));
    let def = read_i32(data, q);
    let low = read_i32(data, q + 4);
    let high = read_i32(data, q + 8);
    proof {
        lemma_read_i32(data@, q + 4, low);
        lemma_read_i32(data@, q + 8, high);
    }
    if low > high {
        return None;
    }
    let cnt64 = ((high as i64) - (low as i64) + 1) as u64;
    let start = q + 12;
    if cnt64 > ((limit - start) / 4) as u64 {
        return None;
    }
    let cnt = cnt64 as usize;
    let mut offs: Vec<i32> = Vec::new();
    let mut c: usize = 0;
    let mut s = start;
    while c < cnt
        invariant
            start <= s <= limit <= data@.len(),
            s == start + 4 * c,
            c <= cnt,
            cnt <= (limit - start) / 4,
            offs@.len() == c,
            data@.subrange(start as int, s as int) == encode_i32s(offs@),
        decreases cnt - c,
    {
        let v = read_i32(data, s);
        let ghost old_offs = offs@;
        offs.push(v);
        proof {
            assert(offs@.drop_last() =~= old_offs);
            lemma_split(data@, start as int, s as int, s + 4);
        }
        s = s + 4;
        c += 1;
    }
    proof {
        assert(data@.subrange(p as int, p + 1) =~= seq![0xaau8]);
        assert(data@.subrange(p + 1, q as int) =~= zeros(switch_pad(off as int)));
        lemma_split(data@, p as int, p + 1, q as int);
        lemma_split(data@, p as int, q as int, q + 4);
        lemma_split(data@, p as int, q + 4, q + 8);
        lemma_split(data@, p as int, q + 8, q + 12);
        lemma_split(data@, p as int, q + 12, s as int);
        assert(offs@.len() == high - low + 1);
    }
    Some((Instr::Tableswitch(def, low, high, offs), s))
}

/// Decodes a `lookupswitch` whose opcode sits at `p`.
fn parse_lookupswitch(data: &[u8], p: usize, off: usize, limit: usize) -> (r: Option<(Instr, usize)>)
    requires
        p < limit <= data@.len(),
        data@[p as int] == 0xab,
        off <= p,
    ensures
        r matches Some((i, end)) ==> {
            &&& p < end <= limit
            &&& data@.subrange(p as int, end as int) == encode_instr(i, off as int)
            &&& instr_wf(i)
        },
        r is Some <==> instr_size(data@, p as int, off as int, limit as int) is Some,
        r matches Some((_, end)) ==> instr_size(data@, p as int, off as int, limit as int) == Some(end - p),
{
    proof {
        lemma_switch_size(data@, p as int, off as int, limit as int);
    }
    let pad = 3 - off % 4;
    if pad > limit - p - 1 || limit - p - 1 - pad < 8 {
        return None;
    }
    let q = p + 1 + pad;
    let mut k: usize = p + 1;
    while k < q
        invariant
            p + 1 <= k <= q <= limit <= data@.len(),
            data@[p as int] == 0xab,
            q == switch_start(p as int, off as int),
            forall|j: int| p + 1 <= j < k ==> data@[j] == 0u8,
        decreases q - k,
    {
        if data[k] != 0 {
            proof {
                assert(data@[k as int] != 0u8);
                assert(k < switch_start(p as int, off as int));
                assert(!zero_padded(data@, p as int, off as int));
                lemma_switch_size(data@, p as int, off as int, limit as int);
            }
            return None;
        }
        k += 1;
    }
    assert(zero_padded(data@, p as int, off as int));
    let def = read_i32(data, q);
    let npairs = read_i32(data, q + 4);
    proof {
        lemma_read_i32(data@, q + 4, npairs);
    }
    if npairs < 0 {
        return None;
    }
    let cnt = npairs as usize;
    let start = q + 8;
    if cnt > (limit - start) / 8 {
        return None;
    }
    let mut pairs: Vec<(i32, i32)> = Vec::new();
    let mut c: usize = 0;
    let mut s = start;
    while c < cnt
        invariant
            start <= s <= limit <= data@.len(),
            s == start + 8 * c,
            c <= cnt,
            cnt <= (limit - start) / 8,
            pairs@.len() == c,
            data@.subrange(start as int, s as int) == encode_pairs(pairs@),
        decreases cnt - c,
    {
        let key = read_i32(data, s);
        let d = read_i32(data, s + 4);
        let ghost old_pairs = pairs@;
        pairs.push((key, d));
        proof {
            assert(pairs@.drop_last() =~= old_pairs);
            lemma_split(data@, start as int, s as int, s + 4);
            lemma_split(data@, start as int, s + 4, s + 8);
        }
        s = s + 8;
        c += 1;
    }
    proof {
        assert(data@.subrange(p as int, p + 1) =~= seq![0xabu8]);
        assert(data@.subrange(p + 1, q as int) =~= zeros(switch_pad(off as int)));
        lemma_split(data@, p as int, p + 1, q as int);
        lemma_split(data@, p as int, q as int, q + 4);
        lemma_split(data@, p as int, q + 4, q + 8);
        lemma_split(data@, p as int, q + 8, s as int);
        assert(pairs@.len() as i32 == npairs);
    }
    Some((Instr::Lookupswitch(def, pairs), s))
}

/// Decodes the instruction at `p`; `off` is its offset within the code and
/// `limit` the end of the code. An instruction is read exactly when one
/// is encoded there.
pub fn parse_instr(data: &[u8], p: usize, off: usize, limit: usize) -> (r: Option<(Instr, usize)>)
    requires
        p < limit <= data@.len(),
        off <= p,
    ensures
        r matches Some((i, end)) ==> {
            &&& p < end <= limit
            &&& data@.subrange(p as int, end as int) == encode_instr(i, off as int)
            &&& instr_wf(i)
        },
        r is Some <==> exists|i: Instr| #[trigger] instr_at(data@, p as int, off as int, limit as int, i),
{
    let r = read_instr(data, p, off, limit);
    proof {
        if exists|i: Instr| #[trigger] instr_at(data@, p as int, off as int, limit as int, i) {
            let i = choose|i: Instr| #[trigger] instr_at(data@, p as int, off as int, limit as int, i);
            lemma_instr_at(data@, p as int, off as int, limit as int, i);
        }
        if r is Some {
            assert(instr_at(data@, p as int, off as int, limit as int, (r->0).0));
        }
    }
    r
}

#[verifier::rlimit(80)]
fn read_instr(data: &[u8], p: usize, off: usize, limit: usize) -> (r: Option<(Instr, usize)>)
    requires
        p < limit <= data@.len(),
        off <= p,
    ensures
        r matches Some((i, end)) ==> {
            &&& p < end <= limit
            &&& data@.subrange(p as int, end as int) == encode_instr(i, off as int)
            &&& instr_wf(i)
        },
        r is Some <==> instr_size(data@, p as int, off as int, limit as int) is Some,
        r matches Some((_, end)) ==> instr_size(data@, p as int, off as int, limit as int) == Some(end - p),
{
    let op = data[p];
    let avail = limit - p;
    proof {
        lemma_byte_at(data@, p as int);
    }
    if 0x03 <= op && op <= 0x08 {
        return Some((Instr::Iconst(op - 0x03), p + 1));
    }
    if op == 0x09 || op == 0x0a {
        return Some((Instr::Lconst(op - 0x09), p + 1));
    }
    if 0x0b <= op && op <= 0x0d {
        return Some((Instr::Fconst(op - 0x0b), p + 1));
    }
    if op == 0x0e || op == 0x0f {
        return Some((Instr::Dconst(op - 0x0e), p + 1));
    }
    if 0x2a <= op && op <= 0x2d {
        return Some((Instr::Aload(op - 0x2a), p + 1));
    }
    if op <= 0x02 || (0x1a <= op && op <= 0x29) || (0x2e <= op && op <= 0x35) || (0x3b <= op && op
        <= 0x83) || (0x85 <= op && op <= 0x98) || (0xac <= op && op <= 0xb1) || op == 0xbe || op == 0xbf
        || op == 0xc2 || op == 0xc3 {
        return Some((Instr::Simple(op), p + 1));
    }
    let is_local = (0x15 <= op && op <= 0x19) || (0x36 <= op && op <= 0x3a) || op == 0xa9;
    if op == 0x10 || op == 0x12 || op == 0xbc || is_local {
        if avail < 2 {
            return None;
        }
        let b = data[p + 1];
        proof {
            assert(data@.subrange(p as int, p + 2) =~= seq![op, b]);
        }
        if op == 0x10 {
            let v = read_i8(b);
            return Some((Instr::Bipush(v), p + 2));
        } else if op == 0x12 {
            return Some((Instr::Ldc(b), p + 2));
        } else if op == 0xbc {
            return Some((Instr::Newarray(b), p + 2));
        } else {
            return Some((Instr::Local(op, b), p + 2));
        }
    }
    if op == 0x84 {
        if avail < 3 {
            return None;
        }
        let ix = data[p + 1];
        let d = read_i8(data[p + 2]);
        proof {
            assert(data@.subrange(p as int, p + 3) =~= seq![0x84u8, ix, byte_of_i8(d)]);
        }
        return Some((Instr::Iinc(ix, d), p + 3));
    }
    let is_branch = (0x99 <= op && op <= 0xa6) || op == 0xa8 || op == 0xc6 || op == 0xc7;
    if op == 0x11 || op == 0xa7 || is_branch {
        if avail < 3 {
            return None;
        }
        let d = read_i16(data, p + 1);
        proof {
            lemma_split(data@, p as int, p + 1, p + 3);
        }
        if op == 0x11 {
            return Some((Instr::Sipush(d), p + 3));
        } else if op == 0xa7 {
            return Some((Instr::Goto(d), p + 3));
        } else {
            return Some((Instr::Branch(op, d), p + 3));
        }
    }
    let is_cpref = op == 0xb2 || op == 0xb4 || op == 0xb5 || op == 0xb8 || op == 0xbb || op == 0xbd
        || op == 0xc0 || op == 0xc1;
    if op == 0x13 || op == 0x14 || op == 0xb6 || op == 0xb7 || op == 0xb3 || is_cpref {
        if avail < 3 {
            return None;
        }
        let v = read_u16(data, p + 1);
        proof {
            lemma_split(data@, p as int, p + 1, p + 3);
            lemma_u16_at(data@, p + 1);
        }
        if op == 0x13 {
            return Some((Instr::LdcW(v), p + 3));
        } else if op == 0x14 {
            return Some((Instr::Ldc2W(v), p + 3));
        } else if op == 0xb6 {
            return Some((Instr::Invokevirtual(v), p + 3));
        } else if op == 0xb7 {
            return Some((Instr::Invokespecial(v), p + 3));
        } else if op == 0xb3 {
            return Some((Instr::Putstatic(v), p + 3));
        } else {
            return Some((Instr::CpRef(op, v), p + 3));
        }
    }
    if op == 0xc8 || op == 0xc9 {
        if avail < 5 {
            return None;
        }
        let d = read_i32(data, p + 1);
        proof {
            lemma_split(data@, p as int, p + 1, p + 5);
        }
        if op == 0xc8 {
            return Some((Instr::GotoW(d), p + 5));
        } else {
            return Some((Instr::JsrW(d), p + 5));
        }
    }
    if op == 0xb9 || op == 0xba {
        if avail < 5 {
            return None;
        }
        let v = read_u16(data, p + 1);
        proof {
            lemma_split(data@, p as int, p + 1, p + 3);
            lemma_split(data@, p as int, p + 3, p + 5);
            lemma_u16_at(data@, p + 1);
        }
        if op == 0xb9 {
            let n = data[p + 3];
            let z = data[p + 4];
            proof {
                assert(data@.subrange(p + 3, p + 5) =~= seq![n, z]);
            }
            return Some((Instr::InvokeInterface(v, n, z), p + 5));
        } else {
            let z = read_u16(data, p + 3);
            proof {
                lemma_u16_at(data@, p + 3);
            }
            return Some((Instr::InvokeDynamic(v, z), p + 5));
        }
    }
    if op == 0xc5 {
        if avail < 4 {
            return None;
        }
        let v = read_u16(data, p + 1);
        let d = data[p + 3];
        proof {
            lemma_split(data@, p as int, p + 1, p + 3);
            lemma_split(data@, p as int, p + 3, p + 4);
            lemma_u16_at(data@, p + 1);
            lemma_byte_at(data@, p + 3);
        }
        return Some((Instr::Multianewarray(v, d), p + 4));
    }
    if op == 0xc4 {
        if avail < 2 {
            return None;
        }
        let op2 = data[p + 1];
        if op2 == 0x84 {
            if avail < 6 {
                return None;
            }
            let ix = read_u16(data, p + 2);
            let d = read_i16(data, p + 4);
            proof {
                assert(data@.subrange(p as int, p + 2) =~= seq![0xc4u8, 0x84u8]);
                lemma_split(data@, p as int, p + 2, p + 4);
                lemma_split(data@, p as int, p + 4, p + 6);
                lemma_u16_at(data@, p + 2);
            }
            return Some((Instr::WideIinc(ix, d), p + 6));
        }
        let local2 = (0x15 <= op2 && op2 <= 0x19) || (0x36 <= op2 && op2 <= 0x3a) || op2 == 0xa9;
        if local2 {
            if avail < 4 {
                return None;
            }
            let ix = read_u16(data, p + 2);
            proof {
                assert(data@.subrange(p as int, p + 2) =~= seq![0xc4u8, op2]);
                lemma_split(data@, p as int, p + 2, p + 4);
                lemma_u16_at(data@, p + 2);
            }
            return Some((Instr::WideLocal(op2, ix), p + 4));
        }
        return None;
    }
    if op == 0xaa {
        return parse_tableswitch(data, p, off, limit);
    }
    if op == 0xab {
        return parse_lookupswitch(data, p, off, limit);
    }
    None
}

/// `instr_offset` of an appended instruction is the length of the encoding
/// before it.
proof fn lemma_offset_of_push(is: Seq<(u32, Instr)>, x: (u32, Instr))
    ensures
        instr_offset(is.push(x), is.len() as int) == encode_instrs(is).len(),
        forall|k: int| 0 <= k <= is.len() ==> #[trigger] instr_offset(is.push(x), k) == instr_offset(is, k),
{
    assert(is.push(x).subrange(0, is.len() as int) =~= is);
    assert forall|k: int| 0 <= k <= is.len() implies #[trigger] instr_offset(is.push(x), k)
        == instr_offset(is, k) by {
        assert(is.push(x).subrange(0, k) =~= is.subrange(0, k));
    }
}

/// Decodes `code_len` bytes of bytecode starting at `start`: the
/// instructions are read exactly when the bytes are the encoding of some.
#[verifier::rlimit(40)]
pub fn parse_bytecode(data: &[u8], start: usize, code_len: usize) -> (r: Option<Vec<(u32, Instr)>>)
    requires
        start + code_len <= data@.len(),
    ensures
        r matches Some(is) ==> {
            &&& data@.subrange(start as int, start + code_len) == encode_instrs(is@)
            &&& positions_are_offsets(is@)
            &&& forall|k: int| 0 <= k < is@.len() ==> instr_wf(#[trigger] is@[k].1)
        },
        r is Some <==> exists|is: Seq<(u32, Instr)>| #[trigger] code_at(data@, start as int, code_len as int, is),
{
    let _n = data.len();
    let ghost has = exists|is: Seq<(u32, Instr)>| #[trigger] code_at(data@, start as int, code_len as int, is);
    let ghost t = choose|is: Seq<(u32, Instr)>| #[trigger] code_at(data@, start as int, code_len as int, is);
    let limit = start + code_len;
    let mut is: Vec<(u32, Instr)> = Vec::new();
    let mut p = start;
    proof {
        assert(data@.subrange(start as int, p as int) =~= encode_instrs(is@));
        if has {
            assert(t.subrange(0, 0) =~= Seq::<(u32, Instr)>::empty());
            lemma_code_end(t);
        }
    }
    while p < limit
        invariant
            start <= p <= limit <= data@.len(),
            limit == start + code_len,
            data@.subrange(start as int, p as int) == encode_instrs(is@),
            positions_are_offsets(is@),
            forall|k: int| 0 <= k < is@.len() ==> instr_wf(#[trigger] is@[k].1),
            has == exists|is: Seq<(u32, Instr)>| #[trigger] code_at(data@, start as int, code_len as int, is),
            has ==> code_at(data@, start as int, code_len as int, t),
            has ==> is@.len() <= t.len(),
            has ==> p == start + instr_offset(t, is@.len() as int),
            has ==> instr_offset(t, t.len() as int) == code_len,
        decreases limit - p,
    {
        let off = p - start;
        let ghost k = is@.len() as int;
        proof {
            if has {
                if k == t.len() {
                    assert(false);
                }
                lemma_instr_in_code(data@, start as int, code_len as int, t, k);
            }
        }
        if off > 0xffff_ffff {
            return None;
        }
        let (i, end) = match parse_instr(data, p, off, limit) {
            Some(x) => x,
            None => return None,
        };
        proof {
            if has {
                assert(instr_at(data@, p as int, off as int, limit as int, i));
                lemma_instr_unique(data@, p as int, off as int, limit as int, i, t[k].1);
            }
        }
        let ghost old_is = is@;
        let ghost x = (off as u32, i);
        proof {
            lemma_offset_of_push(old_is, x);
            let ns = old_is.push(x);
            assert(ns.drop_last() =~= old_is);
            assert(encode_instrs(ns) == encode_instrs(old_is) + encode_instr(i, off as int));
            lemma_split(data@, start as int, p as int, end as int);
        }
        is.push((off as u32, i));
        proof {
            assert forall|k: int| 0 <= k < is@.len() implies #[trigger] is@[k].0 == instr_offset(
                is@,
                k,
            ) by {
                if k < old_is.len() {
                    assert(is@[k] == old_is[k]);
                }
            }
        }
        p = end;
    }
    proof {
        if has {
            lemma_code_end(t);
        }
        assert(data@.subrange(start as int, start + code_len) == encode_instrs(is@));
        assert(code_at(data@, start as int, code_len as int, is@)) by {
            lemma_code_end(is@);
        }
    }
    Some(is)
}

/// Decodes a raw attribute (name, length, bytes) at `pos`, not going past `limit`.
fn parse_raw_attr(data: &[u8], pos: usize, limit: usize) -> (r: Option<(RawAttr, usize)>)
    requires
        limit <= data@.len(),
    ensures
        r matches Some((a, end)) ==> {
            &&& pos < end <= limit
            &&& end == pos + 6 + a.data@.len()
            &&& data@.subrange(pos as int, end as int) == encode_raw_attr(a)
            &&& data@.subrange(pos + 6, end as int) == a.data@
            &&& be_u16(data@, pos as int) == a.name
            &&& raw_attr_fits(a)
        },
        r is Some <==> attrs_end(data@, pos as int, 1, limit as int) is Some,
        r matches Some((_, end)) ==> attrs_end(data@, pos as int, 1, limit as int) == Some(end as int),
{
    proof {
        reveal_with_fuel(attrs_end, 2);
    }
    if pos > limit || limit - pos < 6 {
        return None;
    }
    let name = read_u16(data, pos);
    let len = read_u32(data, pos + 2) as usize;
    if len > limit - pos - 6 {
        return None;
    }
    let body = copy_range(data, pos + 6, pos + 6 + len);
    proof {
        lemma_u16_at(data@, pos as int);
        lemma_u32_roundtrip(data@, pos + 2);
        lemma_split(data@, pos as int, pos + 2, pos + 6);
        lemma_split(data@, pos as int, pos + 6, pos + 6 + len);
    }
    Some((RawAttr { name, data: body }, pos + 6 + len))
}

/// Decodes a two-byte count followed by that many raw attributes.
fn parse_raw_attrs(data: &[u8], pos: usize, limit: usize) -> (r: Option<(Vec<RawAttr>, usize)>)
    requires
        limit <= data@.len(),
    ensures
        r matches Some((attrs, end)) ==> {
            &&& pos + 2 <= end <= limit
            &&& data@.subrange(pos as int, end as int) == u16_bytes(attrs@.len() as u16)
                + encode_raw_attrs(attrs@)
            &&& attrs@.len() <= 65535
            &&& forall|k: int| 0 <= k < attrs@.len() ==> raw_attr_fits(#[trigger] attrs@[k])
        },
        r is Some <==> pos + 2 <= limit && attrs_end(data@, pos + 2, be_u16(data@, pos as int) as int, limit as int)
            is Some,
        r matches Some((_, end)) ==> attrs_end(data@, pos + 2, be_u16(data@, pos as int) as int, limit as int) == Some(
            end as int,
        ),
{
    if pos > limit || limit - pos < 2 {
        return None;
    }
    let count = read_u16(data, pos) as usize;
    let mut attrs: Vec<RawAttr> = Vec::new();
    let mut p = pos + 2;
    proof {
        assert(data@.subrange(pos + 2, p as int) =~= encode_raw_attrs(attrs@));
    }
    while attrs.len() < count
        invariant
            pos + 2 <= p <= limit <= data@.len(),
            attrs@.len() <= count <= 65535,
            count == be_u16(data@, pos as int),
            data@.subrange(pos + 2, p as int) == encode_raw_attrs(attrs@),
            forall|k: int| 0 <= k < attrs@.len() ==> raw_attr_fits(#[trigger] attrs@[k]),
            attrs_end(data@, pos + 2, attrs@.len() as int, limit as int) == Some(p as int),
        decreases count - attrs@.len(),
    {
        proof {
            lemma_attrs_end_step(data@, pos + 2, attrs@.len() as int, p as int, limit as int);
        }
        let (a, end) = match parse_raw_attr(data, p, limit) {
            Some(x) => x,
            None => {
                proof {
                    lemma_attrs_end_none(data@, pos + 2, attrs@.len() + 1int, count as int, limit as int);
                }
                return None;
            },
        };
        let ghost old_attrs = attrs@;
        attrs.push(a);
        proof {
            assert(attrs@.drop_last() =~= old_attrs);
            lemma_split(data@, pos + 2, p as int, end as int);
        }
        p = end;
    }
    proof {
        lemma_u16_at(data@, pos as int);
        lemma_split(data@, pos as int, pos + 2, p as int);
    }
    Some((attrs, p))
}

proof fn lemma_code_layout(s: Seq<u8>, pos: int, p: int, eend: int, limit: int, c: Code)
    requires
        0 <= pos,
        pos + 8 <= p <= eend <= limit <= s.len(),
        s.subrange(pos, pos + 2) == u16_bytes(c.max_stack),
        s.subrange(pos + 2, pos + 4) == u16_bytes(c.max_locals),
        s.subrange(pos + 4, pos + 8) == u32_bytes(encode_instrs(c.bytecode@).len() as u32),
        s.subrange(pos + 8, p) == encode_instrs(c.bytecode@),
        s.subrange(p, eend) == c.exception_table@,
        s.subrange(eend, limit) == u16_bytes(c.attrs@.len() as u16) + encode_raw_attrs(c.attrs@),
    ensures
        s.subrange(pos, limit) == encode_code_body(c),
{
    lemma_split(s, pos, pos + 2, limit);
    lemma_split(s, pos + 2, pos + 4, limit);
    lemma_split(s, pos + 4, pos + 8, limit);
    lemma_split(s, pos + 8, p, limit);
    lemma_split(s, p, eend, limit);
    assert(s.subrange(pos, limit) =~= encode_code_body(c));
}

/// Decodes the body of a `Code` attribute occupying exactly
/// `data[pos..limit]`: a body is read exactly when one is encoded there.
#[verifier::rlimit(40)]
#[verifier::spinoff_prover]
pub fn parse_code_body(data: &[u8], pos: usize, limit: usize) -> (r: Option<Code>)
    requires
        pos <= limit <= data@.len(),
        limit - pos <= u32::MAX,
    ensures
        r matches Some(c) ==> {
            &&& data@.subrange(pos as int, limit as int) == encode_code_body(c)
            &&& code_fits(c)
            &&& positions_are_offsets(c.bytecode@)
            &&& exception_table_ok(c.exception_table@)
        },
        r is Some <==> exists|c: Code| #[trigger] code_body_at(data@, pos as int, limit as int, c),
{
    let ghost has = exists|c: Code| #[trigger] code_body_at(data@, pos as int, limit as int, c);
    let ghost t = choose|c: Code| #[trigger] code_body_at(data@, pos as int, limit as int, c);
    proof {
        if has {
            lemma_code_body_at(data@, pos as int, limit as int, t);
        }
    }
    if limit - pos < 8 {
        return None;
    }
    let max_stack = read_u16(data, pos);
    let max_locals = read_u16(data, pos + 2);
    let code_len = read_u32(data, pos + 4) as usize;
    if code_len > limit - pos - 8 {
        return None;
    }
    let cstart = pos + 8;
    let bytecode = match parse_bytecode(data, cstart, code_len) {
        Some(b) => b,
        None => return None,
    };
    let p = cstart + code_len;
    if limit - p < 2 {
        return None;
    }
    let ecount = read_u16(data, p) as usize;
    if ecount > (limit - p - 2) / 8 {
        return None;
    }
    let eend = p + 2 + 8 * ecount;
    let exception_table = copy_range(data, p, eend);
    let (attrs, end) = match parse_raw_attrs(data, eend, limit) {
        Some(x) => x,
        None => return None,
    };
    if end != limit {
        return None;
    }
    let c = Code { max_stack, max_locals, bytecode, exception_table, attrs };
    proof {
        lemma_u16_at(data@, pos as int);
        lemma_u16_at(data@, pos + 2);
        lemma_u32_roundtrip(data@, pos + 4);
        assert(encode_instrs(c.bytecode@).len() == code_len);
        lemma_code_layout(data@, pos as int, p as int, eend as int, limit as int, c);
        assert(c.exception_table@[0] == data@[p as int]);
        assert(c.exception_table@[1] == data@[p + 1]);
        assert(code_body_at(data@, pos as int, limit as int, c));
    }
    Some(c)
}

/// The bytes of the attribute name `Code`.
pub open spec fn code_attr_name() -> Seq<u8> {
    seq![67u8, 111u8, 100u8, 101u8]
}

/// Whether constant `idx` of `cp` is the UTF-8 entry `Code`.
pub open spec fn names_code(cp: Seq<Const>, idx: u16) -> bool {
    &&& idx < cp.len()
    &&& cp[idx as int] matches Const::Utf8(b) && b@ == code_attr_name()
}

fn is_code_name(cp: &Vec<Const>, idx: u16) -> (r: bool)
    ensures
        r == names_code(cp@, idx),
{
    if (idx as usize) >= cp.len() {
        return false;
    }
    match &cp[idx as usize] {
        Const::Utf8(b) => {
            let name: [u8; 4] = [67, 111, 100, 101];
            let r = crate::bytes::bytes_eq(b.as_slice(), &name);
            assert(name@ =~= code_attr_name());
            r
        },
        _ => false,
    }
}

/// Whether a method attribute is decoded as `Code` exactly when its name says so.
pub open spec fn method_attr_kind_ok(cp: Seq<Const>, a: MethodAttr) -> bool {
    match a {
        MethodAttr::Code(name, c) => names_code(cp, name) && positions_are_offsets(c.bytecode@),
        MethodAttr::Raw(r) => !names_code(cp, r.name),
    }
}

/// Entries of the same encodings name `Code` alike.
proof fn lemma_same_names(a: Seq<Const>, b: Seq<Const>, idx: u16)
    requires
        a.len() == b.len(),
        forall|i: int| 0 <= i < a.len() ==> encode_const(#[trigger] a[i]) == encode_const(b[i]),
    ensures
        names_code(a, idx) == names_code(b, idx),
{
    if (idx as int) < a.len() {
        let i = idx as int;
        let e = encode_const(a[i]);
        assert(e == encode_const(b[i]));
        if let Const::Utf8(x) = a[i] {
            assert(e.subrange(3, e.len() as int) =~= x@);
        }
        if let Const::Utf8(y) = b[i] {
            assert(e.subrange(3, e.len() as int) =~= y@);
        }
    }
}

/// Every `Code` attribute's exception table is well formed.
pub open spec fn method_layout_ok(m: Method) -> bool {
    forall|k: int|
        0 <= k < m.attrs@.len() ==> (#[trigger] m.attrs@[k] matches MethodAttr::Code(_, c)
            ==> exception_table_ok(c.exception_table@))
}

/// Method `m` is encoded in `s` at `pos`, its attributes decoded as `cp`
/// names them.
pub open spec fn method_at(s: Seq<u8>, pos: int, cp: Seq<Const>, m: Method) -> bool {
    &&& method_fits(m)
    &&& forall|k: int| 0 <= k < m.attrs@.len() ==> method_attr_kind_ok(cp, #[trigger] m.attrs@[k])
    &&& method_layout_ok(m)
    &&& 0 <= pos
    &&& pos + encode_method(m).len() <= s.len()
    &&& s.subrange(pos, pos + encode_method(m).len()) == encode_method(m)
}

/// The encoding of the first `k + 1` attributes extends that of the first
/// `k` by attribute `k`, and begins the encoding of all of them.
proof fn lemma_method_attrs_prefix(attrs: Seq<MethodAttr>, k: int)
    requires
        0 <= k < attrs.len(),
    ensures
        encode_method_attrs(attrs.subrange(0, k + 1)) == encode_method_attrs(attrs.subrange(0, k))
            + encode_method_attr(attrs[k]),
        encode_method_attrs(attrs.subrange(0, k + 1)).len() <= encode_method_attrs(attrs).len(),
        encode_method_attrs(attrs).subrange(0, encode_method_attrs(attrs.subrange(0, k + 1)).len() as int)
            == encode_method_attrs(attrs.subrange(0, k + 1)),
    decreases attrs.len(),
{
    assert(attrs.subrange(0, k + 1).drop_last() =~= attrs.subrange(0, k));
    if k + 1 == attrs.len() {
        assert(attrs.subrange(0, k + 1) =~= attrs);
    } else {
        let d = attrs.drop_last();
        lemma_method_attrs_prefix(d, k);
        assert(d.subrange(0, k + 1) =~= attrs.subrange(0, k + 1));
        assert(d.subrange(0, k) =~= attrs.subrange(0, k));
        let n = encode_method_attrs(attrs.subrange(0, k + 1)).len() as int;
        assert(encode_method_attrs(attrs) == encode_method_attrs(d) + encode_method_attr(attrs.last()));
        assert(encode_method_attrs(attrs).subrange(0, n) =~= encode_method_attrs(d).subrange(0, n));
    }
}

/// The encoding of the first `k + 1` methods extends that of the first `k`
/// by method `k`, and begins the encoding of all of them.
proof fn lemma_methods_prefix(ms: Seq<Method>, k: int)
    requires
        0 <= k < ms.len(),
    ensures
        encode_methods(ms.subrange(0, k + 1)) == encode_methods(ms.subrange(0, k)) + encode_method(ms[k]),
        encode_methods(ms.subrange(0, k + 1)).len() <= encode_methods(ms).len(),
        encode_methods(ms).subrange(0, encode_methods(ms.subrange(0, k + 1)).len() as int) == encode_methods(
            ms.subrange(0, k + 1),
        ),
    decreases ms.len(),
{
    assert(ms.subrange(0, k + 1).drop_last() =~= ms.subrange(0, k));
    if k + 1 == ms.len() {
        assert(ms.subrange(0, k + 1) =~= ms);
    } else {
        let d = ms.drop_last();
        lemma_methods_prefix(d, k);
        assert(d.subrange(0, k + 1) =~= ms.subrange(0, k + 1));
        assert(d.subrange(0, k) =~= ms.subrange(0, k));
        let n = encode_methods(ms.subrange(0, k + 1)).len() as int;
        assert(encode_methods(ms) == encode_methods(d) + encode_method(ms.last()));
        assert(encode_methods(ms).subrange(0, n) =~= encode_methods(d).subrange(0, n));
    }
}

/// What the bytes of attribute `k` of an encoded method give.
#[verifier::rlimit(60)]
#[verifier::spinoff_prover]
proof fn lemma_attr_in_method(s: Seq<u8>, pos: int, cp: Seq<Const>, m: Method, k: int)
    requires
        method_at(s, pos, cp, m),
        0 <= k < m.attrs@.len(),
    ensures
        ({
            let q = pos + 8 + encode_method_attrs(m.attrs@.subrange(0, k)).len();
            let a = m.attrs@[k];
            &&& q + encode_method_attr(a).len() == pos + 8 + encode_method_attrs(m.attrs@.subrange(0, k + 1)).len()
            &&& pos + 8 + encode_method_attrs(m.attrs@.subrange(0, k + 1)).len() <= pos + encode_method(m).len()
            &&& attrs_end(s, q, 1, s.len() as int) == Some(q + encode_method_attr(a).len())
            &&& be_u16(s, q) == (match a {
                MethodAttr::Code(n, _) => n,
                MethodAttr::Raw(r) => r.name,
            })
            &&& a matches MethodAttr::Code(_, c) ==> code_body_at(s, q + 6, q + encode_method_attr(a).len(), c)
        }),
{
    let attrs = m.attrs@;
    lemma_method_attrs_prefix(attrs, k);
    let ea = encode_method_attrs(attrs);
    let em = encode_method(m);
    let l8 = ea.len() as int;
    assert(s.subrange(pos + 8, pos + 8 + l8) =~= em.subrange(8, 8 + l8));
    assert(em.subrange(8, 8 + l8) =~= ea);
    let mm = encode_method_attrs(attrs.subrange(0, k)).len() as int;
    let a = attrs[k];
    let ek = encode_method_attr(a);
    let l = ek.len() as int;
    let f = encode_method_attrs(attrs.subrange(0, k + 1));
    let q = pos + 8 + mm;
    assert(s.subrange(q, q + l) =~= ea.subrange(mm, mm + l));
    assert(ea.subrange(mm, mm + l) =~= f.subrange(mm, mm + l));
    assert(f.subrange(mm, mm + l) =~= ek);
    assert(method_attr_fits(a));
    reveal_with_fuel(attrs_end, 2);
    match a {
        MethodAttr::Code(n, c) => {
            let body = encode_code_body(c);
            assert(s.subrange(q, q + 2) =~= ek.subrange(0, 2));
            assert(ek.subrange(0, 2) =~= u16_bytes(n));
            lemma_read_u16(s, q, n);
            assert(s.subrange(q + 2, q + 6) =~= ek.subrange(2, 6));
            assert(ek.subrange(2, 6) =~= u32_bytes(body.len() as u32));
            lemma_read_u32(s, q + 2, body.len() as u32);
            assert(s.subrange(q + 6, q + l) =~= ek.subrange(6, l));
            assert(ek.subrange(6, l) =~= body);
            assert(method_attr_kind_ok(cp, a));
            assert(method_layout_ok(m));
            assert(attrs[k] matches MethodAttr::Code(_, c) ==> exception_table_ok(c.exception_table@));
        },
        MethodAttr::Raw(r) => {
            assert(s.subrange(q, q + 2) =~= ek.subrange(0, 2));
            assert(ek.subrange(0, 2) =~= u16_bytes(r.name));
            lemma_read_u16(s, q, r.name);
            assert(s.subrange(q + 2, q + 6) =~= ek.subrange(2, 6));
            assert(ek.subrange(2, 6) =~= u32_bytes(r.data@.len() as u32));
            lemma_read_u32(s, q + 2, r.data@.len() as u32);
        },
    }
}

/// Decodes one method at `pos`. When `target` is a method encoded there
/// (with a pool `tcp` of the same encodings as `cp`), it is read, to its end.
fn parse_method(
    data: &[u8],
    pos: usize,
    cp: &Vec<Const>,
    Ghost(target): Ghost<Option<Method>>,
    Ghost(tcp): Ghost<Seq<Const>>,
) -> (r: Option<(Method, usize)>)
    requires
        target matches Some(m) ==> method_at(data@, pos as int, tcp, m),
        target is Some ==> tcp.len() == cp@.len(),
        target is Some ==> forall|i: int| 0 <= i < cp@.len() ==> encode_const(#[trigger] cp@[i]) == encode_const(tcp[i]),
    ensures
        r matches Some((m, end)) ==> {
            &&& pos < end <= data@.len()
            &&& data@.subrange(pos as int, end as int) == encode_method(m)
            &&& method_fits(m)
            &&& forall|k: int| 0 <= k < m.attrs@.len() ==> method_attr_kind_ok(cp@, #[trigger] m.attrs@[k])
            &&& method_layout_ok(m)
        },
        target matches Some(m) ==> r matches Some((_, end)) && end == pos + encode_method(m).len(),
{
    let _n = data.len();
    let ghost has = target is Some;
    let ghost t = target->0;
    proof {
        if has {
            let em = encode_method(t);
            assert(data@.subrange(pos + 6, pos + 8) =~= em.subrange(6, 8));
            assert(em.subrange(6, 8) =~= u16_bytes(t.attrs@.len() as u16));
            lemma_read_u16(data@, pos + 6, t.attrs@.len() as u16);
            assert(t.attrs@.subrange(0, 0) =~= Seq::<MethodAttr>::empty());
        }
    }
    if pos > data.len() || data.len() - pos < 8 {
        return None;
    }
    let access = read_u16(data, pos);
    let name = read_u16(data, pos + 2);
    let desc = read_u16(data, pos + 4);
    let count = read_u16(data, pos + 6) as usize;
    let mut attrs: Vec<MethodAttr> = Vec::new();
    let mut p = pos + 8;
    proof {
        assert(data@.subrange(pos + 8, p as int) =~= encode_method_attrs(attrs@));
    }
    while attrs.len() < count
        invariant
            pos + 8 <= p <= data@.len(),
            attrs@.len() <= count <= 65535,
            count == be_u16(data@, pos + 6),
            data@.subrange(pos + 8, p as int) == encode_method_attrs(attrs@),
            forall|k: int| 0 <= k < attrs@.len() ==> method_attr_fits(#[trigger] attrs@[k]),
            forall|k: int| 0 <= k < attrs@.len() ==> method_attr_kind_ok(cp@, #[trigger] attrs@[k]),
            forall|k: int|
                0 <= k < attrs@.len() ==> (#[trigger] attrs@[k] matches MethodAttr::Code(_, c)
                    ==> exception_table_ok(c.exception_table@)),
            has == target is Some,
            t == target->0,
            has ==> method_at(data@, pos as int, tcp, t),
            has ==> tcp.len() == cp@.len(),
            has ==> forall|i: int| 0 <= i < cp@.len() ==> encode_const(#[trigger] cp@[i]) == encode_const(tcp[i]),
            has ==> count == t.attrs@.len(),
            has ==> p == pos + 8 + encode_method_attrs(t.attrs@.subrange(0, attrs@.len() as int)).len(),
        decreases count - attrs@.len(),
    {
        let ghost k = attrs@.len() as int;
        proof {
            if has {
                lemma_attr_in_method(data@, pos as int, tcp, t, k);
            }
        }
        let (raw, end) = match parse_raw_attr(data, p, data.len()) {
            Some(x) => x,
            None => return None,
        };
        proof {
            if has {
                lemma_same_names(cp@, tcp, raw.name);
            }
        }
        let a = if is_code_name(cp, raw.name) {
            match parse_code_body(data, p + 6, end) {
                Some(c) => {
                    proof {
                        assert(data@.subrange(p as int, end as int) == encode_method_attr(
                            MethodAttr::Code(raw.name, c),
                        )) by {
                            lemma_split(data@, p as int, p + 6, end as int);
                            lemma_split(data@, p as int, p + 2, p + 6);
                            assert(data@.subrange(p + 6, end as int) == raw.data@);
                        }
                    }
                    MethodAttr::Code(raw.name, c)
                },
                None => {
                    proof {
                        if has {
                            if let MethodAttr::Code(_, c) = t.attrs@[k] {
                                assert(code_body_at(data@, p + 6, end as int, c));
                            }
                        }
                    }
                    return None;
                },
            }
        } else {
            MethodAttr::Raw(raw)
        };
        let ghost old_attrs = attrs@;
        attrs.push(a);
        proof {
            assert(attrs@.drop_last() =~= old_attrs);
            lemma_split(data@, pos + 8, p as int, end as int);
            assert forall|j: int|
                0 <= j < attrs@.len() implies (#[trigger] attrs@[j] matches MethodAttr::Code(_, c)
                ==> exception_table_ok(c.exception_table@)) by {
                if j < old_attrs.len() {
                    assert(attrs@[j] == old_attrs[j]);
                }
            }
        }
        p = end;
    }
    let m = Method { access, name, desc, attrs };
    proof {
        lemma_u16_at(data@, pos as int);
        lemma_u16_at(data@, pos + 2);
        lemma_u16_at(data@, pos + 4);
        lemma_u16_at(data@, pos + 6);
        lemma_split(data@, pos as int, pos + 2, pos + 4);
        lemma_split(data@, pos as int, pos + 4, pos + 6);
        lemma_split(data@, pos as int, pos + 6, pos + 8);
        lemma_split(data@, pos as int, pos + 8, p as int);
        assert(data@.subrange(pos as int, p as int) =~= encode_method(m));
        if has {
            assert(t.attrs@.subrange(0, t.attrs@.len() as int) =~= t.attrs@);
        }
    }
    Some((m, p))
}

/// End of the field table starting at `pos` (count, then each field with
/// its attributes).
fn skip_fields(data: &[u8], pos: usize) -> (r: Option<usize>)
    ensures
        r matches Some(end) ==> pos + 2 <= end <= data@.len(),
        r matches Some(end) ==> field_table_end(data@, pos as int, data@.len() as int) == Some(end as int),
        r is None ==> field_table_end(data@, pos as int, data@.len() as int) is None,
{
    let _n = data.len();
    let ghost l = data@.len() as int;
    if pos > data.len() || data.len() - pos < 2 {
        return None;
    }
    let count = read_u16(data, pos) as usize;
    let mut p = pos + 2;
    let mut f: usize = 0;
    while f < count
        invariant
            pos + 2 <= p <= data@.len(),
            f <= count,
            l == data@.len(),
            count == be_u16(data@, pos as int),
            fields_end(data@, pos + 2, f as int, l) == Some(p as int),
        decreases count - f,
    {
        if data.len() - p < 8 {
            proof {
                lemma_fields_end_none(data@, pos + 2, f + 1int, count as int, l);
            }
            return None;
        }
        let acount = read_u16(data, p + 6) as usize;
        let ghost q = p as int;
        p = p + 8;
        let mut a: usize = 0;
        while a < acount
            invariant
                pos + 2 <= p <= data@.len(),
                a <= acount,
                l == data@.len(),
                q + 8 <= l,
                acount == be_u16(data@, q + 6),
                fields_end(data@, pos + 2, f as int, l) == Some(q),
                f < count,
                count == be_u16(data@, pos as int),
                attrs_end(data@, q + 8, a as int, l) == Some(p as int),
            decreases acount - a,
        {
            proof {
                lemma_attrs_end_step(data@, q + 8, a as int, p as int, l);
            }
            let (_attr, end) = match parse_raw_attr(data, p, data.len()) {
                Some(x) => x,
                None => {
                    proof {
                        lemma_attrs_end_none(data@, q + 8, a + 1int, acount as int, l);
                        lemma_fields_end_none(data@, pos + 2, f + 1int, count as int, l);
                    }
                    return None;
                },
            };
            p = end;
            a += 1;
        }
        f += 1;
    }
    Some(p)
}

/// Whether every `Code` attribute of the class is named `Code`, every other
/// method attribute is not, and every instruction carries its own offset.
pub open spec fn decoded_attrs_ok(c: ClassFile) -> bool {
    forall|m: int, k: int|
        0 <= m < c.methods@.len() && 0 <= k < c.methods@[m].attrs@.len() ==> method_attr_kind_ok(
            c.cp@,
            #[trigger] c.methods@[m].attrs@[k],
        )
}

/// The layout rules the decoder follows beyond the encoding itself: the
/// field table and every exception table are well formed.
pub open spec fn class_layout_ok(c: ClassFile) -> bool {
    &&& field_table_ok(c.fields@)
    &&& forall|m: int| 0 <= m < c.methods@.len() ==> method_layout_ok(#[trigger] c.methods@[m])
}

/// `c` is a class that `data` encodes, in the form the decoder gives:
/// counts that fit their fields, attributes decoded as `Code` exactly when
/// their name says so, and well-formed field and exception tables.
pub open spec fn decodable(data: Seq<u8>, c: ClassFile) -> bool {
    &&& encode_class(c) == data
    &&& class_fits(c)
    &&& decoded_attrs_ok(c)
    &&& class_layout_ok(c)
}

/// Bytes taken by the encoding of a run of `u16`s.
proof fn lemma_u16s_len(vs: Seq<u16>)
    ensures
        encode_u16s(vs).len() == 2 * vs.len(),
    decreases vs.len(),
{
    if vs.len() > 0 {
        lemma_u16s_len(vs.drop_last());
    }
}

/// Where the parts of an encoded class lie.
#[verifier::rlimit(60)]
#[verifier::spinoff_prover]
proof fn lemma_class_at(s: Seq<u8>, c: ClassFile)
    requires
        encode_class(c) == s,
        class_fits(c),
    ensures
        ({
            let p = 8 + encode_cp(c.cp@).len() as int;
            let q = p + 8 + 2 * c.interfaces@.len();
            let f = q + c.fields@.len();
            let m = f + 2 + encode_methods(c.methods@).len();
            &&& be_u32(s, 0) == class_magic()
            &&& cp_at(s, 8, c.cp@)
            &&& p + 8 <= q <= f
            &&& f + 2 <= m <= s.len()
            &&& be_u16(s, p + 6) == c.interfaces@.len()
            &&& s.subrange(q, f) == c.fields@
            &&& be_u16(s, f) == c.methods@.len()
            &&& s.subrange(f + 2, m) == encode_methods(c.methods@)
        }),
{
    let x1 = u32_bytes(class_magic());
    let x2 = x1 + u16_bytes(c.minor);
    let x3 = x2 + u16_bytes(c.major);
    let x4 = x3 + encode_cp(c.cp@);
    let x5 = x4 + u16_bytes(c.access);
    let x6 = x5 + u16_bytes(c.this_class);
    let x7 = x6 + u16_bytes(c.super_class);
    let x8 = x7 + u16_bytes(c.interfaces@.len() as u16);
    let x9 = x8 + encode_u16s(c.interfaces@);
    let x10 = x9 + c.fields@;
    let x11 = x10 + u16_bytes(c.methods@.len() as u16);
    let x12 = x11 + encode_methods(c.methods@);
    let x13 = x12 + c.attrs@;
    assert(x13 == s);
    lemma_u16s_len(c.interfaces@);
    let p = 8 + encode_cp(c.cp@).len() as int;
    let q = p + 8 + 2 * c.interfaces@.len();
    let f = q + c.fields@.len();
    let m = f + 2 + encode_methods(c.methods@).len();
    assert(s.subrange(0, m) =~= x12);
    assert(x12.subrange(0, f + 2) =~= x11);
    assert(x11.subrange(0, f) =~= x10);
    assert(x10.subrange(0, q) =~= x9);
    assert(x9.subrange(0, p + 8) =~= x8);
    assert(x8.subrange(0, p + 6) =~= x7);
    assert(x4.subrange(0, 8) =~= x3);
    assert(x8.subrange(0, p) =~= x4);
    assert(s.subrange(0, 4) =~= x1);
    lemma_read_u32(s, 0, class_magic());
    assert(s.subrange(8, p) =~= encode_cp(c.cp@));
    assert(s.subrange(p + 6, p + 8) =~= u16_bytes(c.interfaces@.len() as u16));
    lemma_read_u16(s, p + 6, c.interfaces@.len() as u16);
    assert(s.subrange(q, f) =~= c.fields@);
    assert(s.subrange(f, f + 2) =~= u16_bytes(c.methods@.len() as u16));
    lemma_read_u16(s, f, c.methods@.len() as u16);
    assert(s.subrange(f + 2, m) =~= encode_methods(c.methods@));
}

/// Method `k` of an encoded class lies where the methods before it end.
#[verifier::rlimit(40)]
proof fn lemma_method_in_class(s: Seq<u8>, c: ClassFile, mstart: int, k: int)
    requires
        decodable(s, c),
        0 <= mstart,
        mstart + encode_methods(c.methods@).len() <= s.len(),
        s.subrange(mstart, mstart + encode_methods(c.methods@).len()) == encode_methods(c.methods@),
        0 <= k < c.methods@.len(),
    ensures
        method_at(s, mstart + encode_methods(c.methods@.subrange(0, k)).len(), c.cp@, c.methods@[k]),
        encode_methods(c.methods@.subrange(0, k + 1)).len() == encode_methods(c.methods@.subrange(0, k)).len()
            + encode_method(c.methods@[k]).len(),
{
    let ms = c.methods@;
    lemma_methods_prefix(ms, k);
    let e = encode_methods(ms);
    let mm = encode_methods(ms.subrange(0, k)).len() as int;
    let ek = encode_method(ms[k]);
    let l = ek.len() as int;
    let fk = encode_methods(ms.subrange(0, k + 1));
    assert(s.subrange(mstart + mm, mstart + mm + l) =~= e.subrange(mm, mm + l));
    assert(e.subrange(mm, mm + l) =~= fk.subrange(mm, mm + l));
    assert(fk.subrange(mm, mm + l) =~= ek);
    assert(method_fits(ms[k]));
    assert(method_layout_ok(ms[k]));
    assert forall|j: int| 0 <= j < ms[k].attrs@.len() implies method_attr_kind_ok(
        c.cp@,
        #[trigger] ms[k].attrs@[j],
    ) by {
        assert(method_attr_kind_ok(c.cp@, c.methods@[k].attrs@[j]));
    }
}

proof fn lemma_class_layout(s: Seq<u8>, c: ClassFile, p: int, q: int, fend: int, m: int)
    requires
        8 <= p,
        p + 8 <= q <= fend,
        fend + 2 <= m <= s.len(),
        s.subrange(0, 4) == u32_bytes(class_magic()),
        s.subrange(4, 6) == u16_bytes(c.minor),
        s.subrange(6, 8) == u16_bytes(c.major),
        s.subrange(8, p) == encode_cp(c.cp@),
        s.subrange(p, p + 2) == u16_bytes(c.access),
        s.subrange(p + 2, p + 4) == u16_bytes(c.this_class),
        s.subrange(p + 4, p + 6) == u16_bytes(c.super_class),
        s.subrange(p + 6, p + 8) == u16_bytes(c.interfaces@.len() as u16),
        s.subrange(p + 8, q) == encode_u16s(c.interfaces@),
        s.subrange(q, fend) == c.fields@,
        s.subrange(fend, fend + 2) == u16_bytes(c.methods@.len() as u16),
        s.subrange(fend + 2, m) == encode_methods(c.methods@),
        s.subrange(m, s.len() as int) == c.attrs@,
    ensures
        s == encode_class(c),
{
    let n = s.len() as int;
    let x1 = u32_bytes(class_magic());
    let x2 = x1 + u16_bytes(c.minor);
    let x3 = x2 + u16_bytes(c.major);
    let x4 = x3 + encode_cp(c.cp@);
    let x5 = x4 + u16_bytes(c.access);
    let x6 = x5 + u16_bytes(c.this_class);
    let x7 = x6 + u16_bytes(c.super_class);
    let x8 = x7 + u16_bytes(c.interfaces@.len() as u16);
    let x9 = x8 + encode_u16s(c.interfaces@);
    let x10 = x9 + c.fields@;
    let x11 = x10 + u16_bytes(c.methods@.len() as u16);
    let x12 = x11 + encode_methods(c.methods@);
    let x13 = x12 + c.attrs@;
    lemma_split(s, 0, 4, 6);
    lemma_split(s, 0, 6, 8);
    lemma_split(s, 0, 8, p);
    lemma_split(s, 0, p, p + 2);
    lemma_split(s, 0, p + 2, p + 4);
    lemma_split(s, 0, p + 4, p + 6);
    lemma_split(s, 0, p + 6, p + 8);
    lemma_split(s, 0, p + 8, q);
    lemma_split(s, 0, q, fend);
    lemma_split(s, 0, fend, fend + 2);
    lemma_split(s, 0, fend + 2, m);
    lemma_split(s, 0, m, n);
    assert(s.subrange(0, 6) == x2);
    assert(s.subrange(0, 8) == x3);
    assert(s.subrange(0, p) == x4);
    assert(s.subrange(0, p + 2) == x5);
    assert(s.subrange(0, p + 4) == x6);
    assert(s.subrange(0, p + 6) == x7);
    assert(s.subrange(0, p + 8) == x8);
    assert(s.subrange(0, q) == x9);
    assert(s.subrange(0, fend) == x10);
    assert(s.subrange(0, fend + 2) == x11);
    assert(s.subrange(0, m) == x12);
    assert(s.subrange(0, n) == x13);
    assert(s.subrange(0, n) =~= s);
    assert(x13 == encode_class(c));
}

/// Reads `count` interface indices at `start`.
fn parse_interfaces(data: &[u8], start: usize, count: usize) -> (r: Vec<u16>)
    requires
        start + 2 * count <= data@.len(),
    ensures
        r@.len() == count,
        data@.subrange(start as int, start + 2 * count) == encode_u16s(r@),
{
    let _n = data.len();
    let mut interfaces: Vec<u16> = Vec::new();
    let mut q = start;
    proof {
        assert(data@.subrange(start as int, q as int) =~= encode_u16s(interfaces@));
    }
    while interfaces.len() < count
        invariant
            start <= q <= data@.len(),
            q == start + 2 * interfaces@.len(),
            interfaces@.len() <= count,
            start + 2 * count <= data@.len(),
            data@.len() <= usize::MAX,
            data@.subrange(start as int, q as int) == encode_u16s(interfaces@),
        decreases count - interfaces@.len(),
    {
        assert(q + 2 <= data@.len()) by (nonlinear_arith)
            requires
                q == start + 2 * interfaces@.len(),
                interfaces@.len() < count,
                start + 2 * count <= data@.len(),
        ;
        let v = read_u16(data, q);
        let ghost old_is = interfaces@;
        interfaces.push(v);
        proof {
            assert(interfaces@.drop_last() =~= old_is);
            lemma_u16_at(data@, q as int);
            lemma_split(data@, start as int, q as int, q + 2);
        }
        q = q + 2;
    }
    interfaces
}

/// Reads `count` methods at `start`. When `target` is a class decoded from
/// `data` whose methods lie at `start` and whose pool has the encodings of
/// `cp`, its methods are read, to their end.
#[verifier::rlimit(40)]
fn parse_methods(
    data: &[u8],
    start: usize,
    count: usize,
    cp: &Vec<Const>,
    Ghost(target): Ghost<Option<ClassFile>>,
) -> (r: Option<(Vec<Method>, usize)>)
    requires
        start <= data@.len(),
        count <= 65535,
        target matches Some(t) ==> {
            &&& decodable(data@, t)
            &&& count == t.methods@.len()
            &&& start + encode_methods(t.methods@).len() <= data@.len()
            &&& data@.subrange(start as int, start + encode_methods(t.methods@).len()) == encode_methods(t.methods@)
            &&& cp@.len() == t.cp@.len()
            &&& forall|i: int| 0 <= i < cp@.len() ==> encode_const(#[trigger] cp@[i]) == encode_const(t.cp@[i])
        },
    ensures
        r matches Some((ms, end)) ==> {
            &&& start <= end <= data@.len()
            &&& ms@.len() == count
            &&& data@.subrange(start as int, end as int) == encode_methods(ms@)
            &&& forall|k: int| 0 <= k < ms@.len() ==> method_fits(#[trigger] ms@[k])
            &&& forall|k: int| 0 <= k < ms@.len() ==> method_layout_ok(#[trigger] ms@[k])
            &&& forall|i: int, k: int|
                0 <= i < ms@.len() && 0 <= k < ms@[i].attrs@.len() ==> method_attr_kind_ok(
                    cp@,
                    #[trigger] ms@[i].attrs@[k],
                )
        },
        target matches Some(t) ==> r matches Some((_, end)) && end == start + encode_methods(t.methods@).len(),
{
    let ghost has = target is Some;
    let ghost t = target->0;
    let mut methods: Vec<Method> = Vec::new();
    let mut m = start;
    proof {
        assert(data@.subrange(start as int, m as int) =~= encode_methods(methods@));
        if has {
            assert(t.methods@.subrange(0, 0) =~= Seq::<Method>::empty());
        }
    }
    while methods.len() < count
        invariant
            start <= m <= data@.len(),
            methods@.len() <= count <= 65535,
            data@.subrange(start as int, m as int) == encode_methods(methods@),
            forall|k: int| 0 <= k < methods@.len() ==> method_fits(#[trigger] methods@[k]),
            forall|k: int| 0 <= k < methods@.len() ==> method_layout_ok(#[trigger] methods@[k]),
            forall|i: int, k: int|
                0 <= i < methods@.len() && 0 <= k < methods@[i].attrs@.len() ==> method_attr_kind_ok(
                    cp@,
                    #[trigger] methods@[i].attrs@[k],
                ),
            has == target is Some,
            t == target->0,
            has ==> decodable(data@, t),
            has ==> count == t.methods@.len(),
            has ==> start + encode_methods(t.methods@).len() <= data@.len(),
            has ==> data@.subrange(start as int, start + encode_methods(t.methods@).len()) == encode_methods(
                t.methods@,
            ),
            has ==> cp@.len() == t.cp@.len(),
            has ==> forall|i: int| 0 <= i < cp@.len() ==> encode_const(#[trigger] cp@[i]) == encode_const(t.cp@[i]),
            has ==> m == start + encode_methods(t.methods@.subrange(0, methods@.len() as int)).len(),
        decreases count - methods@.len(),
    {
        let ghost k = methods@.len() as int;
        let ghost mt: Option<Method> = if has {
            Some(t.methods@[k])
        } else {
            None
        };
        proof {
            if has {
                lemma_method_in_class(data@, t, start as int, k);
            }
        }
        let (meth, end) = match parse_method(data, m, cp, Ghost(mt), Ghost(t.cp@)) {
            Some(x) => x,
            None => return None,
        };
        let ghost old_ms = methods@;
        methods.push(meth);
        proof {
            assert(methods@.drop_last() =~= old_ms);
            lemma_split(data@, start as int, m as int, end as int);
            assert forall|i: int, k: int|
                0 <= i < methods@.len() && 0 <= k < methods@[i].attrs@.len() implies method_attr_kind_ok(
                cp@,
                #[trigger] methods@[i].attrs@[k],
            ) by {
                if i < old_ms.len() {
                    assert(methods@[i] == old_ms[i]);
                }
            }
            assert forall|i: int| 0 <= i < methods@.len() implies method_layout_ok(#[trigger] methods@[i]) by {
                if i < old_ms.len() {
                    assert(methods@[i] == old_ms[i]);
                }
            }
            assert forall|i: int| 0 <= i < methods@.len() implies method_fits(#[trigger] methods@[i]) by {
                if i < old_ms.len() {
                    assert(methods@[i] == old_ms[i]);
                }
            }
        }
        m = end;
    }
    proof {
        if has {
            assert(t.methods@.subrange(0, t.methods@.len() as int) =~= t.methods@);
        }
    }
    Some((methods, m))
}

/// Decodes class-file bytes: a class is read exactly when the bytes encode
/// one in the decoder's form (see `decodable`), and what is read is such a
/// class. In particular the decoded class encodes back to exactly `data`.
#[verifier::rlimit(80)]
#[verifier::spinoff_prover]
pub fn decode_class(data: &[u8]) -> (r: Option<ClassFile>)
    ensures
        r matches Some(c) ==> decodable(data@, c),
        r is Some <==> exists|c: ClassFile| #[trigger] decodable(data@, c),
{
    let _n = data.len();
    let ghost has = exists|c: ClassFile| #[trigger] decodable(data@, c);
    let ghost t = choose|c: ClassFile| #[trigger] decodable(data@, c);
    let ghost tp = 8 + encode_cp(t.cp@).len() as int;
    let ghost tq = tp + 8 + 2 * t.interfaces@.len();
    let ghost tf = tq + t.fields@.len();
    proof {
        if has {
            lemma_class_at(data@, t);
        }
    }
    if data.len() < 8 {
        return None;
    }
    let magic = read_u32(data, 0);
    if magic != 0xCAFE_BABE {
        return None;
    }
    let minor = read_u16(data, 4);
    let major = read_u16(data, 6);
    let (cp, p) = match parse_cp(data, 8) {
        Some(x) => x,
        None => return None,
    };
    proof {
        if has {
            assert(cp_at(data@, 8, cp@));
            lemma_cp_unique(data@, 8, cp@, t.cp@);
        }
    }
    if data.len() - p < 8 {
        return None;
    }
    let access = read_u16(data, p);
    let this_class = read_u16(data, p + 2);
    let super_class = read_u16(data, p + 4);
    let icount = read_u16(data, p + 6) as usize;
    let istart = p + 8;
    if icount > (data.len() - istart) / 2 {
        return None;
    }
    let interfaces = parse_interfaces(data, istart, icount);
    let q = istart + 2 * icount;
    proof {
        if has {
            lemma_field_table_shift(data@, tq, t.fields@);
        }
    }
    let fend = match skip_fields(data, q) {
        Some(e) => e,
        None => return None,
    };
    let fields = copy_range(data, q, fend);
    proof {
        lemma_field_table_shift(data@, q as int, fields@);
    }
    if data.len() - fend < 2 {
        return None;
    }
    let mcount = read_u16(data, fend) as usize;
    let mstart = fend + 2;
    let ghost target: Option<ClassFile> = if has {
        Some(t)
    } else {
        None
    };
    proof {
        if has {
            assert(mstart == tf + 2);
        }
    }
    let (methods, m) = match parse_methods(data, mstart, mcount, &cp, Ghost(target)) {
        Some(x) => x,
        None => return None,
    };
    let attrs = copy_range(data, m, data.len());
    let c = ClassFile {
        minor,
        major,
        cp,
        access,
        this_class,
        super_class,
        interfaces,
        fields,
        methods,
        attrs,
    };
    proof {
        lemma_u32_roundtrip(data@, 0);
        lemma_u16_at(data@, 4);
        lemma_u16_at(data@, 6);
        lemma_u16_at(data@, p as int);
        lemma_u16_at(data@, p + 2);
        lemma_u16_at(data@, p + 4);
        lemma_u16_at(data@, p + 6);
        lemma_u16_at(data@, fend as int);
        assert(interfaces@.len() == icount);
        lemma_class_layout(data@, c, p as int, q as int, fend as int, m as int);
        assert(decodable(data@, c));
    }
    Some(c)
}

} // verus!
