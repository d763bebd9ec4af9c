//! Recoloring every palette color definition of a method at once: with
//! colors looked up by name, or with random colors.
use crate::bytecode::cp_float;
use crate::classfile::{ClassFile, Code, Const, Instr, Method, MethodAttr, RawAttr};
use crate::extractor::code_of;
use crate::introspection::{
    find_method_by_sig, find_method_description, find_utf_ldc, method_id_by_sig, sig_string_bytes, spec_method_ref,
    spec_utf_ldc,
};
use crate::bytes::{copy_range, ends_with, has_prefix, has_suffix, starts_with};
use crate::methods::MethodDescription;
use crate::recolor::{
    clear_line_numbers, line_numbers_cleared, method_ref_appended, numbered, push_method_ref, target_code,
};
use crate::text::{bytes_of, str_bytes, utf8_lossy};
use vstd::prelude::*;

verus! {

/// A color as a definition gives it; float components are `f32` bit
/// patterns.
#[derive(PartialEq, Eq, Structural, Clone, Copy, Debug)]
pub enum Color {
    Rgbu(u8, u8, u8),
    HsvfAdjustment(u32, u32, u32),
    Rgbau(u8, u8, u8, u8),
    Grayscale(u8),
}

/// A named color definition.
pub struct ColorDef {
    pub name: String,
    pub color: Color,
}

/// The content of a `ColorDef`.
pub struct ColorDefView {
    pub name: Seq<char>,
    pub color: Color,
}

impl View for ColorDef {
    type V = ColorDefView;

    open spec fn view(&self) -> ColorDefView {
        ColorDefView { name: self.name@, color: self.color }
    }
}

pub open spec fn color_defs_view(v: Seq<ColorDef>) -> Seq<ColorDefView> {
    v.map_values(|d: ColorDef| d@)
}

/// The palette methods a definition may call.
#[derive(PartialEq, Eq, Structural, Clone, Copy, Debug)]
pub enum ColorMethod {
    Rgbu,
    HsvfAdjustment,
    Rgbau,
    Grayscale,
}

impl ColorMethod {
    /// Number of color arguments after the name.
    pub open spec fn args(self) -> int {
        match self {
            ColorMethod::Grayscale => 1,
            ColorMethod::Rgbu => 3,
            ColorMethod::Rgbau => 4,
            ColorMethod::HsvfAdjustment => 3,
        }
    }
}

/// The palette method that instruction `i` invokes, by the first
/// descriptor prefix it matches: `(Ljava/lang/String;I)` grayscale,
/// `(Ljava/lang/String;III)` rgb, `(Ljava/lang/String;IIII)` rgba,
/// `(Ljava/lang/String;FFF)` hsv adjustment.
pub open spec fn color_call(cp: Seq<Const>, i: Instr) -> Option<ColorMethod> {
    match i {
        Instr::Invokevirtual(id) => match spec_method_ref(cp, id) {
            Some(parts) => {
                let s = sig_string_bytes(parts.2);
                if has_prefix(s, str_bytes("(Ljava/lang/String;I)")) {
                    Some(ColorMethod::Grayscale)
                } else if has_prefix(s, str_bytes("(Ljava/lang/String;III)")) {
                    Some(ColorMethod::Rgbu)
                } else if has_prefix(s, str_bytes("(Ljava/lang/String;IIII)")) {
                    Some(ColorMethod::Rgbau)
                } else if has_prefix(s, str_bytes("(Ljava/lang/String;FFF)")) {
                    Some(ColorMethod::HsvfAdjustment)
                } else {
                    None
                }
            },
            None => None,
        },
        _ => None,
    }
}

/// The byte an integer constant instruction pushes (truncated).
pub open spec fn byte_value(i: Instr) -> Option<u8> {
    match i {
        Instr::Iconst(n) => if n <= 5 {
            Some(n)
        } else {
            None
        },
        Instr::Bipush(v) => Some(v as u8),
        Instr::Sipush(v) => Some(v as u8),
        _ => None,
    }
}

/// The `f32` bits a float constant instruction pushes: `fconst_n` or an
/// `ldc` of a float constant.
pub open spec fn float_bits(cp: Seq<Const>, i: Instr) -> Option<u32> {
    match i {
        Instr::Fconst(v) => if v == 0 {
            Some(0u32)
        } else if v == 1 {
            Some(0x3f80_0000u32)
        } else if v == 2 {
            Some(0x4000_0000u32)
        } else {
            None
        },
        Instr::Ldc(ix) => cp_float(cp, ix as int),
        _ => None,
    }
}

/// The color a definition gives, read from the `m.args()` instructions
/// that follow the name load at `b` in `out`. The hsv adjustment reads
/// all three components from the first argument.
pub open spec fn color_at(cp: Seq<Const>, out: Seq<(u32, Instr)>, b: int, m: ColorMethod) -> Option<Color> {
    match m {
        ColorMethod::Rgbu => match (byte_value(out[b + 1].1), byte_value(out[b + 2].1), byte_value(out[b + 3].1)) {
            (Some(r), Some(g), Some(bl)) => Some(Color::Rgbu(r, g, bl)),
            _ => None,
        },
        ColorMethod::HsvfAdjustment => match float_bits(cp, out[b + 1].1) {
            Some(h) => Some(Color::HsvfAdjustment(h, h, h)),
            None => None,
        },
        ColorMethod::Rgbau => match (
            byte_value(out[b + 1].1),
            byte_value(out[b + 2].1),
            byte_value(out[b + 3].1),
            byte_value(out[b + 4].1),
        ) {
            (Some(r), Some(g), Some(bl), Some(a)) => Some(Color::Rgbau(r, g, bl, a)),
            _ => None,
        },
        ColorMethod::Grayscale => match byte_value(out[b + 1].1) {
            Some(v) => Some(Color::Grayscale(v)),
            None => None,
        },
    }
}

/// The replacement color of `name`: that of the first mapping entry, at
/// or after `k`, with that name. (A mapping names each color once, as
/// `bitwig_mapping` makes it from a table without repeated Bitwig names.)
pub open spec fn mapped(mapping: Seq<(String, (u8, u8, u8, u8))>, name: Seq<char>, k: int) -> Option<(u8, u8, u8, u8)>
    decreases mapping.len() - k,
{
    if k < 0 || k >= mapping.len() {
        None
    } else if mapping[k].0@ == name {
        Some(mapping[k].1)
    } else {
        mapped(mapping, name, k + 1)
    }
}

/// Where a rewrite stands: instructions so far, next position, color
/// definitions found, and whether it can go on.
pub type ColorizeState = (Seq<(u32, Instr)>, int, Seq<ColorDefView>, bool);

/// One instruction of the rewrite. A palette call is preceded by an `ldc`
/// of its name and its arguments; its definition is recorded and, when
/// the name is mapped, the arguments are replaced by the mapped rgba
/// components and the call by one of `mid`. Without a name load there
/// (or a readable color) the rewrite cannot go on.
pub open spec fn colorize_step(
    cp: Seq<Const>,
    mapping: Seq<(String, (u8, u8, u8, u8))>,
    mid: u16,
    st: ColorizeState,
    ix: Instr,
) -> ColorizeState {
    let (out, pos, defs, ok) = st;
    if !ok {
        st
    } else {
        match color_call(cp, ix) {
            None => (out.push((pos as u32, ix)), pos + 1, defs, true),
            Some(m) => {
                let n = out.len() as int;
                let b = n - 1 - m.args();
                if b < 0 {
                    (out, pos, defs, false)
                } else {
                    match out[b].1 {
                        Instr::Ldc(id) => match (spec_utf_ldc(cp, id as u16), color_at(cp, out, b, m)) {
                            (Some(t), Some(c)) => {
                                let name = utf8_lossy(t);
                                let defs2 = defs.push(ColorDefView { name, color: c });
                                match mapped(mapping, name, 0) {
                                    Some((r, g, bl, a)) => (
                                        out.subrange(0, b + 1) + seq![
                                            (pos as u32, Instr::Sipush(r as i16)),
                                            ((pos + 1) as u32, Instr::Sipush(g as i16)),
                                            ((pos + 2) as u32, Instr::Sipush(bl as i16)),
                                            ((pos + 3) as u32, Instr::Sipush(a as i16)),
                                            ((pos + 4) as u32, Instr::Invokevirtual(mid)),
                                        ],
                                        pos + 5,
                                        defs2,
                                        true,
                                    ),
                                    None => (out.push((pos as u32, ix)), pos + 1, defs2, true),
                                }
                            },
                            _ => (out, pos, defs, false),
                        },
                        _ => (out, pos, defs, false),
                    }
                }
            },
        }
    }
}

/// The rewrite after the first `k` instructions of `bc`.
pub open spec fn colorize_fold(
    cp: Seq<Const>,
    bc: Seq<(u32, Instr)>,
    mapping: Seq<(String, (u8, u8, u8, u8))>,
    mid: u16,
    k: int,
) -> ColorizeState
    decreases k,
{
    if k <= 0 {
        (seq![], 0, seq![], true)
    } else {
        colorize_step(cp, mapping, mid, colorize_fold(cp, bc, mapping, mid, k - 1), bc[k - 1].1)
    }
}

fn call_args(m: ColorMethod) -> (a: usize)
    ensures
        a == m.args(),
{
    match m {
        ColorMethod::Grayscale => 1,
        ColorMethod::Rgbu => 3,
        ColorMethod::Rgbau => 4,
        ColorMethod::HsvfAdjustment => 3,
    }
}

/// The palette method `i` invokes (see `color_call`).
fn color_call_of(cp: &Vec<Const>, i: &Instr) -> (r: Option<ColorMethod>)
    ensures
        r == color_call(cp@, *i),
{
    let id = match i {
        Instr::Invokevirtual(id) => *id,
        _ => return None,
    };
    let desc = match find_method_description(cp, id, None) {
        Some(d) => d,
        None => return None,
    };
    let s = bytes_of(&desc.signature);
    if starts_with(s, "(Ljava/lang/String;I)".as_bytes()) {
        Some(ColorMethod::Grayscale)
    } else if starts_with(s, "(Ljava/lang/String;III)".as_bytes()) {
        Some(ColorMethod::Rgbu)
    } else if starts_with(s, "(Ljava/lang/String;IIII)".as_bytes()) {
        Some(ColorMethod::Rgbau)
    } else if starts_with(s, "(Ljava/lang/String;FFF)".as_bytes()) {
        Some(ColorMethod::HsvfAdjustment)
    } else {
        None
    }
}

fn byte_of(i: &Instr) -> (r: Option<u8>)
    ensures
        r == byte_value(*i),
{
    match i {
        Instr::Iconst(n) => if *n <= 5 {
            Some(*n)
        } else {
            None
        },
        Instr::Bipush(v) => Some(*v as u8),
        Instr::Sipush(v) => Some(*v as u8),
        _ => None,
    }
}

fn float_bits_of(cp: &Vec<Const>, i: &Instr) -> (r: Option<u32>)
    ensures
        r == float_bits(cp@, *i),
{
    match i {
        Instr::Fconst(v) => if *v == 0 {
            Some(0u32)
        } else if *v == 1 {
            Some(0x3f80_0000u32)
        } else if *v == 2 {
            Some(0x4000_0000u32)
        } else {
            None
        },
        Instr::Ldc(ix) => {
            let ix = *ix as usize;
            if ix < cp.len() {
                match &cp[ix] {
                    Const::Float(v) => if (*v / 0x80_0000) % 256 == 255 && *v % 0x80_0000 != 0 {
                        None
                    } else {
                        Some(*v)
                    },
                    _ => None,
                }
            } else {
                None
            }
        },
        _ => None,
    }
}

fn color_of(cp: &Vec<Const>, out: &Vec<(u32, Instr)>, b: usize, m: ColorMethod) -> (r: Option<Color>)
    requires
        b + m.args() < out@.len(),
    ensures
        r == color_at(cp@, out@, b as int, m),
{
    let _n = out.len();
    match m {
        ColorMethod::Rgbu => match (byte_of(&out[b + 1].1), byte_of(&out[b + 2].1), byte_of(&out[b + 3].1)) {
            (Some(r), Some(g), Some(bl)) => Some(Color::Rgbu(r, g, bl)),
            _ => None,
        },
        ColorMethod::HsvfAdjustment => match float_bits_of(cp, &out[b + 1].1) {
            Some(h) => Some(Color::HsvfAdjustment(h, h, h)),
            None => None,
        },
        ColorMethod::Rgbau => match (
            byte_of(&out[b + 1].1),
            byte_of(&out[b + 2].1),
            byte_of(&out[b + 3].1),
            byte_of(&out[b + 4].1),
        ) {
            (Some(r), Some(g), Some(bl), Some(a)) => Some(Color::Rgbau(r, g, bl, a)),
            _ => None,
        },
        ColorMethod::Grayscale => match byte_of(&out[b + 1].1) {
            Some(v) => Some(Color::Grayscale(v)),
            None => None,
        },
    }
}

fn mapped_color(mapping: &Vec<(String, (u8, u8, u8, u8))>, name: &String) -> (r: Option<(u8, u8, u8, u8)>)
    ensures
        r == mapped(mapping@, name@, 0),
{
    let mut k: usize = 0;
    while k < mapping.len()
        invariant
            k <= mapping@.len(),
            mapped(mapping@, name@, 0) == mapped(mapping@, name@, k as int),
        decreases mapping@.len() - k,
    {
        if mapping[k].0 == *name {
            return Some(mapping[k].1);
        }
        k += 1;
    }
    None
}

/// The elements of `v` in reverse order.
fn reversed<T>(v: Vec<T>) -> (r: Vec<T>)
    ensures
        r@.len() == v@.len(),
        forall|j: int| 0 <= j < v@.len() ==> #[trigger] r@[j] == v@[v@.len() - 1 - j],
{
    let ghost s = v@;
    let n = v.len();
    let mut rest = v;
    let mut rev: Vec<T> = Vec::new();
    while rest.len() > 0
        invariant
            rev@.len() + rest@.len() == n,
            n == s.len(),
            rest@ == s.subrange(0, rest@.len() as int),
            forall|j: int| 0 <= j < rev@.len() ==> #[trigger] rev@[j] == s[n - 1 - j],
        decreases rest@.len(),
    {
        match rest.pop() {
            Some(x) => rev.push(x),
            None => {},
        }
    }
    rev
}

/// Once the rewrite cannot go on, it stays so.
proof fn lemma_colorize_stuck(
    cp: Seq<Const>,
    bc: Seq<(u32, Instr)>,
    mapping: Seq<(String, (u8, u8, u8, u8))>,
    mid: u16,
    k: int,
    m: int,
)
    requires
        0 <= k <= m,
        !colorize_fold(cp, bc, mapping, mid, k).3,
    ensures
        !colorize_fold(cp, bc, mapping, mid, m).3,
    decreases m - k,
{
    if k < m {
        lemma_colorize_stuck(cp, bc, mapping, mid, k, m - 1);
    }
}

/// Runs the rewrite over `bc` (see `colorize_fold`): the new
/// instructions and the definitions found, or `None` when it cannot go on.
fn colorize_code(
    cp: &Vec<Const>,
    bc: Vec<(u32, Instr)>,
    mapping: &Vec<(String, (u8, u8, u8, u8))>,
    mid: u16,
) -> (r: Option<(Vec<(u32, Instr)>, Vec<ColorDef>)>)
    requires
        bc@.len() * 5 + 5 <= u32::MAX,
    ensures
        r is Some <==> colorize_fold(cp@, bc@, mapping@, mid, bc@.len() as int).3,
        r matches Some((o, d)) ==> o@ == colorize_fold(cp@, bc@, mapping@, mid, bc@.len() as int).0
            && color_defs_view(d@) == colorize_fold(cp@, bc@, mapping@, mid, bc@.len() as int).2,
{
    let ghost s = bc@;
    let n = bc.len();
    let mut rev = reversed(bc);
    let mut out: Vec<(u32, Instr)> = Vec::new();
    let mut defs: Vec<ColorDef> = Vec::new();
    let mut pos: u32 = 0;
    while rev.len() > 0
        invariant
            rev@.len() <= n,
            n == s.len(),
            s == bc@,
            n * 5 + 5 <= u32::MAX,
            forall|j: int| 0 <= j < rev@.len() ==> #[trigger] rev@[j] == s[n - 1 - j],
            colorize_fold(cp@, s, mapping@, mid, n - rev@.len()) == (out@, pos as int, color_defs_view(defs@), true),
            pos <= 5 * (n - rev@.len()),
            out@.len() <= pos,
        decreases rev@.len(),
    {
        let ghost i = n - rev@.len();
        let ix = match rev.pop() {
            Some((_, ix)) => ix,
            None => return None,
        };
        assert(ix == s[i].1);
        let ghost before = (out@, pos as int, color_defs_view(defs@), true);
        match color_call_of(cp, &ix) {
            None => {
                out.push((pos, ix));
                pos += 1;
            },
            Some(m) => {
                let a = call_args(m);
                let len = out.len();
                if len < a + 1 {
                    proof {
                        assert(colorize_fold(cp@, s, mapping@, mid, i + 1) == colorize_step(cp@, mapping@, mid, before, ix));
                        assert(!colorize_fold(cp@, s, mapping@, mid, i + 1).3);
                        lemma_colorize_stuck(cp@, s, mapping@, mid, i + 1, n as int);
                    }
                    return None;
                }
                let b = len - 1 - a;
                let id = match &out[b].1 {
                    Instr::Ldc(id) => *id,
                    _ => {
                        proof {
                            lemma_colorize_stuck(cp@, s, mapping@, mid, i + 1, n as int);
                        }
                        return None;
                    },
                };
                let name = match find_utf_ldc(cp, id as u16) {
                    Some(t) => t,
                    None => {
                        proof {
                            lemma_colorize_stuck(cp@, s, mapping@, mid, i + 1, n as int);
                        }
                        return None;
                    },
                };
                let c = match color_of(cp, &out, b, m) {
                    Some(c) => c,
                    None => {
                        proof {
                            lemma_colorize_stuck(cp@, s, mapping@, mid, i + 1, n as int);
                        }
                        return None;
                    },
                };
                match mapped_color(mapping, &name) {
                    Some((r, g, bl, al)) => {
                        let ghost kept = out@.subrange(0, b + 1);
                        out.truncate(b + 1);
                        out.push((pos, Instr::Sipush(r as i16)));
                        out.push((pos + 1, Instr::Sipush(g as i16)));
                        out.push((pos + 2, Instr::Sipush(bl as i16)));
                        out.push((pos + 3, Instr::Sipush(al as i16)));
                        out.push((pos + 4, Instr::Invokevirtual(mid)));
                        pos += 5;
                        assert(out@ =~= kept + seq![
                            ((pos - 5) as u32, Instr::Sipush(r as i16)),
                            ((pos - 4) as u32, Instr::Sipush(g as i16)),
                            ((pos - 3) as u32, Instr::Sipush(bl as i16)),
                            ((pos - 2) as u32, Instr::Sipush(al as i16)),
                            ((pos - 1) as u32, Instr::Invokevirtual(mid)),
                        ]);
                    },
                    None => {
                        out.push((pos, ix));
                        pos += 1;
                    },
                }
                let ghost dv = defs@;
                defs.push(ColorDef { name, color: c });
                assert(color_defs_view(defs@) =~= color_defs_view(dv).push(defs@.last()@));
            },
        }
    }
    Some((out, defs))
}

/// An instruction with its switch tables dropped: the rewrites treat
/// switches like any other instruction that is neither a call nor a
/// constant.
pub open spec fn lite(i: Instr) -> Instr {
    match i {
        Instr::Tableswitch(_, _, _, _) => Instr::Simple(0),
        Instr::Lookupswitch(_, _) => Instr::Simple(0),
        _ => i,
    }
}

pub open spec fn lite_code(s: Seq<(u32, Instr)>) -> Seq<(u32, Instr)> {
    s.map_values(|p: (u32, Instr)| (p.0, lite(p.1)))
}

pub open spec fn lite_state(st: ColorizeState) -> ColorizeState {
    (lite_code(st.0), st.1, st.2, st.3)
}

proof fn lemma_lite_step(
    cp: Seq<Const>,
    mapping: Seq<(String, (u8, u8, u8, u8))>,
    mid: u16,
    st: ColorizeState,
    ix: Instr,
)
    ensures
        colorize_step(cp, mapping, mid, lite_state(st), lite(ix)) == lite_state(colorize_step(cp, mapping, mid, st, ix)),
{
    let (out, pos, defs, ok) = st;
    let lo = lite_code(out);
    assert(color_call(cp, lite(ix)) == color_call(cp, ix));
    if ok {
        match color_call(cp, ix) {
            None => {
                assert(lite_code(out.push((pos as u32, ix))) =~= lo.push((pos as u32, lite(ix))));
            },
            Some(m) => {
                let n = out.len() as int;
                let b = n - 1 - m.args();
                if b >= 0 {
                    assert(lo[b].1 == lite(out[b].1));
                    assert(color_at(cp, lo, b, m) == color_at(cp, out, b, m)) by {
                        assert forall|t: int| 0 <= t < n implies #[trigger] lo[t].1 == lite(out[t].1) by {}
                    }
                    assert(lite_code(out.push((pos as u32, ix))) =~= lo.push((pos as u32, lite(ix))));
                    match out[b].1 {
                        Instr::Ldc(id) => match (spec_utf_ldc(cp, id as u16), color_at(cp, out, b, m)) {
                            (Some(t), Some(c)) => {
                                let name = utf8_lossy(t);
                                match mapped(mapping, name, 0) {
                                    Some((r, g, bl, al)) => {
                                        let tail = seq![
                                            (pos as u32, Instr::Sipush(r as i16)),
                                            ((pos + 1) as u32, Instr::Sipush(g as i16)),
                                            ((pos + 2) as u32, Instr::Sipush(bl as i16)),
                                            ((pos + 3) as u32, Instr::Sipush(al as i16)),
                                            ((pos + 4) as u32, Instr::Invokevirtual(mid)),
                                        ];
                                        assert(lite_code(out.subrange(0, b + 1) + tail) =~= lo.subrange(0, b + 1) + tail);
                                    },
                                    None => {},
                                }
                            },
                            _ => {},
                        },
                        _ => {},
                    }
                }
            },
        }
    }
}

/// The rewrite runs the same way on the code with its switch tables
/// dropped.
proof fn lemma_lite_fold(
    cp: Seq<Const>,
    bc: Seq<(u32, Instr)>,
    mapping: Seq<(String, (u8, u8, u8, u8))>,
    mid: u16,
    k: int,
)
    requires
        0 <= k <= bc.len(),
    ensures
        colorize_fold(cp, lite_code(bc), mapping, mid, k) == lite_state(colorize_fold(cp, bc, mapping, mid, k)),
    decreases k,
{
    if k == 0 {
        assert(lite_code(seq![]) =~= seq![]);
    } else {
        lemma_lite_fold(cp, bc, mapping, mid, k - 1);
        lemma_lite_step(cp, mapping, mid, colorize_fold(cp, bc, mapping, mid, k - 1), bc[k - 1].1);
    }
}

fn lite_instr(i: &Instr) -> (r: Instr)
    ensures
        r == lite(*i),
{
    match i {
        Instr::Iconst(a) => Instr::Iconst(*a),
        Instr::Lconst(a) => Instr::Lconst(*a),
        Instr::Fconst(a) => Instr::Fconst(*a),
        Instr::Dconst(a) => Instr::Dconst(*a),
        Instr::Aload(a) => Instr::Aload(*a),
        Instr::Bipush(a) => Instr::Bipush(*a),
        Instr::Sipush(a) => Instr::Sipush(*a),
        Instr::Ldc(a) => Instr::Ldc(*a),
        Instr::LdcW(a) => Instr::LdcW(*a),
        Instr::Ldc2W(a) => Instr::Ldc2W(*a),
        Instr::Invokevirtual(a) => Instr::Invokevirtual(*a),
        Instr::Invokespecial(a) => Instr::Invokespecial(*a),
        Instr::Putstatic(a) => Instr::Putstatic(*a),
        Instr::Goto(a) => Instr::Goto(*a),
        Instr::GotoW(a) => Instr::GotoW(*a),
        Instr::Simple(a) => Instr::Simple(*a),
        Instr::Local(a, b) => Instr::Local(*a, *b),
        Instr::Iinc(a, b) => Instr::Iinc(*a, *b),
        Instr::Branch(a, b) => Instr::Branch(*a, *b),
        Instr::JsrW(a) => Instr::JsrW(*a),
        Instr::CpRef(a, b) => Instr::CpRef(*a, *b),
        Instr::InvokeInterface(a, b, c) => Instr::InvokeInterface(*a, *b, *c),
        Instr::InvokeDynamic(a, b) => Instr::InvokeDynamic(*a, *b),
        Instr::Newarray(a) => Instr::Newarray(*a),
        Instr::Multianewarray(a, b) => Instr::Multianewarray(*a, *b),
        Instr::WideLocal(a, b) => Instr::WideLocal(*a, *b),
        Instr::WideIinc(a, b) => Instr::WideIinc(*a, *b),
        Instr::Tableswitch(_, _, _, _) => Instr::Simple(0),
        Instr::Lookupswitch(_, _) => Instr::Simple(0),
    }
}

fn lite_copy(bc: &Vec<(u32, Instr)>) -> (r: Vec<(u32, Instr)>)
    ensures
        r@ == lite_code(bc@),
{
    let mut r: Vec<(u32, Instr)> = Vec::new();
    let mut k: usize = 0;
    while k < bc.len()
        invariant
            k <= bc@.len(),
            r@ == lite_code(bc@.subrange(0, k as int)),
        decreases bc@.len() - k,
    {
        let ghost before = r@;
        let x = lite_instr(&bc[k].1);
        r.push((bc[k].0, x));
        assert(lite_code(bc@.subrange(0, k + 1)) =~= before.push((bc@[k as int].0, lite(bc@[k as int].1))));
        k += 1;
    }
    assert(bc@.subrange(0, bc@.len() as int) =~= bc@);
    r
}

/// Why a method could not be colorized.
pub enum ColorizeError {
    /// The class has no method at this index.
    NoMethod(usize),
    /// The method has no attribute.
    NoFirstAttr,
    /// The method's first attribute is not its code.
    NotCode,
}

/// The id of the rgba method the new definitions invoke: the one the
/// class already invokes, or the appended one.
pub open spec fn rgba_method_id(c: ClassFile) -> u16 {
    match method_id_by_sig(c, str_bytes("(Ljava/lang/String;IIII)")) {
        Some(id) => id,
        None => (c.cp@.len() + 5) as u16,
    }
}

/// What `colorize_class` requires: room for the appended entries and the
/// positions, and a rewrite that can go on to the end of the method's code.
pub open spec fn colorize_ok(c: ClassFile, method_idx: usize, mapping: Seq<(String, (u8, u8, u8, u8))>) -> bool {
    &&& c.cp@.len() + 6 <= usize::MAX
    &&& match target_code(c, method_idx) {
        Some(bc) => bc.len() * 5 + 5 <= u32::MAX && colorize_fold(c.cp@, bc, mapping, rgba_method_id(c), bc.len() as int).3,
        None => true,
    }
}

/// The outcome of `colorize_class`.
pub open spec fn colorized(
    c0: ClassFile,
    c1: ClassFile,
    method_idx: usize,
    desc: MethodDescription,
    mapping: Seq<(String, (u8, u8, u8, u8))>,
    r: Result<Vec<ColorDef>, ColorizeError>,
) -> bool {
    let n = c0.cp@.len() as int;
    let appends = method_id_by_sig(c0, str_bytes("(Ljava/lang/String;IIII)")) is None;
    &&& forall|j: int| 0 <= j < n ==> #[trigger] c1.cp@[j] == c0.cp@[j]
    &&& appends ==> c1.cp@.len() == n + 6 && method_ref_appended(c1.cp@, n, desc)
    &&& !appends ==> c1.cp@.len() == n
    &&& c1.minor == c0.minor && c1.major == c0.major && c1.access == c0.access
    &&& c1.this_class == c0.this_class && c1.super_class == c0.super_class
    &&& c1.interfaces == c0.interfaces && c1.fields == c0.fields && c1.attrs == c0.attrs
    &&& if method_idx >= c0.methods@.len() {
        r matches Err(ColorizeError::NoMethod(i)) && i == method_idx && c1.methods == c0.methods
    } else if c0.methods@[method_idx as int].attrs@.len() == 0 {
        r matches Err(ColorizeError::NoFirstAttr) && c1.methods == c0.methods
    } else if c0.methods@[method_idx as int].attrs@[0] is Raw {
        r matches Err(ColorizeError::NotCode) && c1.methods == c0.methods
    } else {
        let m0 = c0.methods@[method_idx as int];
        let m1 = c1.methods@[method_idx as int];
        let bc = code_of(m0)->0;
        let st = colorize_fold(c0.cp@, bc, mapping, rgba_method_id(c0), bc.len() as int);
        &&& r matches Ok(defs) && color_defs_view(defs@) == st.2
        &&& c1.methods@.len() == c0.methods@.len()
        &&& forall|j: int| 0 <= j < c0.methods@.len() && j != method_idx ==> #[trigger] c1.methods@[j] == c0.methods@[j]
        &&& m1.access == m0.access && m1.name == m0.name && m1.desc == m0.desc
        &&& m1.attrs@.len() == m0.attrs@.len()
        &&& forall|j: int| 1 <= j < m0.attrs@.len() ==> #[trigger] m1.attrs@[j] == m0.attrs@[j]
        &&& match (m0.attrs@[0], m1.attrs@[0]) {
            (MethodAttr::Code(n0, k0), MethodAttr::Code(n1, k1)) => {
                &&& n1 == n0
                &&& k1.max_stack == k0.max_stack
                &&& k1.max_locals == k0.max_locals
                &&& k1.exception_table == k0.exception_table
                &&& k1.bytecode@ == st.0
                &&& line_numbers_cleared(c0.cp@, k0.attrs@, k1.attrs@)
            },
            _ => false,
        }
    }
}

/// Rewrites the code of `m` (see `colorize_fold`) and clears its line
/// numbers.
fn colorize_method(cp: &Vec<Const>, m: Method, mapping: &Vec<(String, (u8, u8, u8, u8))>, mid: u16) -> (r: (
    Method,
    Vec<ColorDef>,
))
    requires
        code_of(m) matches Some(bc) && bc.len() * 5 + 5 <= u32::MAX && colorize_fold(cp@, bc, mapping@, mid, bc.len() as int).3,
    ensures
        ({
            let bc = code_of(m)->0;
            let st = colorize_fold(cp@, bc, mapping@, mid, bc.len() as int);
            &&& color_defs_view(r.1@) == st.2
            &&& r.0.access == m.access && r.0.name == m.name && r.0.desc == m.desc
            &&& r.0.attrs@.len() == m.attrs@.len()
            &&& forall|j: int| 1 <= j < m.attrs@.len() ==> #[trigger] r.0.attrs@[j] == m.attrs@[j]
            &&& match (m.attrs@[0], r.0.attrs@[0]) {
                (MethodAttr::Code(n0, k0), MethodAttr::Code(n1, k1)) => {
                    &&& n1 == n0
                    &&& k1.max_stack == k0.max_stack
                    &&& k1.max_locals == k0.max_locals
                    &&& k1.exception_table == k0.exception_table
                    &&& k1.bytecode@ == st.0
                    &&& line_numbers_cleared(cp@, k0.attrs@, k1.attrs@)
                },
                _ => false,
            }
        }),
{
    let mut m = m;
    let mut a = MethodAttr::Raw(RawAttr { name: 0, data: Vec::new() });
    m.attrs.set_and_swap(0, &mut a);
    let (attr_name, code) = match a {
        MethodAttr::Code(nm, code) => (nm, code),
        MethodAttr::Raw(_) => {
            assert(false);
            return (m, Vec::new());
        },
    };
    let Code { max_stack, max_locals, bytecode, exception_table, attrs } = code;
    let (new_bc, defs) = match colorize_code(cp, bytecode, mapping, mid) {
        Some(x) => x,
        None => {
            assert(false);
            return (m, Vec::new());
        },
    };
    let mut attrs = attrs;
    clear_line_numbers(cp, &mut attrs);
    let mut a2 = MethodAttr::Code(attr_name, Code { max_stack, max_locals, bytecode: new_bc, exception_table, attrs });
    m.attrs.set_and_swap(0, &mut a2);
    (m, defs)
}

/// Recolors every palette color definition in method `method_idx` (see
/// `colorize_fold`): definitions whose name `mapping` lists are rewritten
/// to that rgba color with the rgba method; the definitions found are
/// returned. The rgba method is the one the class invokes, else a
/// reference to `rgba_method_desc` is appended to the constant pool.
pub fn colorize_class(
    class: &mut ClassFile,
    method_idx: usize,
    rgba_method_desc: &MethodDescription,
    mapping: &Vec<(String, (u8, u8, u8, u8))>,
) -> (r: Result<Vec<ColorDef>, ColorizeError>)
    requires
        colorize_ok(*old(class), method_idx, mapping@),
    ensures
        colorized(*old(class), *final(class), method_idx, *rgba_method_desc, mapping@, r),
{
    let ghost c0 = *class;
    let found = find_method_by_sig(class, "(Ljava/lang/String;IIII)", "");
    let n = class.cp.len();
    let (mid, appends) = match found {
        Some((id, _)) => (id, false),
        None => ((n + 5) as u16, true),
    };
    let err = if method_idx >= class.methods.len() {
        Some(ColorizeError::NoMethod(method_idx))
    } else if class.methods[method_idx].attrs.len() == 0 {
        Some(ColorizeError::NoFirstAttr)
    } else {
        match &class.methods[method_idx].attrs[0] {
            MethodAttr::Code(_, _) => None,
            MethodAttr::Raw(_) => Some(ColorizeError::NotCode),
        }
    };
    if let Some(e) = err {
        if appends {
            push_method_ref(&mut class.cp, rgba_method_desc);
        }
        return Err(e);
    }
    let mut m = Method { access: 0, name: 0, desc: 0, attrs: Vec::new() };
    class.methods.set_and_swap(method_idx, &mut m);
    let (mut m1, defs) = colorize_method(&class.cp, m, mapping, mid);
    class.methods.set_and_swap(method_idx, &mut m1);
    if appends {
        push_method_ref(&mut class.cp, rgba_method_desc);
    }
    Ok(defs)
}

/// Whether `colorize_class` accepts these inputs (see `colorize_ok`).
pub fn can_colorize_class(class: &ClassFile, method_idx: usize, mapping: &Vec<(String, (u8, u8, u8, u8))>) -> (r: bool)
    ensures
        r == colorize_ok(*class, method_idx, mapping@),
{
    if class.cp.len() > usize::MAX - 6 {
        return false;
    }
    if method_idx >= class.methods.len() || class.methods[method_idx].attrs.len() == 0 {
        return true;
    }
    let bc = match &class.methods[method_idx].attrs[0] {
        MethodAttr::Code(_, code) => &code.bytecode,
        MethodAttr::Raw(_) => return true,
    };
    if bc.len() > 0x3333_3332 {
        return false;
    }
    let n = class.cp.len();
    let mid = match find_method_by_sig(class, "(Ljava/lang/String;IIII)", "") {
        Some((id, _)) => id,
        None => (n + 5) as u16,
    };
    let lite = lite_copy(bc);
    proof {
        lemma_lite_fold(class.cp@, bc@, mapping@, mid, bc@.len() as int);
    }
    colorize_code(&class.cp, lite, mapping, mid).is_some()
}

/// The number of arguments of the palette call that instruction `i` makes,
/// for the calls the random recoloring rewrites: `(Ljava/lang/String;I)`
/// 1, `(Ljava/lang/String;III)` 3, `(Ljava/lang/String;FFF)` 3.
pub open spec fn random_call_args(cp: Seq<Const>, i: Instr) -> Option<int> {
    match i {
        Instr::Invokevirtual(id) => match spec_method_ref(cp, id) {
            Some(parts) => {
                let s = sig_string_bytes(parts.2);
                if has_prefix(s, str_bytes("(Ljava/lang/String;I)")) {
                    Some(1)
                } else if has_prefix(s, str_bytes("(Ljava/lang/String;III)")) {
                    Some(3)
                } else if has_prefix(s, str_bytes("(Ljava/lang/String;FFF)")) {
                    Some(3)
                } else {
                    None
                }
            },
            None => None,
        },
        _ => None,
    }
}

/// Where a random rewrite stands: instructions so far, next position,
/// random bytes used, and whether it can go on.
pub type RandomizeState = (Seq<(u32, Instr)>, int, int, bool);

/// One instruction of the random rewrite: a palette call's arguments are
/// replaced by the next three bytes of `rs` and the call by one of `mid`;
/// with fewer instructions than arguments before it, the rewrite cannot
/// go on.
pub open spec fn randomize_step(cp: Seq<Const>, rs: Seq<u8>, mid: u16, st: RandomizeState, ix: Instr) -> RandomizeState {
    let (out, pos, used, ok) = st;
    if !ok {
        st
    } else {
        match random_call_args(cp, ix) {
            None => (out.push((pos as u32, ix)), pos + 1, used, true),
            Some(a) => if out.len() < a {
                (out, pos, used, false)
            } else {
                (
                    out.subrange(0, out.len() - a) + seq![
                        (pos as u32, Instr::Sipush(rs[used] as i16)),
                        ((pos + 1) as u32, Instr::Sipush(rs[used + 1] as i16)),
                        ((pos + 2) as u32, Instr::Sipush(rs[used + 2] as i16)),
                        ((pos + 3) as u32, Instr::Invokevirtual(mid)),
                    ],
                    pos + 4,
                    used + 3,
                    true,
                )
            },
        }
    }
}

/// The random rewrite after the first `k` instructions of `bc`.
pub open spec fn randomize_fold(cp: Seq<Const>, bc: Seq<(u32, Instr)>, rs: Seq<u8>, mid: u16, k: int) -> RandomizeState
    decreases k,
{
    if k <= 0 {
        (seq![], 0, 0, true)
    } else {
        randomize_step(cp, rs, mid, randomize_fold(cp, bc, rs, mid, k - 1), bc[k - 1].1)
    }
}

/// Length of the rewritten code after the first `k` instructions, and
/// whether the random rewrite can go on; neither depends on the bytes.
pub open spec fn randomize_shape(cp: Seq<Const>, bc: Seq<(u32, Instr)>, k: int) -> (int, bool)
    decreases k,
{
    if k <= 0 {
        (0, true)
    } else {
        let (len, ok) = randomize_shape(cp, bc, k - 1);
        if !ok {
            (len, false)
        } else {
            match random_call_args(cp, bc[k - 1].1) {
                None => (len + 1, true),
                Some(a) => if len < a {
                    (len, false)
                } else {
                    (len - a + 4, true)
                },
            }
        }
    }
}

proof fn lemma_randomize_shape(cp: Seq<Const>, bc: Seq<(u32, Instr)>, rs: Seq<u8>, mid: u16, k: int)
    requires
        0 <= k,
    ensures
        randomize_fold(cp, bc, rs, mid, k).0.len() == randomize_shape(cp, bc, k).0,
        randomize_fold(cp, bc, rs, mid, k).3 == randomize_shape(cp, bc, k).1,
        randomize_fold(cp, bc, rs, mid, k).1 <= 4 * k,
        randomize_fold(cp, bc, rs, mid, k).2 <= 3 * k,
        randomize_fold(cp, bc, rs, mid, k).0.len() <= randomize_fold(cp, bc, rs, mid, k).1,
    decreases k,
{
    if k > 0 {
        lemma_randomize_shape(cp, bc, rs, mid, k - 1);
    }
}

/// What `randomize_class` requires: room for the appended entries and the
/// positions, and a rewrite that can go on to the end of the method's code.
pub open spec fn randomize_ok(c: ClassFile, method_idx: usize) -> bool {
    &&& c.cp@.len() + 6 <= usize::MAX
    &&& match target_code(c, method_idx) {
        Some(bc) => bc.len() * 4 + 4 <= u32::MAX && randomize_shape(c.cp@, bc, bc.len() as int).1,
        None => true,
    }
}

/// A random byte, from `rand::random::<u8>()`; nothing is known of it.
#[verifier::external_body]
fn random_byte() -> u8 {
    rand::random::<u8>()
}

fn random_args_of(cp: &Vec<Const>, i: &Instr) -> (r: Option<usize>)
    ensures
        match random_call_args(cp@, *i) {
            Some(a) => r == Some(a as usize),
            None => r is None,
        },
{
    let id = match i {
        Instr::Invokevirtual(id) => *id,
        _ => return None,
    };
    let desc = match find_method_description(cp, id, None) {
        Some(d) => d,
        None => return None,
    };
    let s = bytes_of(&desc.signature);
    if starts_with(s, "(Ljava/lang/String;I)".as_bytes()) {
        Some(1)
    } else if starts_with(s, "(Ljava/lang/String;III)".as_bytes()) {
        Some(3)
    } else if starts_with(s, "(Ljava/lang/String;FFF)".as_bytes()) {
        Some(3)
    } else {
        None
    }
}

/// Once the random rewrite cannot go on, it stays so.
proof fn lemma_shape_stuck(cp: Seq<Const>, bc: Seq<(u32, Instr)>, k: int, m: int)
    requires
        0 <= k <= m,
        !randomize_shape(cp, bc, k).1,
    ensures
        !randomize_shape(cp, bc, m).1,
    decreases m - k,
{
    if k < m {
        lemma_shape_stuck(cp, bc, k, m - 1);
    }
}

/// Runs the random rewrite over `bc`; the bytes it draws are some `rs`.
fn randomize_code(cp: &Vec<Const>, bc: Vec<(u32, Instr)>, mid: u16) -> (r: Vec<(u32, Instr)>)
    requires
        bc@.len() * 4 + 4 <= u32::MAX,
        randomize_shape(cp@, bc@, bc@.len() as int).1,
    ensures
        exists|rs: Seq<u8>| #[trigger] randomize_fold(cp@, bc@, rs, mid, bc@.len() as int).0 == r@,
{
    let ghost s = bc@;
    let n = bc.len();
    let mut rev = reversed(bc);
    let mut out: Vec<(u32, Instr)> = Vec::new();
    let mut pos: u32 = 0;
    let ghost mut rs: Seq<u8> = seq![];
    while rev.len() > 0
        invariant
            rev@.len() <= n,
            n == s.len(),
            s == bc@,
            n * 4 + 4 <= u32::MAX,
            randomize_shape(cp@, s, n as int).1,
            forall|j: int| 0 <= j < rev@.len() ==> #[trigger] rev@[j] == s[n - 1 - j],
            forall|more: Seq<u8>| #[trigger] randomize_fold(cp@, s, rs + more, mid, n - rev@.len()) == (
                out@,
                pos as int,
                rs.len() as int,
                true,
            ),
            pos <= 4 * (n - rev@.len()),
            out@.len() <= pos,
        decreases rev@.len(),
    {
        let ghost i = n - rev@.len();
        let ghost out0 = out@;
        let ghost pos0 = pos as int;
        let ghost rs0 = rs;
        let ix = match rev.pop() {
            Some((_, ix)) => ix,
            None => return out,
        };
        assert(ix == s[i].1);
        proof {
            if !randomize_shape(cp@, s, i + 1).1 {
                lemma_shape_stuck(cp@, s, i + 1, n as int);
            }
            lemma_randomize_shape(cp@, s, rs0, mid, i);
            assert(rs0 + seq![] =~= rs0);
            assert(randomize_fold(cp@, s, rs0 + seq![], mid, i) == (out0, pos0, rs0.len() as int, true));
        }
        match random_args_of(cp, &ix) {
            None => {
                out.push((pos, ix));
                pos += 1;
                proof {
                    assert forall|more: Seq<u8>| #[trigger] randomize_fold(cp@, s, rs + more, mid, i + 1) == (
                        out@,
                        pos as int,
                        rs.len() as int,
                        true,
                    ) by {
                        assert(randomize_fold(cp@, s, rs0 + more, mid, i) == (out0, pos0, rs0.len() as int, true));
                    }
                }
            },
            Some(a) => {
                let x = random_byte();
                let y = random_byte();
                let z = random_byte();
                proof {
                    rs = rs0 + seq![x, y, z];
                }
                let keep = out.len() - a;
                let ghost kept = out@.subrange(0, keep as int);
                out.truncate(keep);
                out.push((pos, Instr::Sipush(x as i16)));
                out.push((pos + 1, Instr::Sipush(y as i16)));
                out.push((pos + 2, Instr::Sipush(z as i16)));
                out.push((pos + 3, Instr::Invokevirtual(mid)));
                pos += 4;
                proof {
                    assert forall|more: Seq<u8>| #[trigger] randomize_fold(cp@, s, rs + more, mid, i + 1) == (
                        out@,
                        pos as int,
                        rs.len() as int,
                        true,
                    ) by {
                        let full = rs0 + (seq![x, y, z] + more);
                        assert(rs + more =~= full);
                        assert(randomize_fold(cp@, s, full, mid, i) == (out0, pos0, rs0.len() as int, true));
                        assert(full[rs0.len() as int] == x);
                        assert(full[rs0.len() + 1int] == y);
                        assert(full[rs0.len() + 2int] == z);
                        assert(out@ =~= kept + seq![
                            (pos0 as u32, Instr::Sipush(x as i16)),
                            ((pos0 + 1) as u32, Instr::Sipush(y as i16)),
                            ((pos0 + 2) as u32, Instr::Sipush(z as i16)),
                            ((pos0 + 3) as u32, Instr::Invokevirtual(mid)),
                        ]);
                    }
                }
            },
        }
    }
    assert(randomize_fold(cp@, s, rs + seq![], mid, n as int) == (out@, pos as int, rs.len() as int, true));
    assert(rs + seq![] =~= rs);
    assert(randomize_fold(cp@, bc@, rs, mid, bc@.len() as int).0 == out@);
    out
}

/// The id of the rgb method the random definitions invoke: the one the
/// class already invokes, or the appended one.
pub open spec fn rgb_method_id(c: ClassFile) -> u16 {
    match method_id_by_sig(c, str_bytes("(Ljava/lang/String;III)")) {
        Some(id) => id,
        None => (c.cp@.len() + 5) as u16,
    }
}

/// The outcome of `randomize_class`.
pub open spec fn randomized(c0: ClassFile, c1: ClassFile, method_idx: usize, desc: MethodDescription) -> bool {
    let n = c0.cp@.len() as int;
    let appends = method_id_by_sig(c0, str_bytes("(Ljava/lang/String;III)")) is None;
    &&& forall|j: int| 0 <= j < n ==> #[trigger] c1.cp@[j] == c0.cp@[j]
    &&& appends ==> c1.cp@.len() == n + 6 && method_ref_appended(c1.cp@, n, desc)
    &&& !appends ==> c1.cp@.len() == n
    &&& c1.minor == c0.minor && c1.major == c0.major && c1.access == c0.access
    &&& c1.this_class == c0.this_class && c1.super_class == c0.super_class
    &&& c1.interfaces == c0.interfaces && c1.fields == c0.fields && c1.attrs == c0.attrs
    &&& match target_code(c0, method_idx) {
        None => c1.methods == c0.methods,
        Some(bc) => {
            let m0 = c0.methods@[method_idx as int];
            let m1 = c1.methods@[method_idx as int];
            &&& c1.methods@.len() == c0.methods@.len()
            &&& forall|j: int| 0 <= j < c0.methods@.len() && j != method_idx ==> #[trigger] c1.methods@[j] == c0.methods@[j]
            &&& m1.access == m0.access && m1.name == m0.name && m1.desc == m0.desc
            &&& m1.attrs@.len() == m0.attrs@.len()
            &&& forall|j: int| 1 <= j < m0.attrs@.len() ==> #[trigger] m1.attrs@[j] == m0.attrs@[j]
            &&& match (m0.attrs@[0], m1.attrs@[0]) {
                (MethodAttr::Code(n0, k0), MethodAttr::Code(n1, k1)) => {
                    &&& n1 == n0
                    &&& k1.max_stack == k0.max_stack
                    &&& k1.max_locals == k0.max_locals
                    &&& k1.exception_table == k0.exception_table
                    &&& exists|rs: Seq<u8>| #[trigger] randomize_fold(c0.cp@, bc, rs, rgb_method_id(c0), bc.len() as int).0 == k1.bytecode@
                    &&& line_numbers_cleared(c0.cp@, k0.attrs@, k1.attrs@)
                },
                _ => false,
            }
        },
    }
}

fn randomize_method(cp: &Vec<Const>, m: Method, mid: u16) -> (r: Method)
    requires
        code_of(m) matches Some(bc) && bc.len() * 4 + 4 <= u32::MAX && randomize_shape(cp@, bc, bc.len() as int).1,
    ensures
        ({
            let bc = code_of(m)->0;
            &&& r.access == m.access && r.name == m.name && r.desc == m.desc
            &&& r.attrs@.len() == m.attrs@.len()
            &&& forall|j: int| 1 <= j < m.attrs@.len() ==> #[trigger] r.attrs@[j] == m.attrs@[j]
            &&& match (m.attrs@[0], r.attrs@[0]) {
                (MethodAttr::Code(n0, k0), MethodAttr::Code(n1, k1)) => {
                    &&& n1 == n0
                    &&& k1.max_stack == k0.max_stack
                    &&& k1.max_locals == k0.max_locals
                    &&& k1.exception_table == k0.exception_table
                    &&& exists|rs: Seq<u8>| #[trigger] randomize_fold(cp@, bc, rs, mid, bc.len() as int).0 == k1.bytecode@
                    &&& line_numbers_cleared(cp@, k0.attrs@, k1.attrs@)
                },
                _ => false,
            }
        }),
{
    let mut m = m;
    let mut a = MethodAttr::Raw(RawAttr { name: 0, data: Vec::new() });
    m.attrs.set_and_swap(0, &mut a);
    let (attr_name, code) = match a {
        MethodAttr::Code(nm, code) => (nm, code),
        MethodAttr::Raw(_) => {
            assert(false);
            return m;
        },
    };
    let Code { max_stack, max_locals, bytecode, exception_table, attrs } = code;
    let new_bc = randomize_code(cp, bytecode, mid);
    let mut attrs = attrs;
    clear_line_numbers(cp, &mut attrs);
    let mut a2 = MethodAttr::Code(attr_name, Code { max_stack, max_locals, bytecode: new_bc, exception_table, attrs });
    m.attrs.set_and_swap(0, &mut a2);
    m
}

/// Replaces every rgb, grayscale and hsv palette definition in method
/// `method_idx` by a random rgb color (see `randomize_fold`). The rgb
/// method is the one the class invokes, else a reference to
/// `rgb_method_desc` is appended to the constant pool. A missing method or
/// code leaves the methods unchanged.
pub fn randomize_class(_name: &str, class: &mut ClassFile, method_idx: usize, rgb_method_desc: &MethodDescription)
    requires
        randomize_ok(*old(class), method_idx),
    ensures
        randomized(*old(class), *final(class), method_idx, *rgb_method_desc),
{
    let found = find_method_by_sig(class, "(Ljava/lang/String;III)", "");
    let n = class.cp.len();
    let (mid, appends) = match found {
        Some((id, _)) => (id, false),
        None => ((n + 5) as u16, true),
    };
    let has_code = if method_idx < class.methods.len() && class.methods[method_idx].attrs.len() > 0 {
        match &class.methods[method_idx].attrs[0] {
            MethodAttr::Code(_, _) => true,
            MethodAttr::Raw(_) => false,
        }
    } else {
        false
    };
    let ghost c0 = *class;
    if has_code {
        let mut m = Method { access: 0, name: 0, desc: 0, attrs: Vec::new() };
        class.methods.set_and_swap(method_idx, &mut m);
        let ghost m0 = m;
        let mut m1 = randomize_method(&class.cp, m, mid);
        assert(code_of(m0) == target_code(c0, method_idx));
        assert(mid == rgb_method_id(c0));
        class.methods.set_and_swap(method_idx, &mut m1);
    }
    if appends {
        push_method_ref(&mut class.cp, rgb_method_desc);
    }
}

/// Whether `randomize_class` accepts these inputs (see `randomize_ok`).
pub fn can_randomize_class(class: &ClassFile, method_idx: usize) -> (r: bool)
    ensures
        r == randomize_ok(*class, method_idx),
{
    if class.cp.len() > usize::MAX - 6 {
        return false;
    }
    if method_idx >= class.methods.len() || class.methods[method_idx].attrs.len() == 0 {
        return true;
    }
    let bc = match &class.methods[method_idx].attrs[0] {
        MethodAttr::Code(_, code) => &code.bytecode,
        MethodAttr::Raw(_) => return true,
    };
    if bc.len() > 0x3fff_fffe {
        return false;
    }
    let cp = &class.cp;
    let mut len: usize = 0;
    let mut k: usize = 0;
    while k < bc.len()
        invariant
            k <= bc@.len(),
            bc@.len() <= 0x3fff_fffe,
            cp == &class.cp,
            method_idx < class.methods@.len(),
            target_code(*class, method_idx) == Some(bc@),
            randomize_shape(cp@, bc@, k as int) == (len as int, true),
            len <= 4 * k,
        decreases bc@.len() - k,
    {
        match random_args_of(cp, &bc[k].1) {
            None => {
                len += 1;
            },
            Some(a) => {
                if len < a {
                    proof {
                        lemma_shape_stuck(cp@, bc@, k + 1, bc@.len() as int);
                    }
                    return false;
                }
                len = len - a + 4;
            },
        }
        k += 1;
    }
    true
}

/// `b` without its trailing `/` bytes.
pub open spec fn without_trailing_slashes(b: Seq<u8>) -> Seq<u8>
    decreases b.len(),
{
    if b.len() > 0 && b.last() == 0x2fu8 {
        without_trailing_slashes(b.drop_last())
    } else {
        b
    }
}

/// Whether a JAR entry name denotes a class file: it ends with `.class`
/// once trailing slashes are dropped.
pub open spec fn spec_is_class_entry(name: Seq<u8>) -> bool {
    has_suffix(without_trailing_slashes(name), str_bytes(".class"))
}

/// Whether the JAR entry `name` is a class file (see `spec_is_class_entry`).
pub fn is_class_entry(name: &str) -> (r: bool)
    ensures
        r == spec_is_class_entry(str_bytes(name)),
{
    let b = name.as_bytes();
    let mut n: usize = b.len();
    assert(b@.subrange(0, n as int) =~= b@);
    while n > 0 && b[n - 1] == 0x2fu8
        invariant
            n <= b@.len(),
            without_trailing_slashes(b@) == without_trailing_slashes(b@.subrange(0, n as int)),
        decreases n,
    {
        assert(b@.subrange(0, n as int).drop_last() =~= b@.subrange(0, n - 1));
        n -= 1;
    }
    let trimmed = copy_range(b, 0, n);
    assert(without_trailing_slashes(trimmed@) == trimmed@);
    ends_with(trimmed.as_slice(), ".class".as_bytes())
}

/// The method whose palette definitions the randomizer rewrites in the
/// class of entry `name`: the second method of `dsj.class`, the fifth of
/// `kX3.class`; `None` for any other entry.
pub open spec fn spec_randomize_target(name: Seq<u8>) -> Option<usize> {
    if has_suffix(name, str_bytes("dsj.class")) {
        Some(1)
    } else if has_suffix(name, str_bytes("theme/kX3.class")) {
        Some(4)
    } else {
        None
    }
}

/// The method of entry `name` that the randomizer rewrites (see
/// `spec_randomize_target`).
pub fn randomize_target(name: &str) -> (r: Option<usize>)
    ensures
        r == spec_randomize_target(str_bytes(name)),
{
    let b = name.as_bytes();
    if ends_with(b, "dsj.class".as_bytes()) {
        Some(1)
    } else if ends_with(b, "theme/kX3.class".as_bytes()) {
        Some(4)
    } else {
        None
    }
}

/// A palette call whose name the mapping lists is rewritten, whatever
/// palette method it calls (grayscale, rgb, rgba or hsv): the name load
/// stays, its arguments are replaced by four pushes of the mapped red,
/// green, blue and alpha, and the call by one of the rgba method `mid`;
/// the definition as it was is recorded. A call whose name the mapping
/// does not list is kept as it is.
pub proof fn lemma_mapped_calls_rewritten(
    cp: Seq<Const>,
    mapping: Seq<(String, (u8, u8, u8, u8))>,
    mid: u16,
    out: Seq<(u32, Instr)>,
    pos: int,
    defs: Seq<ColorDefView>,
    ix: Instr,
    m: ColorMethod,
    id: u8,
    t: Seq<u8>,
    c: Color,
)
    requires
        color_call(cp, ix) == Some(m),
        out.len() - 1 - m.args() >= 0,
        out[out.len() - 1 - m.args()].1 == Instr::Ldc(id),
        spec_utf_ldc(cp, id as u16) == Some(t),
        color_at(cp, out, out.len() - 1 - m.args(), m) == Some(c),
    ensures
        ({
            let b = out.len() - 1 - m.args();
            let st = colorize_step(cp, mapping, mid, (out, pos, defs, true), ix);
            &&& st.3
            &&& st.2 == defs.push(ColorDefView { name: utf8_lossy(t), color: c })
            &&& match mapped(mapping, utf8_lossy(t), 0) {
                Some((r, g, bl, a)) => {
                    &&& st.0.len() == b + 6
                    &&& st.0.subrange(0, b + 1) == out.subrange(0, b + 1)
                    &&& byte_value(st.0[b + 1].1) == Some(r)
                    &&& byte_value(st.0[b + 2].1) == Some(g)
                    &&& byte_value(st.0[b + 3].1) == Some(bl)
                    &&& byte_value(st.0[b + 4].1) == Some(a)
                    &&& st.0[b + 5].1 == Instr::Invokevirtual(mid)
                    &&& st.1 == pos + 5
                },
                None => st.0 == out.push((pos as u32, ix)) && st.1 == pos + 1,
            }
        }),
{
    let b = out.len() - 1 - m.args();
    let st = colorize_step(cp, mapping, mid, (out, pos, defs, true), ix);
    if let Some((r, g, bl, a)) = mapped(mapping, utf8_lossy(t), 0) {
        assert((r as i16) as u8 == r) by (bit_vector);
        assert((g as i16) as u8 == g) by (bit_vector);
        assert((bl as i16) as u8 == bl) by (bit_vector);
        assert((a as i16) as u8 == a) by (bit_vector);
        assert(st.0.subrange(0, b + 1) =~= out.subrange(0, b + 1));
    }
}

} // verus!
