//! Rewriting the definition of a named palette color in a class.
use crate::bytes::{bytes_eq, copy_range};
use crate::classfile::{ClassFile, Code, Const, Instr, Method, MethodAttr, RawAttr};
use crate::bytecode::{is_nan_f32, IxToInt};
use crate::colors::{
    load_constant, named_colors_view, push_component, ColorComponents, ComponentsView, NamedColor, NamedColorView,
};
use crate::methods::{spec_extract, MethodSignatureKind};
use crate::extractor::code_of;
use crate::introspection::{
    cp_utf8, find_method_by_sig, find_method_description, find_utf_ldc, method_id_by_sig, spec_method_ref,
    spec_utf_ldc, utf8_at,
};
use crate::methods::{MethodDescription, PaletteColorMethods};
use crate::text::{bytes_of, str_bytes, string_bytes, utf8_lossy};
use crate::types::CompositingMode;
use vstd::prelude::*;

verus! {

/// Index of the first instruction, at or after `k`, that loads the string
/// constant `name` with `ldc` or `ldc_w`.
pub open spec fn name_load_from(cp: Seq<Const>, bc: Seq<(u32, Instr)>, name: Seq<char>, k: int) -> Option<int>
    decreases bc.len() - k,
{
    if k < 0 || k >= bc.len() {
        None
    } else {
        let id: Option<u16> = match bc[k].1 {
            Instr::Ldc(i) => Some(i as u16),
            Instr::LdcW(i) => Some(i),
            _ => None,
        };
        match id {
            Some(i) => match spec_utf_ldc(cp, i) {
                Some(t) => if utf8_lossy(t) == name {
                    Some(k)
                } else {
                    name_load_from(cp, bc, name, k + 1)
                },
                None => name_load_from(cp, bc, name, k + 1),
            },
            None => name_load_from(cp, bc, name, k + 1),
        }
    }
}

/// Index of the invocation, at or after `j`, of a method whose descriptor
/// reads `sig`; `None` when the code ends first or an invoked method
/// before it cannot be resolved.
pub open spec fn definition_end(cp: Seq<Const>, bc: Seq<(u32, Instr)>, sig: Seq<char>, j: int) -> Option<int>
    decreases bc.len() - j,
{
    if j < 0 || j >= bc.len() {
        None
    } else {
        match bc[j].1 {
            Instr::Invokevirtual(mid) => match spec_method_ref(cp, mid) {
                Some(parts) => if utf8_lossy(parts.2) == sig {
                    Some(j)
                } else {
                    definition_end(cp, bc, sig, j + 1)
                },
                None => None,
            },
            _ => definition_end(cp, bc, sig, j + 1),
        }
    }
}

/// The instructions of a bytecode sequence.
pub open spec fn instrs_of(bc: Seq<(u32, Instr)>) -> Seq<Instr> {
    bc.map_values(|p: (u32, Instr)| p.1)
}

/// `bc` holds `is`, each instruction numbered by its index.
pub open spec fn numbered(bc: Seq<(u32, Instr)>, is: Seq<Instr>) -> bool {
    &&& bc.len() == is.len()
    &&& forall|j: int| 0 <= j < is.len() ==> #[trigger] bc[j] == (j as u32, is[j])
}

/// The instructions that define a color with components `v`, the float
/// constants going to indices `next` and on, with method `mid`.
pub open spec fn definition_instrs(v: ComponentsView, next: int, mid: u16) -> Seq<Instr> {
    let args = match v {
        ComponentsView::Rgbai(r, g, b, a) => seq![
            push_component(r),
            push_component(g),
            push_component(b),
            push_component(a),
        ],
        ComponentsView::DeltaHsvf(_, _, _) => seq![
            load_constant(next),
            load_constant(next + 1),
            load_constant(next + 2),
        ],
        _ => seq![],
    };
    args.push(Instr::Invokevirtual(mid))
}

/// The instructions after the rewrite: from the instruction after the
/// first load of `name` up to the invocation of the method with
/// descriptor `sig`, everything is replaced by `repl`.
pub open spec fn rewritten_instrs(
    cp: Seq<Const>,
    bc: Seq<(u32, Instr)>,
    name: Seq<char>,
    sig: Seq<char>,
    repl: Seq<Instr>,
) -> Seq<Instr> {
    match name_load_from(cp, bc, name, 0) {
        None => instrs_of(bc),
        Some(k) => {
            let e = definition_end(cp, bc, sig, k + 1)->0;
            instrs_of(bc.subrange(0, k + 1)) + repl + instrs_of(bc.subrange(e + 1, bc.len() as int))
        },
    }
}

proof fn lemma_name_load_in_range(cp: Seq<Const>, bc: Seq<(u32, Instr)>, name: Seq<char>, k: int)
    requires
        0 <= k,
    ensures
        name_load_from(cp, bc, name, k) matches Some(j) ==> k <= j < bc.len(),
    decreases bc.len() - k,
{
    if k < bc.len() {
        lemma_name_load_in_range(cp, bc, name, k + 1);
    }
}

proof fn lemma_definition_end_in_range(cp: Seq<Const>, bc: Seq<(u32, Instr)>, sig: Seq<char>, j: int)
    requires
        0 <= j,
    ensures
        definition_end(cp, bc, sig, j) matches Some(e) ==> j <= e < bc.len(),
    decreases bc.len() - j,
{
    if j < bc.len() {
        lemma_definition_end_in_range(cp, bc, sig, j + 1);
    }
}

proof fn lemma_instrs_push(bc: Seq<(u32, Instr)>, a: int, b: int)
    requires
        0 <= a <= b < bc.len(),
    ensures
        instrs_of(bc.subrange(a, b + 1)) == instrs_of(bc.subrange(a, b)).push(bc[b].1),
{
    assert(instrs_of(bc.subrange(a, b + 1)) =~= instrs_of(bc.subrange(a, b)).push(bc[b].1));
}

/// The elements of `v` in reverse order.
fn reversed<T>(v: Vec<T>) -> (r: Vec<T>)
    ensures
        r@.len() == v@.len(),
        forall|j: int| 0 <= j < v@.len() ==> #[trigger] r@[j] == v@[v@.len() - 1 - j],
{
    let ghost s = v@;
    let n = v.len();
    let mut rest = v;
    let mut rev: Vec<T> = Vec::new();
    while rest.len() > 0
        invariant
            rev@.len() + rest@.len() == n,
            n == s.len(),
            rest@ == s.subrange(0, rest@.len() as int),
            forall|j: int| 0 <= j < rev@.len() ==> #[trigger] rev@[j] == s[n - 1 - j],
        decreases rest@.len(),
    {
        match rest.pop() {
            Some(x) => rev.push(x),
            None => {},
        }
    }
    rev
}

/// Rewrites the definition after the first load of `name` (see
/// `rewritten_instrs`) and numbers the instructions by index; also tells
/// whether `name` is loaded at all.
fn rewrite_bytecode(cp: &Vec<Const>, old: Vec<(u32, Instr)>, name: &str, sig: &String, repl: Vec<Instr>) -> (r: (
    Vec<(u32, Instr)>,
    bool,
))
    requires
        name_load_from(cp@, old@, name@, 0) matches Some(k) ==> definition_end(cp@, old@, sig@, k + 1) is Some,
        old@.len() + repl@.len() <= u32::MAX,
    ensures
        r.1 == name_load_from(cp@, old@, name@, 0) is Some,
        numbered(r.0@, rewritten_instrs(cp@, old@, name@, sig@, repl@)),
{
    let ghost bc = old@;
    let ghost rp = repl@;
    let n = old.len();
    let mut rev = reversed(old);
    let m = repl.len();
    let mut rev_repl = reversed(repl);
    let name_s = String::from_str(name);
    let mut out: Vec<(u32, Instr)> = Vec::new();
    let mut ready = false;
    proof {
        lemma_name_load_in_range(cp@, bc, name@, 0);
    }
    while rev.len() > 0
        invariant
            rev@.len() <= n,
            n == bc.len(),
            n + rp.len() <= u32::MAX,
            name_s@ == name@,
            forall|j: int| 0 <= j < rev@.len() ==> #[trigger] rev@[j] == bc[n - 1 - j],
            !ready ==> rev_repl@.len() == rp.len(),
            m == rp.len(),
            !ready ==> forall|j: int| 0 <= j < rp.len() ==> #[trigger] rev_repl@[j] == rp[rp.len() - 1 - j],
            name_load_from(cp@, bc, name@, 0) matches Some(k) ==> (0 <= k < n && definition_end(cp@, bc, sig@, k + 1)
                is Some),
            !ready ==> name_load_from(cp@, bc, name@, 0) == name_load_from(cp@, bc, name@, n - rev@.len()),
            !ready ==> numbered(out@, instrs_of(bc.subrange(0, n - rev@.len()))),
            ready ==> ({
                let k = name_load_from(cp@, bc, name@, 0)->0;
                let e = definition_end(cp@, bc, sig@, k + 1)->0;
                &&& name_load_from(cp@, bc, name@, 0) is Some
                &&& e + 1 <= n - rev@.len()
                &&& numbered(
                    out@,
                    instrs_of(bc.subrange(0, k + 1)) + rp + instrs_of(bc.subrange(e + 1, n - rev@.len())),
                )
            }),
        decreases rev@.len(),
    {
        let ghost i = n - rev@.len();
        let (_, ix) = match rev.pop() {
            Some(x) => x,
            None => {
                assert(false);
                return (out, ready);
            },
        };
        assert(ix == bc[i].1);
        let ld: Option<u16> = match &ix {
            Instr::Ldc(id) => Some(*id as u16),
            Instr::LdcW(id) => Some(*id),
            _ => None,
        };
        let ghost before = out@;
        let pos = out.len() as u32;
        out.push((pos, ix));
        if ready {
            proof {
                let k = name_load_from(cp@, bc, name@, 0)->0;
                let e = definition_end(cp@, bc, sig@, k + 1)->0;
                lemma_definition_end_in_range(cp@, bc, sig@, k + 1);
                lemma_instrs_push(bc, e + 1, i);
                assert(instrs_of(bc.subrange(0, k + 1)) + rp + instrs_of(bc.subrange(e + 1, i + 1)) =~= (instrs_of(
                    bc.subrange(0, k + 1),
                ) + rp + instrs_of(bc.subrange(e + 1, i))).push(bc[i].1));
            }
            continue;
        }
        proof {
            lemma_instrs_push(bc, 0, i);
            assert(numbered(out@, instrs_of(bc.subrange(0, i + 1))));
        }
        let hit = match ld {
            Some(id) => match find_utf_ldc(cp, id) {
                Some(text) => text == name_s,
                None => false,
            },
            None => false,
        };
        if !hit {
            assert(name_load_from(cp@, bc, name@, i) == name_load_from(cp@, bc, name@, i + 1));
            continue;
        }
        assert(name_load_from(cp@, bc, name@, 0) == Some(i));
        let ghost e = definition_end(cp@, bc, sig@, i + 1)->0;
        proof {
            lemma_definition_end_in_range(cp@, bc, sig@, i + 1);
        }
        loop
            invariant_except_break
                n - rev@.len() <= e,
                definition_end(cp@, bc, sig@, n - rev@.len()) == Some(e),
            invariant
                rev@.len() <= n,
                n == bc.len(),
                forall|j: int| 0 <= j < rev@.len() ==> #[trigger] rev@[j] == bc[n - 1 - j],
                i + 1 <= n - rev@.len() <= e + 1,
                i + 1 <= e < n,
                rev@.len() > 0 || n - rev@.len() == e + 1,
                definition_end(cp@, bc, sig@, i + 1) == Some(e),
            ensures
                n - rev@.len() == e + 1,
            decreases rev@.len(),
        {
            let ghost j = n - rev@.len();
            let (_, y) = match rev.pop() {
                Some(x) => x,
                None => {
                    assert(false);
                    break;
                },
            };
            assert(y == bc[j].1);
            proof {
                lemma_definition_end_in_range(cp@, bc, sig@, j + 1);
            }
            if let Instr::Invokevirtual(method_id) = &y {
                let desc = match find_method_description(cp, *method_id, None) {
                    Some(d) => d,
                    None => {
                        assert(false);
                        break;
                    },
                };
                if desc.signature == *sig {
                    assert(j == e);
                    break;
                }
            }
            assert(definition_end(cp@, bc, sig@, j) == definition_end(cp@, bc, sig@, j + 1));
        }
        let mut t: usize = 0;
        let ghost base = out@;
        while t < m
            invariant
                m == rp.len(),
                t <= rp.len(),
                rev_repl@.len() == rp.len() - t,
                forall|j: int| 0 <= j < rev_repl@.len() ==> #[trigger] rev_repl@[j] == rp[rp.len() - 1 - j],
                out@.len() == base.len() + t,
                base.len() + rp.len() <= u32::MAX,
                forall|j: int| 0 <= j < base.len() ==> #[trigger] out@[j] == base[j],
                forall|j: int| 0 <= j < t ==> #[trigger] out@[base.len() + j] == ((base.len() + j) as u32, rp[j]),
            decreases rp.len() - t,
        {
            let x = match rev_repl.pop() {
                Some(x) => x,
                None => {
                    assert(false);
                    return (out, ready);
                },
            };
            let pos = out.len() as u32;
            out.push((pos, x));
            t += 1;
        }
        ready = true;
        proof {
            let a = instrs_of(bc.subrange(0, i + 1));
            assert(instrs_of(bc.subrange(e + 1, e + 1)) =~= seq![]);
            let full = a + rp + instrs_of(bc.subrange(e + 1, e + 1));
            assert(full =~= a + rp);
            assert forall|j: int| 0 <= j < full.len() implies #[trigger] out@[j] == (j as u32, full[j]) by {
                if j >= base.len() {
                    let t = j - base.len();
                    assert(out@[base.len() + t] == ((base.len() + t) as u32, rp[t]));
                }
            }
            assert(numbered(out@, full));
        }
    }
    proof {
        if !ready {
            assert(name_load_from(cp@, bc, name@, n as int) is None);
            assert(bc.subrange(0, n as int) =~= bc);
        } else {
            let k = name_load_from(cp@, bc, name@, 0)->0;
            let e = definition_end(cp@, bc, sig@, k + 1)->0;
        }
    }
    (out, ready)
}

/// Index of the first color, at or after `k`, named `name`.
pub open spec fn first_named(v: Seq<NamedColor>, name: Seq<char>, k: int) -> Option<int>
    decreases v.len() - k,
{
    if k < 0 || k >= v.len() {
        None
    } else if v[k].color_name@ == name {
        Some(k)
    } else {
        first_named(v, name, k + 1)
    }
}

/// The palette method whose invocation in the palette class is looked for,
/// by compositing mode.
pub open spec fn target_method(p: PaletteColorMethods, mode: CompositingMode) -> MethodDescription {
    match mode {
        CompositingMode::BlendedOnBackground => p.rgba_i_blended_on_background,
        CompositingMode::RelativeToBackground => p.hsv_f_relative_to_background,
        CompositingMode::Absolute => p.rgba_i_absolute,
    }
}

/// Whether the class has no invocation of the target method, so that a
/// reference to the absolute rgba method is appended to its constant pool.
pub open spec fn appends_method_ref(c: ClassFile, p: PaletteColorMethods, mode: CompositingMode) -> bool {
    method_id_by_sig(c, string_bytes(target_method(p, mode).signature)) is None
}

/// The method reference the new definition invokes: the one the class
/// already invokes, or the appended one.
pub open spec fn new_method_id(c: ClassFile, p: PaletteColorMethods, mode: CompositingMode) -> u16 {
    match method_id_by_sig(c, string_bytes(target_method(p, mode).signature)) {
        Some(id) => id,
        None => (c.cp@.len() + 5) as u16,
    }
}

/// Size of the constant pool after the method reference is settled.
pub open spec fn pool_len_with_ref(c: ClassFile, p: PaletteColorMethods, mode: CompositingMode) -> int {
    if appends_method_ref(c, p, mode) {
        c.cp@.len() + 6int
    } else {
        c.cp@.len() as int
    }
}

/// Entries `n` to `n + 5` of `cp` name the method `d`: the UTF-8 class
/// name, method name and descriptor, the class, the name and type, and
/// the method reference.
pub open spec fn method_ref_appended(cp: Seq<Const>, n: int, d: MethodDescription) -> bool {
    &&& cp.len() >= n + 6
    &&& cp[n] matches Const::Utf8(b) && b@ == string_bytes(d.class)
    &&& cp[n + 1] matches Const::Utf8(b) && b@ == string_bytes(d.method)
    &&& cp[n + 2] matches Const::Utf8(b) && b@ == string_bytes(d.signature)
    &&& cp[n + 3] == Const::Class(n as u16)
    &&& cp[n + 4] == Const::NameAndType((n + 1) as u16, (n + 2) as u16)
    &&& cp[n + 5] == Const::Method((n + 3) as u16, (n + 4) as u16)
}

/// The code of method `midx`, when it has one as its first attribute.
pub open spec fn target_code(c: ClassFile, midx: usize) -> Option<Seq<(u32, Instr)>> {
    if midx < c.methods@.len() {
        code_of(c.methods@[midx as int])
    } else {
        None
    }
}

/// `LineNumberTable` attributes are emptied (their table count set to
/// zero); others are kept.
pub open spec fn line_numbers_cleared(cp: Seq<Const>, old: Seq<RawAttr>, new: Seq<RawAttr>) -> bool {
    &&& new.len() == old.len()
    &&& forall|j: int|
        #![trigger new[j]]
        0 <= j < old.len() ==> if cp_utf8(cp, old[j].name as int) == Some(str_bytes("LineNumberTable")) {
            new[j].name == old[j].name && new[j].data@ == seq![0u8, 0u8]
        } else {
            new[j] == old[j]
        }
}

/// What `replace_named_color` requires of its inputs: components it can
/// write, and, when the color is found and not relative, components of the
/// named color that a palette method defines and a definition that ends
/// with an invocation of that method after the name is loaded.
pub open spec fn replace_ok(
    c: ClassFile,
    name: Seq<char>,
    v: ColorComponents,
    colors: Seq<NamedColor>,
    p: PaletteColorMethods,
    mode: CompositingMode,
) -> bool {
    &&& v.has_instructions()
    &&& c.cp@.len() + 9 <= usize::MAX
    &&& (!(mode is RelativeToBackground) && first_named(colors, name, 0) is Some) ==> {
        let nc = colors[first_named(colors, name, 0)->0];
        &&& !(nc.components is Rgbaf || nc.components is Rgbad)
        &&& match target_code(c, nc.method_idx) {
            Some(bc) => {
                &&& bc.len() + 5 <= u32::MAX
                &&& name_load_from(c.cp@, bc, name, 0) matches Some(k) ==> definition_end(
                    c.cp@,
                    bc,
                    p.spec_from_components(nc.components).signature@,
                    k + 1,
                ) is Some
            },
            None => true,
        }
    }
}

/// The recolored method: same name, descriptor and other attributes, its
/// code rewritten (see `rewritten_instrs`) with a stack of at least 7
/// slots and its line numbers cleared.
pub open spec fn method_recolored(cp: Seq<Const>, m0: Method, m1: Method, name: Seq<char>, sig: Seq<char>, repl: Seq<Instr>) -> bool {
    &&& m1.access == m0.access
    &&& m1.name == m0.name
    &&& m1.desc == m0.desc
    &&& m1.attrs@.len() == m0.attrs@.len()
    &&& forall|j: int| 1 <= j < m0.attrs@.len() ==> #[trigger] m1.attrs@[j] == m0.attrs@[j]
    &&& match (m0.attrs@[0], m1.attrs@[0]) {
        (MethodAttr::Code(n0, c0), MethodAttr::Code(n1, c1)) => {
            &&& n1 == n0
            &&& c1.max_stack == if c0.max_stack < 7 { 7 } else { c0.max_stack }
            &&& c1.max_locals == c0.max_locals
            &&& c1.exception_table == c0.exception_table
            &&& numbered(c1.bytecode@, rewritten_instrs(cp, c0.bytecode@, name, sig, repl))
            &&& line_numbers_cleared(cp, c0.attrs@, c1.attrs@)
        },
        _ => false,
    }
}

/// The named color with its components replaced.
pub open spec fn with_components(c: NamedColorView, v: ComponentsView) -> NamedColorView {
    NamedColorView {
        class_name: c.class_name,
        method_idx: c.method_idx,
        color_name: c.color_name,
        components: v,
        compositing_mode: c.compositing_mode,
    }
}

/// The outcome of `replace_named_color` for a color that is found and not
/// relative.
#[verifier::opaque]
pub open spec fn recolored(
    c0: ClassFile,
    c1: ClassFile,
    colors0: Seq<NamedColor>,
    colors1: Seq<NamedColor>,
    name: Seq<char>,
    v: ColorComponents,
    p: PaletteColorMethods,
    mode: CompositingMode,
    r: Option<()>,
) -> bool {
    let i = first_named(colors0, name, 0)->0;
    let nc = colors0[i];
    let n = c0.cp@.len() as int;
    let n1 = pool_len_with_ref(c0, p, mode);
    &&& c1.cp@.len() >= n1
    &&& forall|j: int| 0 <= j < n ==> #[trigger] c1.cp@[j] == c0.cp@[j]
    &&& appends_method_ref(c0, p, mode) ==> method_ref_appended(c1.cp@, n, p.rgba_i_absolute)
    &&& c1.minor == c0.minor && c1.major == c0.major && c1.access == c0.access
    &&& c1.this_class == c0.this_class && c1.super_class == c0.super_class
    &&& c1.interfaces == c0.interfaces && c1.fields == c0.fields && c1.attrs == c0.attrs
    &&& match target_code(c0, nc.method_idx) {
        None => {
            &&& r is None
            &&& c1.cp@.len() == n1
            &&& c1.methods == c0.methods
            &&& colors1 == colors0
        },
        Some(bc) => {
            let sig = p.spec_from_components(nc.components).signature@;
            let found = name_load_from(c0.cp@, bc, name, 0) is Some;
            let repl = definition_instrs(v@, n1, new_method_id(c0, p, mode));
            &&& r is Some
            &&& c1.methods@.len() == c0.methods@.len()
            &&& forall|j: int| 0 <= j < c0.methods@.len() && j != nc.method_idx ==> #[trigger] c1.methods@[j] == c0.methods@[j]
            &&& method_recolored(c0.cp@, c0.methods@[nc.method_idx as int], c1.methods@[nc.method_idx as int], name, sig, repl)
            &&& match v {
                ColorComponents::DeltaHsvf(h, s, vv) => if found {
                    &&& c1.cp@.len() == n1 + 3
                    &&& c1.cp@[n1] == Const::Float(h)
                    &&& c1.cp@[n1 + 1] == Const::Float(s)
                    &&& c1.cp@[n1 + 2] == Const::Float(vv)
                } else {
                    c1.cp@.len() == n1
                },
                _ => c1.cp@.len() == n1,
            }
            &&& found ==> named_colors_view(colors1) == named_colors_view(colors0).update(i, with_components(nc@, v@))
            &&& !found ==> colors1 == colors0
        },
    }
}

/// Recoloring only appends to the constant pool: the old entries stay as
/// they were, and at most 9 are added.
pub proof fn lemma_recolor_appends_only(
    c0: ClassFile,
    c1: ClassFile,
    colors0: Seq<NamedColor>,
    colors1: Seq<NamedColor>,
    name: Seq<char>,
    v: ColorComponents,
    p: PaletteColorMethods,
    mode: CompositingMode,
    r: Option<()>,
)
    requires
        recolored(c0, c1, colors0, colors1, name, v, p, mode, r),
    ensures
        c0.cp@.len() <= c1.cp@.len() <= c0.cp@.len() + 9,
        c1.cp@.subrange(0, c0.cp@.len() as int) == c0.cp@,
{
    reveal(recolored);
    let n = c0.cp@.len() as int;
    let n1 = pool_len_with_ref(c0, p, mode);
    assert(n <= n1 <= n + 6);
    assert forall|j: int| 0 <= j < n implies #[trigger] c1.cp@.subrange(0, n)[j] == c0.cp@[j] by {
        assert(c1.cp@[j] == c0.cp@[j]);
    }
    assert(c1.cp@.subrange(0, n) =~= c0.cp@);
}

proof fn lemma_first_named(v: Seq<NamedColor>, name: Seq<char>, k: int)
    requires
        0 <= k,
    ensures
        first_named(v, name, k) matches Some(i) ==> k <= i < v.len() && v[i].color_name@ == name,
    decreases v.len() - k,
{
    if k < v.len() {
        lemma_first_named(v, name, k + 1);
    }
}

fn first_named_index(v: &Vec<NamedColor>, name: &str) -> (r: Option<usize>)
    ensures
        r matches Some(x) ==> first_named(v@, name@, 0) == Some(x as int),
        r is None ==> first_named(v@, name@, 0) is None,
{
    let target = String::from_str(name);
    let mut k: usize = 0;
    while k < v.len()
        invariant
            k <= v@.len(),
            target@ == name@,
            first_named(v@, name@, 0) == first_named(v@, name@, k as int),
        decreases v@.len() - k,
    {
        if v[k].color_name == target {
            return Some(k);
        }
        k += 1;
    }
    None
}

/// A UTF-8 entry holding the bytes of `s`.
fn utf8_entry(s: &String) -> (c: Const)
    ensures
        c matches Const::Utf8(b) && b@ == string_bytes(*s),
{
    let b = bytes_of(s);
    Const::Utf8(copy_range(b, 0, b.len()))
}

/// Appends the six entries that name method `d` (see `method_ref_appended`).
pub(crate) fn push_method_ref(cp: &mut Vec<Const>, d: &MethodDescription)
    requires
        old(cp)@.len() + 6 <= usize::MAX,
    ensures
        final(cp)@.len() == old(cp)@.len() + 6,
        forall|j: int| 0 <= j < old(cp)@.len() ==> #[trigger] final(cp)@[j] == old(cp)@[j],
        method_ref_appended(final(cp)@, old(cp)@.len() as int, *d),
{
    let n = cp.len();
    cp.push(utf8_entry(&d.class));
    cp.push(utf8_entry(&d.method));
    cp.push(utf8_entry(&d.signature));
    cp.push(Const::Class(n as u16));
    cp.push(Const::NameAndType((n + 1) as u16, (n + 2) as u16));
    cp.push(Const::Method((n + 3) as u16, (n + 4) as u16));
}

/// Empties the `LineNumberTable` attributes (see `line_numbers_cleared`).
pub(crate) fn clear_line_numbers(cp: &Vec<Const>, attrs: &mut Vec<RawAttr>)
    ensures
        line_numbers_cleared(cp@, old(attrs)@, final(attrs)@),
{
    let ghost old_attrs = attrs@;
    let mut j: usize = 0;
    while j < attrs.len()
        invariant
            j <= attrs@.len(),
            attrs@.len() == old_attrs.len(),
            forall|i: int|
                #![trigger attrs@[i]]
                0 <= i < j ==> if cp_utf8(cp@, old_attrs[i].name as int) == Some(str_bytes("LineNumberTable")) {
                    attrs@[i].name == old_attrs[i].name && attrs@[i].data@ == seq![0u8, 0u8]
                } else {
                    attrs@[i] == old_attrs[i]
                },
            forall|i: int| j <= i < attrs@.len() ==> #[trigger] attrs@[i] == old_attrs[i],
        decreases attrs@.len() - j,
    {
        let name = attrs[j].name;
        let is_table = match utf8_at(cp, name) {
            Some(b) => bytes_eq(b, "LineNumberTable".as_bytes()),
            None => false,
        };
        if is_table {
            let data = vec![0u8, 0u8];
            assert(data@ =~= seq![0u8, 0u8]);
            attrs.set(j, RawAttr { name, data });
        }
        j += 1;
    }
}

/// Index of the first load of the string `name` (see `name_load_from`).
fn find_name_load(cp: &Vec<Const>, bc: &Vec<(u32, Instr)>, name: &str) -> (r: Option<usize>)
    ensures
        r matches Some(k) ==> name_load_from(cp@, bc@, name@, 0) == Some(k as int),
        r is None ==> name_load_from(cp@, bc@, name@, 0) is None,
{
    let name_s = String::from_str(name);
    let mut k: usize = 0;
    while k < bc.len()
        invariant
            k <= bc@.len(),
            name_s@ == name@,
            name_load_from(cp@, bc@, name@, 0) == name_load_from(cp@, bc@, name@, k as int),
        decreases bc@.len() - k,
    {
        let ld: Option<u16> = match &bc[k].1 {
            Instr::Ldc(id) => Some(*id as u16),
            Instr::LdcW(id) => Some(*id),
            _ => None,
        };
        if let Some(id) = ld {
            if let Some(text) = find_utf_ldc(cp, id) {
                if text == name_s {
                    return Some(k);
                }
            }
        }
        k += 1;
    }
    None
}

/// Whether `definition_end` finds the end of a definition at or after `j`.
fn has_definition_end(cp: &Vec<Const>, bc: &Vec<(u32, Instr)>, sig: &String, j: usize) -> (r: bool)
    ensures
        r == definition_end(cp@, bc@, sig@, j as int) is Some,
{
    let mut k: usize = j;
    while k < bc.len()
        invariant
            j <= k,
            definition_end(cp@, bc@, sig@, j as int) == definition_end(cp@, bc@, sig@, k as int),
        decreases bc@.len() - k,
    {
        if let Instr::Invokevirtual(method_id) = &bc[k].1 {
            match find_method_description(cp, *method_id, None) {
                Some(desc) => {
                    if desc.signature == *sig {
                        return true;
                    }
                },
                None => return false,
            }
        }
        k += 1;
    }
    false
}

/// Whether `replace_named_color` accepts these inputs (see `replace_ok`).
pub fn can_replace(
    class: &ClassFile,
    name: &str,
    new_value: &ColorComponents,
    named_colors: &Vec<NamedColor>,
    palette_color_meths: &PaletteColorMethods,
    compositing_mode: CompositingMode,
) -> (r: bool)
    ensures
        r == replace_ok(*class, name@, *new_value, named_colors@, *palette_color_meths, compositing_mode),
{
    let writable = match new_value {
        ColorComponents::Rgbai(_, _, _, _) => true,
        ColorComponents::DeltaHsvf(_, _, _) => true,
        _ => false,
    };
    if !writable || class.cp.len() > usize::MAX - 9 {
        return false;
    }
    if let CompositingMode::RelativeToBackground = compositing_mode {
        return true;
    }
    let i = match first_named_index(named_colors, name) {
        Some(i) => i,
        None => return true,
    };
    proof {
        lemma_first_named(named_colors@, name@, 0);
    }
    let nc = &named_colors[i];
    match &nc.components {
        ColorComponents::Rgbaf(_, _, _, _) => return false,
        ColorComponents::Rgbad(_, _, _, _) => return false,
        _ => {},
    }
    let midx = nc.method_idx;
    if midx >= class.methods.len() {
        return true;
    }
    let m = &class.methods[midx];
    if m.attrs.len() == 0 {
        return true;
    }
    let bc = match &m.attrs[0] {
        MethodAttr::Code(_, code) => &code.bytecode,
        MethodAttr::Raw(_) => return true,
    };
    if bc.len() > 0xffff_fffa {
        return false;
    }
    let sig = &palette_color_meths.from_components(&nc.components).signature;
    match find_name_load(&class.cp, bc, name) {
        Some(k) => {
            proof {
                lemma_name_load_in_range(class.cp@, bc@, name@, 0);
            }
            has_definition_end(&class.cp, bc, sig, k + 1)
        },
        None => true,
    }
}

/// The named colors keep everything but their components.
pub open spec fn same_colors_but_components(a: Seq<NamedColorView>, b: Seq<NamedColorView>) -> bool {
    &&& a.len() == b.len()
    &&& forall|j: int|
        #![trigger b[j]]
        0 <= j < a.len() ==> b[j].class_name == a[j].class_name && b[j].method_idx == a[j].method_idx
            && b[j].color_name == a[j].color_name && b[j].compositing_mode == a[j].compositing_mode
}

/// Recoloring changes only the components of the named colors.
pub proof fn lemma_recolor_keeps_colors(
    c0: ClassFile,
    c1: ClassFile,
    colors0: Seq<NamedColor>,
    colors1: Seq<NamedColor>,
    name: Seq<char>,
    v: ColorComponents,
    p: PaletteColorMethods,
    mode: CompositingMode,
    r: Option<()>,
)
    requires
        recolored(c0, c1, colors0, colors1, name, v, p, mode, r),
        first_named(colors0, name, 0) is Some,
    ensures
        same_colors_but_components(named_colors_view(colors0), named_colors_view(colors1)),
{
    reveal(recolored);
    lemma_first_named(colors0, name, 0);
    let a = named_colors_view(colors0);
    let b = named_colors_view(colors1);
    assert(a.len() == b.len());
}

/// Rewrites the code of method `m` (see `method_recolored`); also tells
/// whether `name` is loaded in it.
fn recolor_method(cp: &Vec<Const>, m: Method, name: &str, sig: &String, repl: Vec<Instr>) -> (r: (Method, bool))
    requires
        code_of(m) matches Some(bc) && bc.len() + repl@.len() <= u32::MAX && (name_load_from(cp@, bc, name@, 0) matches Some(
            k,
        ) ==> definition_end(cp@, bc, sig@, k + 1) is Some),
    ensures
        method_recolored(cp@, m, r.0, name@, sig@, repl@),
        r.1 == name_load_from(cp@, code_of(m)->0, name@, 0) is Some,
{
    let ghost m0 = m;
    let mut m = m;
    let mut a = MethodAttr::Raw(RawAttr { name: 0, data: Vec::new() });
    m.attrs.set_and_swap(0, &mut a);
    let (attr_name, code) = match a {
        MethodAttr::Code(nm, code) => (nm, code),
        MethodAttr::Raw(_) => {
            assert(false);
            return (m, false);
        },
    };
    let Code { max_stack, max_locals, bytecode, exception_table, attrs } = code;
    let max_stack = if max_stack < 7 {
        7
    } else {
        max_stack
    };
    let (new_bc, replaced) = rewrite_bytecode(cp, bytecode, name, sig, repl);
    let mut attrs = attrs;
    clear_line_numbers(cp, &mut attrs);
    let mut a2 = MethodAttr::Code(attr_name, Code { max_stack, max_locals, bytecode: new_bc, exception_table, attrs });
    m.attrs.set_and_swap(0, &mut a2);
    (m, replaced)
}

/// Rewrites the definition of the palette color `name` in `class` to
/// define `new_value` with the method for `compositing_mode` (see
/// `recolored`), and records the new components in `named_colors`.
/// Relative colors are left alone (`None`), as are names not among
/// `named_colors` (`None`).
pub fn replace_named_color(
    class: &mut ClassFile,
    name: &str,
    new_value: ColorComponents,
    named_colors: &mut Vec<NamedColor>,
    palette_color_meths: &PaletteColorMethods,
    compositing_mode: CompositingMode,
) -> (r: Option<()>)
    requires
        replace_ok(*old(class), name@, new_value, old(named_colors)@, *palette_color_meths, compositing_mode),
    ensures
        (compositing_mode is RelativeToBackground || first_named(old(named_colors)@, name@, 0) is None) ==> (r is None
            && *final(class) == *old(class) && final(named_colors)@ == old(named_colors)@),
        (!(compositing_mode is RelativeToBackground) && first_named(old(named_colors)@, name@, 0) is Some) ==> recolored(
            *old(class),
            *final(class),
            old(named_colors)@,
            final(named_colors)@,
            name@,
            new_value,
            *palette_color_meths,
            compositing_mode,
            r,
        ),
{
    if let CompositingMode::RelativeToBackground = compositing_mode {
        return None;
    }
    let i = match first_named_index(named_colors, name) {
        Some(i) => i,
        None => return None,
    };
    let ghost c0 = *class;
    let ghost colors0 = named_colors@;
    let ghost nv = new_value;
    proof {
        lemma_first_named(colors0, name@, 0);
        assert(first_named(colors0, name@, 0) == Some(i as int));
        assert(!(compositing_mode is RelativeToBackground));
        assert(!(colors0[i as int].components is Rgbaf || colors0[i as int].components is Rgbad));
    }
    let target = match compositing_mode {
        CompositingMode::BlendedOnBackground => &palette_color_meths.rgba_i_blended_on_background,
        CompositingMode::RelativeToBackground => &palette_color_meths.hsv_f_relative_to_background,
        CompositingMode::Absolute => &palette_color_meths.rgba_i_absolute,
    };
    let found = find_method_by_sig(class, target.signature.as_str(), target.method.as_str());
    let n = class.cp.len();
    let (method_id, appends) = match found {
        Some((id, _)) => (id, false),
        None => ((n + 5) as u16, true),
    };
    let n1 = if appends {
        n + 6
    } else {
        n
    };
    let old_sig = palette_color_meths.from_components(&named_colors[i].components).signature.clone();
    let midx = named_colors[i].method_idx;
    let has_code = if midx < class.methods.len() {
        if class.methods[midx].attrs.len() > 0 {
            match &class.methods[midx].attrs[0] {
                MethodAttr::Code(_, _) => true,
                MethodAttr::Raw(_) => false,
            }
        } else {
            false
        }
    } else {
        false
    };
    if !has_code {
        if appends {
            push_method_ref(&mut class.cp, &palette_color_meths.rgba_i_absolute);
        }
        proof {
            reveal(recolored);
        }
        return None;
    }
    let ghost m0 = class.methods@[midx as int];
    let mut m = Method { access: 0, name: 0, desc: 0, attrs: Vec::new() };
    class.methods.set_and_swap(midx, &mut m);
    assert(m == m0);
    let (mut repl, floats) = new_value.to_ixs(n1);
    repl.push(Instr::Invokevirtual(method_id));
    let (mut m1, replaced) = recolor_method(&class.cp, m, name, &old_sig, repl);
    class.methods.set_and_swap(midx, &mut m1);
    if appends {
        push_method_ref(&mut class.cp, &palette_color_meths.rgba_i_absolute);
    }
    if replaced {
        if let Some(fs) = floats {
            assert(fs@.len() == 3);
            let mut j: usize = 0;
            let ghost cp_before = class.cp@;
            let ghost c_mid = *class;
            while j < fs.len()
                invariant
                    j <= fs@.len(),
                    class.methods == c_mid.methods,
                    class.minor == c_mid.minor,
                    class.major == c_mid.major,
                    class.access == c_mid.access,
                    class.this_class == c_mid.this_class,
                    class.super_class == c_mid.super_class,
                    class.interfaces == c_mid.interfaces,
                    class.fields == c_mid.fields,
                    class.attrs == c_mid.attrs,
                    class.cp@.len() == cp_before.len() + j,
                    forall|t: int| 0 <= t < cp_before.len() ==> #[trigger] class.cp@[t] == cp_before[t],
                    forall|t: int| 0 <= t < j ==> #[trigger] class.cp@[cp_before.len() + t] == Const::Float(fs@[t].float),
                    cp_before.len() + fs@.len() <= usize::MAX,
                decreases fs@.len() - j,
            {
                class.cp.push(Const::Float(fs[j].float));
                j += 1;
            }
        }
        let mut nc = NamedColor {
            class_name: String::new(),
            method_idx: 0,
            color_name: String::new(),
            components: ColorComponents::Grayscale(0),
            compositing_mode: CompositingMode::Absolute,
        };
        named_colors.set_and_swap(i, &mut nc);
        nc.components = new_value;
        named_colors.set_and_swap(i, &mut nc);
    }
    proof {
        reveal(recolored);
        let c1 = *class;
        let n1s = pool_len_with_ref(c0, *palette_color_meths, compositing_mode);
        assert(n1s == n1);
        assert(new_method_id(c0, *palette_color_meths, compositing_mode) == method_id);
        assert(c1.cp@.len() >= n1);
        assert(forall|j: int| 0 <= j < n ==> #[trigger] c1.cp@[j] == c0.cp@[j]);
        assert(c1.methods@.len() == c0.methods@.len());
        assert(forall|j: int| 0 <= j < c0.methods@.len() && j != midx ==> #[trigger] c1.methods@[j] == c0.methods@[j]);
        assert(method_recolored(c0.cp@, c0.methods@[midx as int], c1.methods@[midx as int], name@, old_sig@,
            definition_instrs(new_value@, n1 as int, method_id)));
        assert(target_code(c0, colors0[i as int].method_idx) is Some);
        assert(appends_method_ref(c0, *palette_color_meths, compositing_mode) ==> method_ref_appended(c1.cp@, n as int, palette_color_meths.rgba_i_absolute));
        assert(c1.interfaces == c0.interfaces && c1.fields == c0.fields && c1.attrs == c0.attrs);
        let found = name_load_from(c0.cp@, target_code(c0, midx)->0, name@, 0) is Some;
        assert(found == replaced);
        assert(found ==> named_colors_view(named_colors@) == named_colors_view(colors0).update(i as int, with_components(colors0[i as int]@, new_value@)));
        assert(!found ==> named_colors@ == colors0);
        assert(c1.minor == c0.minor && c1.major == c0.major && c1.access == c0.access);
        assert(c1.this_class == c0.this_class && c1.super_class == c0.super_class);
        match nv {
            ColorComponents::DeltaHsvf(h, sv, vv) => {
                if found {
                    assert(c1.cp@.len() == n1 + 3);
                    assert(c1.cp@[n1 + 0] == Const::Float(h));
                    assert(c1.cp@[n1 + 1] == Const::Float(sv));
                    assert(c1.cp@[n1 + 2] == Const::Float(vv));
                } else {
                    assert(c1.cp@.len() == n1);
                }
            },
            _ => {
                assert(c1.cp@.len() == n1);
            },
        }
    }
    Some(())
}

/// The instruction that pushes a component pushes exactly that byte.
pub proof fn lemma_push_component_value(c: u8)
    ensures
        push_component(c).int_value() == Some(c),
{
    if c > 127 {
        assert((c as i16) as u8 == c) by (bit_vector);
    } else {
        assert(c <= 127 ==> (c as i8) as u8 == c) by (bit_vector);
    }
}

/// A recolored definition reads back as what was written: after
/// `replace_named_color` rewrites the definition of `name` to rgba
/// components, the rewritten method still loads `name` at the same
/// instruction, and the rgba layout read at the new invocation gives the
/// written components; hsv components read back likewise when their
/// constants are within the reach of `ldc_w` and none is a NaN.
pub proof fn lemma_recolor_reads_back(
    c0: ClassFile,
    c1: ClassFile,
    colors0: Seq<NamedColor>,
    colors1: Seq<NamedColor>,
    name: Seq<char>,
    v: ColorComponents,
    p: PaletteColorMethods,
    mode: CompositingMode,
    r: Option<()>,
)
    requires
        recolored(c0, c1, colors0, colors1, name, v, p, mode, r),
        first_named(colors0, name, 0) is Some,
        target_code(c0, colors0[first_named(colors0, name, 0)->0].method_idx) matches Some(bc) && name_load_from(
            c0.cp@,
            bc,
            name,
            0,
        ) is Some && definition_end(
            c0.cp@,
            bc,
            p.spec_from_components(colors0[first_named(colors0, name, 0)->0].components).signature@,
            name_load_from(c0.cp@, bc, name, 0)->0 + 1,
        ) is Some,
        target_code(c0, colors0[first_named(colors0, name, 0)->0].method_idx) matches Some(bc) && bc.len() + 5
            <= u32::MAX,
        v is DeltaHsvf ==> pool_len_with_ref(c0, p, mode) + 2 <= 65535,
        v matches ColorComponents::DeltaHsvf(h, s, vv) ==> !is_nan_f32(h) && !is_nan_f32(s) && !is_nan_f32(vv),
        v.has_instructions(),
    ensures
        ({
            let i = first_named(colors0, name, 0)->0;
            let midx = colors0[i].method_idx;
            let bc0 = target_code(c0, midx)->0;
            let k = name_load_from(c0.cp@, bc0, name, 0)->0;
            let bc1 = target_code(c1, midx)->0;
            &&& target_code(c1, midx) is Some
            &&& bc1[k].1 == bc0[k].1
            &&& match v {
                ColorComponents::Rgbai(red, g, b, a) => spec_extract(MethodSignatureKind::Siiii, (k + 5) as usize, bc1, c1.cp@)
                    == Ok::<ComponentsView, crate::methods::ExtractionErrorView>(ComponentsView::Rgbai(red, g, b, a)),
                ColorComponents::DeltaHsvf(h, s, vv) => spec_extract(MethodSignatureKind::Sfff, (k + 4) as usize, bc1, c1.cp@)
                    == Ok::<ComponentsView, crate::methods::ExtractionErrorView>(ComponentsView::DeltaHsvf(h, s, vv)),
                _ => true,
            }
        }),
{
    reveal(recolored);
    lemma_first_named(colors0, name, 0);
    let i = first_named(colors0, name, 0)->0;
    let nc = colors0[i];
    let midx = nc.method_idx;
    let bc0 = target_code(c0, midx)->0;
    let sig = p.spec_from_components(nc.components).signature@;
    let k = name_load_from(c0.cp@, bc0, name, 0)->0;
    let e = definition_end(c0.cp@, bc0, sig, k + 1)->0;
    lemma_name_load_in_range(c0.cp@, bc0, name, 0);
    lemma_definition_end_in_range(c0.cp@, bc0, sig, k + 1);
    let n1 = pool_len_with_ref(c0, p, mode);
    let repl = definition_instrs(v@, n1, new_method_id(c0, p, mode));
    let m1 = c1.methods@[midx as int];
    let bc1 = target_code(c1, midx)->0;
    let is = rewritten_instrs(c0.cp@, bc0, name, sig, repl);
    assert(numbered(bc1, is));
    let pre = instrs_of(bc0.subrange(0, k + 1));
    assert(is == pre + repl + instrs_of(bc0.subrange(e + 1, bc0.len() as int)));
    assert(bc1[k].1 == is[k]);
    assert(is[k] == pre[k]);
    match v {
        ColorComponents::Rgbai(red, g, b, a) => {
            lemma_push_component_value(red);
            lemma_push_component_value(g);
            lemma_push_component_value(b);
            lemma_push_component_value(a);
            assert(bc1[k + 1].1 == is[k + 1] && is[k + 1] == repl[0]);
            assert(bc1[k + 2].1 == is[k + 2] && is[k + 2] == repl[1]);
            assert(bc1[k + 3].1 == is[k + 3] && is[k + 3] == repl[2]);
            assert(bc1[k + 4].1 == is[k + 4] && is[k + 4] == repl[3]);
            assert(bc1.len() == is.len() && is.len() >= k + 6);
            let idx = (k + 5) as usize;
            assert(idx == k + 5);
            assert(crate::methods::int_at(bc1, idx, 4) == Ok::<u8, crate::methods::ExtractionErrorView>(red));
            assert(crate::methods::int_at(bc1, idx, 3) == Ok::<u8, crate::methods::ExtractionErrorView>(g));
            assert(crate::methods::int_at(bc1, idx, 2) == Ok::<u8, crate::methods::ExtractionErrorView>(b));
            assert(crate::methods::int_at(bc1, idx, 1) == Ok::<u8, crate::methods::ExtractionErrorView>(a));
            crate::methods::lemma_four_ints(bc1, idx, red, g, b, a);
        },
        ColorComponents::DeltaHsvf(h, s, vv) => {
            assert(bc1[k + 1].1 == is[k + 1] && is[k + 1] == repl[0]);
            assert(bc1[k + 2].1 == is[k + 2] && is[k + 2] == repl[1]);
            assert(bc1[k + 3].1 == is[k + 3] && is[k + 3] == repl[2]);
            assert(c1.cp@[n1] == Const::Float(h));
            assert(c1.cp@[n1 + 1] == Const::Float(s));
            assert(c1.cp@[n1 + 2] == Const::Float(vv));
            assert(bc1.len() == is.len() && is.len() >= k + 5);
            let idx = (k + 4) as usize;
            assert(idx == k + 4);
        },
        _ => {},
    }
}

} // verus!
