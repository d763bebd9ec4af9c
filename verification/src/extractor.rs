//! Finding the palette's color-defining methods, the raw color class and
//! the named color definitions in the classes of a JAR.
use crate::bytes::{bytes_eq, contains, has_infix, has_prefix};
use crate::classfile::{ClassFile, Const, Instr, Method, MethodAttr};
use crate::colors::{
    ColorComponents, ComponentsView, NamedColor, NamedColorView, RawColorConst, RawColorConstants, RawConstView,
    named_colors_view, raw_consts_view,
};
use crate::types::CompositingMode;
use crate::introspection::{
    class_name_at, classify_signature, collect_invokes, cp_class_name, cp_utf8, describes, find_const_name,
    find_method, find_method_description, invokevirtual_ids, second_method_bytecode, second_method_code,
    find_utf_ldc, sig_string_bytes, spec_const_name, spec_find_method, spec_method_ref, spec_utf_ldc, utf8_at,
};
use crate::methods::{
    ExtractionErrorView, MethodDescription, MethodSignatureKind, PaletteColorMethods, RawColorMethods, spec_extract,
};
use crate::chars::{chars_eq, chars_of};
use crate::mutf8::{java_string, java_text};
use crate::text::{bytes_of, lossy_string, str_bytes, string_bytes, utf8_lossy};
use vstd::prelude::*;

verus! {

/// The bytes of an ASCII string literal.
proof fn lemma_ascii_bytes(s: &str)
    requires
        vstd::string::is_ascii(s),
    ensures
        str_bytes(s).len() == s@.len(),
        forall|i: int| 0 <= i < s@.len() ==> #[trigger] str_bytes(s)[i] == s@[i] as u8,
{
    vstd::string::is_ascii_spec_bytes(s);
}

/// A descriptor whose first parameter is a `String`, other than
/// `(Ljava/lang/String;FFFF)...`, is never classified as a raw color
/// constructor layout.
pub proof fn lemma_named_layout(s: Seq<u8>)
    requires
        has_prefix(s, str_bytes("(Ljava/lang/String;")),
        !has_prefix(s, str_bytes("(Ljava/lang/String;FFFF)")),
    ensures
        classify_signature(s, None) matches Some(k) ==> k.is_named(),
{
    reveal_strlit("(Ljava/lang/String;");
    reveal_strlit("(DDDD)V");
    reveal_strlit("(FFFF)V");
    lemma_ascii_bytes("(Ljava/lang/String;");
    lemma_ascii_bytes("(DDDD)V");
    lemma_ascii_bytes("(FFFF)V");
    assert(s[1] == str_bytes("(Ljava/lang/String;")[1]);
    assert(s != str_bytes("(DDDD)V"));
    assert(s != str_bytes("(FFFF)V"));
}

/// The descriptor prefixes by which the palette's methods are found.
pub open spec fn is_palette_start(start: Seq<char>) -> bool {
    ||| start == "(Ljava/lang/String;I)"@
    ||| start == "(Ljava/lang/String;III)"@
    ||| start == "(Ljava/lang/String;IIII)"@
    ||| start == "(Ljava/lang/String;FFF)"@
    ||| start == "(Ljava/lang/String;L"@
}

/// A descriptor found by one of the palette prefixes has a layout that
/// starts with the color name, if any.
pub proof fn lemma_palette_start_named(s: Seq<u8>, start: &str)
    requires
        is_palette_start(start@),
        has_prefix(s, str_bytes(start)),
    ensures
        classify_signature(s, None) matches Some(k) ==> k.is_named(),
{
    reveal_strlit("(Ljava/lang/String;I)");
    reveal_strlit("(Ljava/lang/String;III)");
    reveal_strlit("(Ljava/lang/String;IIII)");
    reveal_strlit("(Ljava/lang/String;FFF)");
    reveal_strlit("(Ljava/lang/String;L");
    reveal_strlit("(Ljava/lang/String;");
    reveal_strlit("(Ljava/lang/String;FFFF)");
    lemma_ascii_bytes(start);
    lemma_ascii_bytes("(Ljava/lang/String;");
    lemma_ascii_bytes("(Ljava/lang/String;FFFF)");
    let p = str_bytes("(Ljava/lang/String;");
    let f = str_bytes("(Ljava/lang/String;FFFF)");
    let b = str_bytes(start);
    assert forall|i: int| 0 <= i < 19 implies s[i] == p[i] by {
        assert(s[i] == s.subrange(0, b.len() as int)[i]);
    }
    assert(s.subrange(0, 19) =~= p);
    let k: int = if start@ == "(Ljava/lang/String;FFF)"@ { 22 } else { 19 };
    assert(s[k] == b[k]) by {
        assert(s[k] == s.subrange(0, b.len() as int)[k]);
    }
    assert(b[k] != f[k]);
    if s.len() >= 24 {
        assert(s.subrange(0, 24)[k] == s[k]);
    }
    assert(!has_prefix(s, f));
    lemma_named_layout(s);
}

/// The method reference that `find_method` describes, when it finds one.
pub open spec fn found_ref(cp: Seq<Const>, start: &str, invokes: Seq<u16>, skip: int) -> Option<
    (Seq<u8>, Seq<u8>, Seq<u8>),
> {
    match spec_find_method(cp, str_bytes(start), invokes, skip) {
        Some(j) => spec_method_ref(cp, invokes[j]),
        None => None,
    }
}

/// The method references the palette's methods are read from, invoked in
/// the class's second method: grayscale, rgb, rgba, the second rgba
/// invocation (blended on background), and hsv relative to background.
pub open spec fn palette_refs(c: ClassFile) -> Option<Seq<(Seq<u8>, Seq<u8>, Seq<u8>)>> {
    match second_method_code(c) {
        None => None,
        Some(bc) => {
            let inv = invokevirtual_ids(bc);
            match (
                found_ref(c.cp@, "(Ljava/lang/String;I)", inv, 0),
                found_ref(c.cp@, "(Ljava/lang/String;III)", inv, 0),
                found_ref(c.cp@, "(Ljava/lang/String;IIII)", inv, 0),
                found_ref(c.cp@, "(Ljava/lang/String;IIII)", inv, 1),
                found_ref(c.cp@, "(Ljava/lang/String;FFF)", inv, 0),
            ) {
                (Some(g), Some(rgb), Some(rgba), Some(blended), Some(hsv)) => Some(
                    seq![g, rgb, rgba, blended, hsv],
                ),
                _ => None,
            }
        },
    }
}

/// The method that defines colors by a reference to another color and an
/// hsv adjustment, when the class invokes one: a descriptor starting with
/// `(Ljava/lang/String;L` that also holds `FFF)`.
pub open spec fn ref_hsv_ref(c: ClassFile) -> Option<(Seq<u8>, Seq<u8>, Seq<u8>)> {
    match second_method_code(c) {
        None => None,
        Some(bc) => match found_ref(c.cp@, "(Ljava/lang/String;L", invokevirtual_ids(bc), 0) {
            Some(q) => if has_infix(sig_string_bytes(q.2), str_bytes("FFF)")) {
                Some(q)
            } else {
                None
            },
            None => None,
        },
    }
}

/// `p` holds the palette methods of class `c`; missing reference-based and
/// name-based hsv methods fall back to the relative hsv method.
#[verifier::opaque]
pub open spec fn palette_of(c: ClassFile, p: PaletteColorMethods) -> bool {
    match palette_refs(c) {
        None => false,
        Some(refs) => {
            &&& describes(p.grayscale_i, refs[0], None)
            &&& describes(p.rgb_i, refs[1], None)
            &&& describes(p.rgba_i_absolute, refs[2], None)
            &&& describes(p.rgba_i_blended_on_background, refs[3], None)
            &&& describes(p.hsv_f_relative_to_background, refs[4], None)
            &&& describes(p.name_hsv_f, refs[4], None)
            &&& match ref_hsv_ref(c) {
                Some(q) => describes(p.ref_hsv_f, q, None),
                None => describes(p.ref_hsv_f, refs[4], None),
            }
        },
    }
}

/// Every layout of the palette's methods starts with the color name.
pub open spec fn palette_layouts_named(p: PaletteColorMethods) -> bool {
    forall|i: int|
        0 <= i < 7 ==> ((#[trigger] p.spec_all()[i]).0.signature_kind matches Some(k) ==> k.is_named())
}

/// A description made by `find_method` from one of the palette prefixes
/// has a layout that starts with the color name.
proof fn lemma_found_named(
    cp: Seq<Const>,
    start: &str,
    invokes: Seq<u16>,
    skip: int,
    d: MethodDescription,
)
    requires
        is_palette_start(start@),
        spec_find_method(cp, str_bytes(start), invokes, skip) matches Some(j) && describes(
            d,
            spec_method_ref(cp, invokes[j])->0,
            None,
        ),
    ensures
        d.signature_kind matches Some(k) ==> k.is_named(),
    decreases invokes.len() - skip,
{
    let q = spec_method_ref(cp, invokes[spec_find_method(cp, str_bytes(start), invokes, skip)->0])->0;
    lemma_find_prefix(cp, str_bytes(start), invokes, skip);
    assert(string_bytes(d.signature) == sig_string_bytes(q.2));
    lemma_palette_start_named(string_bytes(d.signature), start);
}

/// What `spec_find_method` finds has the prefix it looks for.
proof fn lemma_find_prefix(cp: Seq<Const>, start: Seq<u8>, invokes: Seq<u16>, i: int)
    ensures
        spec_find_method(cp, start, invokes, i) matches Some(j) ==> (0 <= j < invokes.len()
            && (spec_method_ref(cp, invokes[j]) matches Some(q) && has_prefix(sig_string_bytes(q.2), start))),
    decreases invokes.len() - i,
{
    if 0 <= i < invokes.len() {
        lemma_find_prefix(cp, start, invokes, i + 1);
    }
}

/// The palette's color-defining methods, read from the invocations in the
/// second method of the palette class (see `palette_of`).
pub fn extract_palette_color_methods(class: &ClassFile) -> (r: Option<PaletteColorMethods>)
    ensures
        r is Some <==> palette_refs(*class) is Some,
        r matches Some(p) ==> palette_of(*class, p) && palette_layouts_named(p),
{
    let cp = &class.cp;
    let bytecode = match second_method_bytecode(class) {
        Some(b) => b,
        None => return None,
    };
    let invokes = collect_invokes(bytecode);
    let ghost inv = invokes@;
    let grayscale_i = match find_method("(Ljava/lang/String;I)", None, None, &invokes, cp) {
        Some(d) => d,
        None => return None,
    };
    let rgb_i = match find_method("(Ljava/lang/String;III)", None, None, &invokes, cp) {
        Some(d) => d,
        None => return None,
    };
    let rgba_i_absolute = match find_method("(Ljava/lang/String;IIII)", None, None, &invokes, cp) {
        Some(d) => d,
        None => return None,
    };
    let rgba_i_blended_on_background = match find_method(
        "(Ljava/lang/String;IIII)",
        None,
        Some(1),
        &invokes,
        cp,
    ) {
        Some(d) => d,
        None => return None,
    };
    let hsv_f_relative_to_background = match find_method("(Ljava/lang/String;FFF)", None, None, &invokes, cp) {
        Some(d) => d,
        None => return None,
    };
    let ref_hsv_f = match find_method("(Ljava/lang/String;L", None, None, &invokes, cp) {
        Some(d) => if contains(bytes_of(&d.signature), "FFF)".as_bytes()) {
            Some(d)
        } else {
            None
        },
        None => None,
    };
    let name_hsv_f = find_method("(Ljava/lang/String;FFF)", None, None, &invokes, cp);
    let ref_hsv_f = match ref_hsv_f {
        Some(d) => d,
        None => hsv_f_relative_to_background.clone(),
    };
    let name_hsv_f = match name_hsv_f {
        Some(d) => d,
        None => hsv_f_relative_to_background.clone(),
    };
    let p = PaletteColorMethods {
        grayscale_i,
        rgb_i,
        rgba_i_absolute,
        rgba_i_blended_on_background,
        hsv_f_relative_to_background,
        ref_hsv_f,
        name_hsv_f,
    };
    proof {
        reveal(palette_of);
        reveal_strlit("(Ljava/lang/String;I)");
        reveal_strlit("(Ljava/lang/String;III)");
        reveal_strlit("(Ljava/lang/String;IIII)");
        reveal_strlit("(Ljava/lang/String;FFF)");
        reveal_strlit("(Ljava/lang/String;L");
        lemma_find_prefix(cp@, str_bytes("(Ljava/lang/String;I)"), inv, 0);
        lemma_find_prefix(cp@, str_bytes("(Ljava/lang/String;III)"), inv, 0);
        lemma_find_prefix(cp@, str_bytes("(Ljava/lang/String;IIII)"), inv, 0);
        lemma_find_prefix(cp@, str_bytes("(Ljava/lang/String;IIII)"), inv, 1);
        lemma_find_prefix(cp@, str_bytes("(Ljava/lang/String;FFF)"), inv, 0);
        lemma_find_prefix(cp@, str_bytes("(Ljava/lang/String;L"), inv, 0);
        lemma_found_named(cp@, "(Ljava/lang/String;I)", inv, 0, p.grayscale_i);
        lemma_found_named(cp@, "(Ljava/lang/String;III)", inv, 0, p.rgb_i);
        lemma_found_named(cp@, "(Ljava/lang/String;IIII)", inv, 0, p.rgba_i_absolute);
        lemma_found_named(cp@, "(Ljava/lang/String;IIII)", inv, 1, p.rgba_i_blended_on_background);
        lemma_found_named(cp@, "(Ljava/lang/String;FFF)", inv, 0, p.hsv_f_relative_to_background);
        lemma_found_named(cp@, "(Ljava/lang/String;FFF)", inv, 0, p.name_hsv_f);
        match ref_hsv_ref(*class) {
            Some(q) => lemma_found_named(cp@, "(Ljava/lang/String;L", inv, 0, p.ref_hsv_f),
            None => lemma_found_named(cp@, "(Ljava/lang/String;FFF)", inv, 0, p.ref_hsv_f),
        }
        assert(palette_layouts_named(p));
    }
    Some(p)
}

/// Constructors and constants of the raw color class.
pub struct RawColorGoodies {
    pub methods: RawColorMethods,
    pub constants: RawColorConstants,
}

/// The bytecode of a method whose first attribute is its code.
pub open spec fn code_of(m: Method) -> Option<Seq<(u32, Instr)>> {
    if m.attrs@.len() > 0 {
        match m.attrs@[0] {
            MethodAttr::Code(_, code) => Some(code.bytecode@),
            _ => None,
        }
    } else {
        None
    }
}

/// `m` is named `name` and its first attribute is its code.
pub open spec fn is_code_named(cp: Seq<Const>, m: Method, name: &str) -> bool {
    &&& cp_utf8(cp, m.name as int) matches Some(b) && java_text(b) == Some(name@)
    &&& code_of(m) is Some
}

/// The class has a constructor with code and descriptor `sig`.
pub open spec fn has_ctor_with(c: ClassFile, sig: &str) -> bool {
    exists|i: int|
        0 <= i < c.methods@.len() && is_code_named(c.cp@, #[trigger] c.methods@[i], "<init>") && cp_utf8(
            c.cp@,
            c.methods@[i].desc as int,
        ) == Some(str_bytes(sig))
}

/// Every constructor with code has a UTF-8 descriptor.
pub open spec fn ctor_descs_resolve(c: ClassFile) -> bool {
    forall|i: int|
        0 <= i < c.methods@.len() && is_code_named(c.cp@, #[trigger] c.methods@[i], "<init>") ==> cp_utf8(
            c.cp@,
            c.methods@[i].desc as int,
        ) is Some
}

/// The description of the raw color constructor with descriptor `sig`.
pub open spec fn is_raw_ctor(d: MethodDescription, cname: Seq<char>, sig: &str, kind: MethodSignatureKind) -> bool {
    &&& d.class@ == cname
    &&& d.method@ == "<init>"@
    &&& d.signature@ == sig@
    &&& d.signature_kind == Some(kind)
}

/// The method reference is described like the raw color constructor with
/// descriptor `sig`.
pub open spec fn refers_raw_ctor(
    parts: (Seq<u8>, Seq<u8>, Seq<u8>),
    cname: Seq<char>,
    sig: &str,
    kind: MethodSignatureKind,
) -> bool {
    &&& utf8_lossy(parts.0) == cname
    &&& utf8_lossy(parts.1) == "<init>"@
    &&& utf8_lossy(parts.2) == sig@
    &&& classify_signature(sig_string_bytes(parts.2), None) == Some(kind)
}

/// The components of the raw color that instruction `idx` constructs:
/// an `invokespecial` of the float constructor whose arguments can be
/// read, else of the double constructor.
pub open spec fn raw_def_at(cp: Seq<Const>, bc: Seq<(u32, Instr)>, cname: Seq<char>, idx: int) -> Option<
    ComponentsView,
> {
    match bc[idx].1 {
        Instr::Invokespecial(id) => match spec_method_ref(cp, id) {
            Some(parts) => {
                let f = spec_extract(MethodSignatureKind::Ffff, idx as usize, bc, cp);
                let d = spec_extract(MethodSignatureKind::Dddd, idx as usize, bc, cp);
                if refers_raw_ctor(parts, cname, "(FFFF)V", MethodSignatureKind::Ffff) && f is Ok {
                    Some(f->Ok_0)
                } else if refers_raw_ctor(parts, cname, "(DDDD)V", MethodSignatureKind::Dddd) && d is Ok {
                    Some(d->Ok_0)
                } else {
                    None
                }
            },
            None => None,
        },
        _ => None,
    }
}

/// The name of the field that the instruction after `idx` stores to.
pub open spec fn stored_field_name(cp: Seq<Const>, bc: Seq<(u32, Instr)>, idx: int) -> Option<Seq<u8>> {
    if idx + 1 < bc.len() {
        match bc[idx + 1].1 {
            Instr::Putstatic(ci) => spec_const_name(cp, ci),
            _ => None,
        }
    } else {
        None
    }
}

/// The raw color constants defined by the first `n` instructions.
pub open spec fn raw_consts_in(cp: Seq<Const>, bc: Seq<(u32, Instr)>, cname: Seq<char>, n: int) -> Seq<
    RawConstView,
>
    decreases n,
{
    if n <= 0 {
        seq![]
    } else {
        let prev = raw_consts_in(cp, bc, cname, n - 1);
        match raw_def_at(cp, bc, cname, n - 1) {
            Some(comps) => prev.push(
                RawConstView {
                    class_name: cname,
                    const_name: utf8_lossy(stored_field_name(cp, bc, n - 1)->0),
                    color_comps: comps,
                },
            ),
            None => prev,
        }
    }
}

/// Every raw color constructed in `bc` is stored to a named static field
/// by the next instruction.
pub open spec fn raw_stores_resolve(cp: Seq<Const>, bc: Seq<(u32, Instr)>, cname: Seq<char>) -> bool {
    forall|idx: int|
        0 <= idx < bc.len() && (#[trigger] raw_def_at(cp, bc, cname, idx)) is Some ==> stored_field_name(
            cp,
            bc,
            idx,
        ) is Some
}

/// The raw color constants defined in the static initializers among the
/// first `n` methods.
pub open spec fn class_raw_consts(c: ClassFile, cname: Seq<char>, n: int) -> Seq<RawConstView>
    decreases n,
{
    if n <= 0 || n > c.methods@.len() {
        seq![]
    } else {
        let prev = class_raw_consts(c, cname, n - 1);
        let m = c.methods@[n - 1];
        if is_code_named(c.cp@, m, "<clinit>") {
            let bc = code_of(m)->0;
            prev + raw_consts_in(c.cp@, bc, cname, bc.len() as int)
        } else {
            prev
        }
    }
}

/// Every static initializer stores the raw colors it constructs.
pub open spec fn clinit_stores_resolve(c: ClassFile, cname: Seq<char>) -> bool {
    forall|i: int|
        0 <= i < c.methods@.len() && is_code_named(c.cp@, #[trigger] c.methods@[i], "<clinit>")
            ==> raw_stores_resolve(c.cp@, code_of(c.methods@[i])->0, cname)
}

/// The class names itself, and the name reads as text (see `java_text`).
pub open spec fn class_named(c: ClassFile) -> bool {
    cp_class_name(c.cp@, c.this_class as int) matches Some(b) && java_text(b) is Some
}

/// The class's name, decoded.
pub open spec fn class_name_chars(c: ClassFile) -> Seq<char> {
    java_text(cp_class_name(c.cp@, c.this_class as int)->0)->0
}

/// The class's name as text, where it has one (see `class_named`).
pub fn class_name_text(class: &ClassFile) -> (r: Option<String>)
    ensures
        r is Some <==> class_named(*class),
        r matches Some(s) ==> s@ == class_name_chars(*class),
{
    match class_name_at(&class.cp, class.this_class) {
        Some(b) => java_string(b),
        None => None,
    }
}

/// The inputs `extract_raw_color_goodies` reads without failing: its
/// constructors have UTF-8 descriptors and, when both raw constructors
/// exist, every raw color its static initializers construct is stored to a
/// named static field right after.
pub open spec fn raw_class_ok(c: ClassFile) -> bool {
    class_named(c) ==> {
        &&& ctor_descs_resolve(c)
        &&& (has_ctor_with(c, "(FFFF)V") && has_ctor_with(c, "(DDDD)V")) ==> clinit_stores_resolve(
            c,
            class_name_chars(c),
        )
    }
}

/// The class defines both raw color constructors.
pub open spec fn raw_found(c: ClassFile) -> bool {
    &&& class_named(c)
    &&& has_ctor_with(c, "(FFFF)V")
    &&& has_ctor_with(c, "(DDDD)V")
}

/// `g` holds the raw color constructors and constants of class `c`.
#[verifier::opaque]
pub open spec fn raw_goodies_of(c: ClassFile, g: RawColorGoodies) -> bool {
    let cname = class_name_chars(c);
    &&& is_raw_ctor(g.methods.rgba_f, cname, "(FFFF)V", MethodSignatureKind::Ffff)
    &&& is_raw_ctor(g.methods.rgba_d, cname, "(DDDD)V", MethodSignatureKind::Dddd)
    &&& raw_consts_view(g.constants.consts@) == class_raw_consts(c, cname, c.methods@.len() as int)
}

/// The raw color constructors found in a class belong to that class.
pub proof fn lemma_raw_ctor_class(c: ClassFile, g: RawColorGoodies)
    requires
        raw_goodies_of(c, g),
    ensures
        g.methods.rgba_f.class@ == class_name_chars(c),
        g.methods.rgba_d.class@ == class_name_chars(c),
{
    reveal(raw_goodies_of);
}

/// The first attribute of `m` when it is its code.
fn method_code(m: &Method) -> (r: Option<&Vec<(u32, Instr)>>)
    ensures
        match code_of(*m) {
            Some(bc) => r matches Some(v) && v@ == bc,
            None => r is None,
        },
{
    if m.attrs.len() == 0 {
        return None;
    }
    match &m.attrs[0] {
        MethodAttr::Code(_, code) => Some(&code.bytecode),
        _ => None,
    }
}

/// Whether `m` is named `name` and has code.
fn code_named(cp: &Vec<Const>, m: &Method, name: &str) -> (r: bool)
    ensures
        r == is_code_named(cp@, *m, name),
{
    let text = match utf8_at(cp, m.name) {
        Some(b) => match java_string(b) {
            Some(t) => t,
            None => return false,
        },
        None => return false,
    };
    chars_eq(chars_of(text.as_str()).as_slice(), chars_of(name).as_slice()) && method_code(m).is_some()
}

fn raw_ctor(cname: &String, sig: &str, kind: MethodSignatureKind) -> (d: MethodDescription)
    ensures
        is_raw_ctor(d, cname@, sig, kind),
{
    MethodDescription {
        class: cname.clone(),
        method: String::from_str("<init>"),
        signature: String::from_str(sig),
        signature_kind: Some(kind),
    }
}

/// Appends the raw color constants that `bc` defines (see
/// `raw_consts_in`); `false` when one of them is not stored to a named
/// static field right after.
fn collect_raw_consts(
    cp: &Vec<Const>,
    bc: &Vec<(u32, Instr)>,
    cname: &String,
    rgba_f: &MethodDescription,
    rgba_d: &MethodDescription,
    consts: &mut Vec<RawColorConst>,
) -> (r: bool)
    requires
        is_raw_ctor(*rgba_f, cname@, "(FFFF)V", MethodSignatureKind::Ffff),
        is_raw_ctor(*rgba_d, cname@, "(DDDD)V", MethodSignatureKind::Dddd),
    ensures
        r == raw_stores_resolve(cp@, bc@, cname@),
        r ==> raw_consts_view(final(consts)@) == raw_consts_view(old(consts)@) + raw_consts_in(
            cp@,
            bc@,
            cname@,
            bc@.len() as int,
        ),
{
    let ghost start = raw_consts_view(consts@);
    let mut idx: usize = 0;
    while idx < bc.len()
        invariant
            idx <= bc@.len(),
            is_raw_ctor(*rgba_f, cname@, "(FFFF)V", MethodSignatureKind::Ffff),
            is_raw_ctor(*rgba_d, cname@, "(DDDD)V", MethodSignatureKind::Dddd),
            raw_consts_view(consts@) == start + raw_consts_in(cp@, bc@, cname@, idx as int),
            forall|j: int|
                0 <= j < idx && (#[trigger] raw_def_at(cp@, bc@, cname@, j)) is Some ==> stored_field_name(
                    cp@,
                    bc@,
                    j,
                ) is Some,
        decreases bc@.len() - idx,
    {
        let ghost def = raw_def_at(cp@, bc@, cname@, idx as int);
        let mut comps: Option<ColorComponents> = None;
        if let Instr::Invokespecial(method_id) = &bc[idx].1 {
            if let Some(desc) = find_method_description(cp, *method_id, None) {
                if desc == *rgba_f {
                    if let Ok(c) = MethodSignatureKind::Ffff.extract_color_components(idx, bc, cp) {
                        comps = Some(c);
                    }
                }
                if comps.is_none() && desc == *rgba_d {
                    if let Ok(c) = MethodSignatureKind::Dddd.extract_color_components(idx, bc, cp) {
                        comps = Some(c);
                    }
                }
            }
        }
        assert(comps is Some <==> def is Some);
        assert(comps matches Some(c) ==> c@ == def->0);
        if let Some(color_comps) = comps {
            if idx + 1 >= bc.len() {
                return false;
            }
            let const_idx = match &bc[idx + 1].1 {
                Instr::Putstatic(ci) => *ci,
                _ => return false,
            };
            let const_name = match find_const_name(cp, const_idx) {
                Some(n) => n,
                None => return false,
            };
            let ghost before = consts@;
            consts.push(RawColorConst { class_name: cname.clone(), const_name, color_comps });
            assert(raw_consts_view(consts@) =~= raw_consts_view(before).push(consts@.last()@));
        }
        idx += 1;
    }
    true
}

/// The raw color goodies of the class, or `Err` on the classes that
/// `raw_class_ok` leaves out.
fn raw_color_goodies_checked(class: &ClassFile) -> (r: Result<Option<RawColorGoodies>, ()>)
    ensures
        r is Err <==> !raw_class_ok(*class),
        r matches Ok(o) ==> (o is Some <==> raw_found(*class)),
        r matches Ok(Some(g)) ==> raw_goodies_of(*class, g),
{
    let cp = &class.cp;
    let cname = match class_name_text(class) {
        Some(t) => t,
        None => return Ok(None),
    };
    let ghost c = *class;
    let mut has_f = false;
    let mut has_d = false;
    let mut k: usize = 0;
    while k < class.methods.len()
        invariant
            k <= class.methods@.len(),
            cp == &class.cp,
            c == *class,
            class_named(c),
            has_f == exists|i: int|
                0 <= i < k && is_code_named(c.cp@, #[trigger] c.methods@[i], "<init>") && cp_utf8(
                    c.cp@,
                    c.methods@[i].desc as int,
                ) == Some(str_bytes("(FFFF)V")),
            has_d == exists|i: int|
                0 <= i < k && is_code_named(c.cp@, #[trigger] c.methods@[i], "<init>") && cp_utf8(
                    c.cp@,
                    c.methods@[i].desc as int,
                ) == Some(str_bytes("(DDDD)V")),
            forall|i: int|
                0 <= i < k && is_code_named(c.cp@, #[trigger] c.methods@[i], "<init>") ==> cp_utf8(
                    c.cp@,
                    c.methods@[i].desc as int,
                ) is Some,
        decreases class.methods@.len() - k,
    {
        let m = &class.methods[k];
        if code_named(cp, m, "<init>") {
            let desc = match utf8_at(cp, m.desc) {
                Some(b) => b,
                None => {
                    assert(!ctor_descs_resolve(c));
                    return Err(());
                },
            };
            if bytes_eq(desc, "(FFFF)V".as_bytes()) {
                has_f = true;
            }
            if bytes_eq(desc, "(DDDD)V".as_bytes()) {
                has_d = true;
            }
        }
        k += 1;
    }
    if !has_f || !has_d {
        return Ok(None);
    }
    let methods = RawColorMethods {
        rgba_f: raw_ctor(&cname, "(FFFF)V", MethodSignatureKind::Ffff),
        rgba_d: raw_ctor(&cname, "(DDDD)V", MethodSignatureKind::Dddd),
    };
    let mut consts: Vec<RawColorConst> = Vec::new();
    let mut k: usize = 0;
    while k < class.methods.len()
        invariant
            k <= class.methods@.len(),
            cp == &class.cp,
            c == *class,
            cname@ == class_name_chars(c),
            raw_found(c),
            ctor_descs_resolve(c),
            is_raw_ctor(methods.rgba_f, cname@, "(FFFF)V", MethodSignatureKind::Ffff),
            is_raw_ctor(methods.rgba_d, cname@, "(DDDD)V", MethodSignatureKind::Dddd),
            raw_consts_view(consts@) == class_raw_consts(c, cname@, k as int),
            forall|i: int|
                0 <= i < k && is_code_named(c.cp@, #[trigger] c.methods@[i], "<clinit>") ==> raw_stores_resolve(
                    c.cp@,
                    code_of(c.methods@[i])->0,
                    cname@,
                ),
        decreases class.methods@.len() - k,
    {
        let m = &class.methods[k];
        if code_named(cp, m, "<clinit>") {
            let bc = match method_code(m) {
                Some(bc) => bc,
                None => {
                    k += 1;
                    continue;
                },
            };
            if !collect_raw_consts(cp, bc, &cname, &methods.rgba_f, &methods.rgba_d, &mut consts) {
                assert(!clinit_stores_resolve(c, cname@));
                return Err(());
            }
        }
        k += 1;
    }
    proof {
        reveal(raw_goodies_of);
    }
    Ok(Some(RawColorGoodies { methods, constants: RawColorConstants { consts } }))
}

/// Whether `extract_raw_color_goodies` can read the class (see
/// `raw_class_ok`).
pub fn is_raw_class_readable(class: &ClassFile) -> (r: bool)
    ensures
        r == raw_class_ok(*class),
{
    raw_color_goodies_checked(class).is_ok()
}

/// The raw color class's float and double constructors and the color
/// constants its static initializers define (see `raw_goodies_of`); `None`
/// when the class name cannot be resolved or a constructor is missing.
pub fn extract_raw_color_goodies(class: &ClassFile) -> (r: Option<RawColorGoodies>)
    requires
        raw_class_ok(*class),
    ensures
        r is Some <==> raw_found(*class),
        r matches Some(g) ==> raw_goodies_of(*class, g),
{
    match raw_color_goodies_checked(class) {
        Ok(o) => o,
        Err(_) => None,
    }
}

/// The named color that palette method `m` defines at invocation `idx`,
/// when the invoked reference is described as `m`: the color name is
/// loaded by an `ldc` at the layout's name offset before the invocation,
/// and the components can be read.
pub open spec fn named_def(
    cp: Seq<Const>,
    bc: Seq<(u32, Instr)>,
    parts: (Seq<u8>, Seq<u8>, Seq<u8>),
    m: MethodDescription,
    mode: CompositingMode,
    cname: Seq<char>,
    midx: usize,
    idx: int,
) -> Option<NamedColorView> {
    if describes(m, parts, None) {
        match m.signature_kind {
            Some(k) => {
                let off = k.spec_color_name_ix_offset();
                if idx >= off {
                    let ldc = match bc[idx - off].1 {
                        Instr::Ldc(i) => Some(i as u16),
                        Instr::LdcW(i) => Some(i),
                        _ => None,
                    };
                    match ldc {
                        Some(id) => match (spec_utf_ldc(cp, id), spec_extract(k, idx as usize, bc, cp)) {
                            (Some(t), Ok(comps)) => Some(
                                NamedColorView {
                                    class_name: cname,
                                    method_idx: midx,
                                    color_name: utf8_lossy(t),
                                    components: comps,
                                    compositing_mode: mode,
                                },
                            ),
                            _ => None,
                        },
                        None => None,
                    }
                } else {
                    None
                }
            },
            None => None,
        }
    } else {
        None
    }
}

/// The named colors the first `j` palette methods define at invocation
/// `idx`, in palette order.
pub open spec fn defs_for_methods(
    cp: Seq<Const>,
    bc: Seq<(u32, Instr)>,
    parts: (Seq<u8>, Seq<u8>, Seq<u8>),
    pal: Seq<(MethodDescription, CompositingMode)>,
    cname: Seq<char>,
    midx: usize,
    idx: int,
    j: int,
) -> Seq<NamedColorView>
    decreases j,
{
    if j <= 0 || j > pal.len() {
        seq![]
    } else {
        let prev = defs_for_methods(cp, bc, parts, pal, cname, midx, idx, j - 1);
        match named_def(cp, bc, parts, pal[j - 1].0, pal[j - 1].1, cname, midx, idx) {
            Some(v) => prev.push(v),
            None => prev,
        }
    }
}

/// The named colors defined at instruction `idx`, an `invokevirtual` of
/// a resolvable method reference.
pub open spec fn defs_at(
    cp: Seq<Const>,
    bc: Seq<(u32, Instr)>,
    pal: Seq<(MethodDescription, CompositingMode)>,
    cname: Seq<char>,
    midx: usize,
    idx: int,
) -> Seq<NamedColorView> {
    match bc[idx].1 {
        Instr::Invokevirtual(id) => match spec_method_ref(cp, id) {
            Some(parts) => defs_for_methods(cp, bc, parts, pal, cname, midx, idx, pal.len() as int),
            None => seq![],
        },
        _ => seq![],
    }
}

/// The named colors defined by the first `n` instructions.
pub open spec fn defs_in_code(
    cp: Seq<Const>,
    bc: Seq<(u32, Instr)>,
    pal: Seq<(MethodDescription, CompositingMode)>,
    cname: Seq<char>,
    midx: usize,
    n: int,
) -> Seq<NamedColorView>
    decreases n,
{
    if n <= 0 {
        seq![]
    } else {
        defs_in_code(cp, bc, pal, cname, midx, n - 1) + defs_at(cp, bc, pal, cname, midx, n - 1)
    }
}

/// The named colors defined in the code of the first `n` methods.
pub open spec fn class_defs(c: ClassFile, pal: Seq<(MethodDescription, CompositingMode)>, cname: Seq<char>, n: int) -> Seq<
    NamedColorView,
>
    decreases n,
{
    if n <= 0 || n > c.methods@.len() {
        seq![]
    } else {
        let prev = class_defs(c, pal, cname, n - 1);
        match code_of(c.methods@[n - 1]) {
            Some(bc) => prev + defs_in_code(c.cp@, bc, pal, cname, (n - 1) as usize, bc.len() as int),
            None => prev,
        }
    }
}

/// The named colors that class `c` defines with the palette's methods.
pub open spec fn named_color_defs(c: ClassFile, p: PaletteColorMethods) -> Seq<NamedColorView> {
    class_defs(c, p.spec_all(), class_name_chars(c), c.methods@.len() as int)
}

/// Appends the named colors defined at instruction `idx` (see `defs_at`).
fn push_defs_at(
    cp: &Vec<Const>,
    bc: &Vec<(u32, Instr)>,
    all: &Vec<(&MethodDescription, CompositingMode)>,
    Ghost(pal): Ghost<Seq<(MethodDescription, CompositingMode)>>,
    cname: &String,
    midx: usize,
    idx: usize,
    found: &mut Vec<NamedColor>,
)
    requires
        idx < bc@.len(),
        all@.len() == pal.len(),
        forall|j: int| 0 <= j < pal.len() ==> *(#[trigger] all@[j]).0 == pal[j].0 && all@[j].1 == pal[j].1,
        forall|j: int|
            0 <= j < pal.len() ==> ((#[trigger] pal[j]).0.signature_kind matches Some(k) ==> k.is_named()),
    ensures
        named_colors_view(final(found)@) == named_colors_view(old(found)@) + defs_at(
            cp@,
            bc@,
            pal,
            cname@,
            midx,
            idx as int,
        ),
{
    let ghost start = named_colors_view(found@);
    let method_id = match &bc[idx].1 {
        Instr::Invokevirtual(id) => *id,
        _ => {
            assert(named_colors_view(found@) =~= start + seq![]);
            return;
        },
    };
    let method_descr = match find_method_description(cp, method_id, None) {
        Some(d) => d,
        None => {
            assert(named_colors_view(found@) =~= start + seq![]);
            return;
        },
    };
    let ghost parts = spec_method_ref(cp@, method_id)->0;
    let mut j: usize = 0;
    while j < all.len()
        invariant
            j <= all@.len(),
            idx < bc@.len(),
            bc@[idx as int].1 == Instr::Invokevirtual(method_id),
            spec_method_ref(cp@, method_id) == Some(parts),
            describes(method_descr, parts, None),
            all@.len() == pal.len(),
            forall|i: int| 0 <= i < pal.len() ==> *(#[trigger] all@[i]).0 == pal[i].0 && all@[i].1 == pal[i].1,
            forall|i: int|
                0 <= i < pal.len() ==> ((#[trigger] pal[i]).0.signature_kind matches Some(k) ==> k.is_named()),
            named_colors_view(found@) == start + defs_for_methods(
                cp@,
                bc@,
                parts,
                pal,
                cname@,
                midx,
                idx as int,
                j as int,
            ),
        decreases all@.len() - j,
    {
        let (known_meth, compositing_mode) = &all[j];
        let ghost def = named_def(cp@, bc@, parts, pal[j as int].0, pal[j as int].1, cname@, midx, idx as int);
        let mut item: Option<NamedColor> = None;
        if method_descr == **known_meth {
            assert(describes(pal[j as int].0, parts, None));
            if let Some(sig_kind) = &known_meth.signature_kind {
                let offset = sig_kind.color_name_ix_offset();
                if idx >= offset {
                    let ldc_id = match &bc[idx - offset].1 {
                        Instr::Ldc(id) => Some(*id as u16),
                        Instr::LdcW(id) => Some(*id),
                        _ => None,
                    };
                    if let Some(id) = ldc_id {
                        let text = find_utf_ldc(cp, id);
                        if let Ok(components) = sig_kind.extract_color_components(idx, bc, cp) {
                            if let Some(color_name) = text {
                                item = Some(
                                    NamedColor {
                                        class_name: cname.clone(),
                                        method_idx: midx,
                                        color_name,
                                        components,
                                        compositing_mode: *compositing_mode,
                                    },
                                );
                            }
                        }
                    }
                }
            }
        } else {
            assert(!describes(pal[j as int].0, parts, None));
        }
        assert(item is Some <==> def is Some);
        assert(item matches Some(n) ==> n@ == def->0);
        if let Some(n) = item {
            let ghost before = found@;
            found.push(n);
            assert(named_colors_view(found@) =~= named_colors_view(before).push(found@.last()@));
        }
        j += 1;
    }
}

/// A known color: its name and components.
pub open spec fn known_view(e: (String, ColorComponents)) -> (Seq<char>, ComponentsView) {
    (e.0@, e.1@)
}

/// The known color of a found one.
pub open spec fn known_of(c: NamedColorView) -> (Seq<char>, ComponentsView) {
    (c.color_name, c.components)
}

/// The map from color names to components that a record of known colors
/// stands for: a later record of a name replaces an earlier one.
pub open spec fn known_map(s: Seq<(Seq<char>, ComponentsView)>) -> Map<Seq<char>, ComponentsView>
    decreases s.len(),
{
    if s.len() == 0 {
        Map::empty()
    } else {
        known_map(s.drop_last()).insert(s.last().0, s.last().1)
    }
}

/// The named colors that the class defines by invoking the palette's
/// methods (see `named_color_defs`), in method and instruction order; a
/// color defined by several palette methods at once appears once for each.
/// Each found color is recorded in `known_colors`, in order (see
/// `known_map` for the map the record stands for).
pub fn scan_for_named_color_defs(
    class: &ClassFile,
    palette_color_meths: &PaletteColorMethods,
    _filename: &str,
    known_colors: &mut Vec<(String, ColorComponents)>,
) -> (found: Vec<NamedColor>)
    requires
        class_named(*class),
        palette_layouts_named(*palette_color_meths),
    ensures
        named_colors_view(found@) == named_color_defs(*class, *palette_color_meths),
        final(known_colors)@.map_values(|e: (String, ColorComponents)| known_view(e)) == old(known_colors)@.map_values(
            |e: (String, ColorComponents)| known_view(e),
        ) + named_colors_view(found@).map_values(|c: NamedColorView| known_of(c)),
{
    let found = scan_defs(class, palette_color_meths);
    let ghost k0 = known_colors@.map_values(|e: (String, ColorComponents)| known_view(e));
    let mut i: usize = 0;
    while i < found.len()
        invariant
            i <= found@.len(),
            known_colors@.map_values(|e: (String, ColorComponents)| known_view(e)) == k0 + named_colors_view(
                found@.subrange(0, i as int),
            ).map_values(|c: NamedColorView| known_of(c)),
        decreases found@.len() - i,
    {
        let e = (found[i].color_name.clone(), found[i].components.clone());
        let ghost before = known_colors@;
        known_colors.push(e);
        assert(known_colors@.map_values(|e: (String, ColorComponents)| known_view(e)) =~= before.map_values(
            |e: (String, ColorComponents)| known_view(e),
        ).push(known_view(e)));
        assert(named_colors_view(found@.subrange(0, i + 1)).map_values(|c: NamedColorView| known_of(c))
            =~= named_colors_view(found@.subrange(0, i as int)).map_values(|c: NamedColorView| known_of(c)).push(
            known_of(found@[i as int]@),
        ));
        i += 1;
    }
    assert(found@.subrange(0, i as int) =~= found@);
    found
}

fn scan_defs(class: &ClassFile, palette_color_meths: &PaletteColorMethods) -> (found: Vec<NamedColor>)
    requires
        class_named(*class),
        palette_layouts_named(*palette_color_meths),
    ensures
        named_colors_view(found@) == named_color_defs(*class, *palette_color_meths),
{
    let mut found: Vec<NamedColor> = Vec::new();
    let cp = &class.cp;
    let class_name = match class_name_text(class) {
        Some(t) => t,
        None => return found,
    };
    let all_meths = palette_color_meths.all();
    let ghost pal = palette_color_meths.spec_all();
    let ghost c = *class;
    proof {
        assert forall|j: int| 0 <= j < pal.len() implies ((#[trigger] pal[j]).0.signature_kind matches Some(k)
            ==> k.is_named()) by {
            assert(palette_color_meths.spec_all()[j] == pal[j]);
        }
    }
    let mut k: usize = 0;
    while k < class.methods.len()
        invariant
            k <= class.methods@.len(),
            cp == &class.cp,
            c == *class,
            class_name@ == class_name_chars(c),
            pal == palette_color_meths.spec_all(),
            all_meths@.len() == pal.len(),
            forall|j: int| 0 <= j < pal.len() ==> *(#[trigger] all_meths@[j]).0 == pal[j].0 && all_meths@[j].1 == pal[j].1,
            forall|j: int|
                0 <= j < pal.len() ==> ((#[trigger] pal[j]).0.signature_kind matches Some(kd) ==> kd.is_named()),
            named_colors_view(found@) == class_defs(c, pal, class_name@, k as int),
        decreases class.methods@.len() - k,
    {
        let method = &class.methods[k];
        let bytecode = match method_code(method) {
            Some(bc) => bc,
            None => {
                k += 1;
                continue;
            },
        };
        let ghost before = named_colors_view(found@);
        let mut idx: usize = 0;
        while idx < bytecode.len()
            invariant
                idx <= bytecode@.len(),
                k < class.methods@.len(),
                code_of(c.methods@[k as int]) == Some(bytecode@),
                all_meths@.len() == pal.len(),
                forall|j: int|
                    0 <= j < pal.len() ==> *(#[trigger] all_meths@[j]).0 == pal[j].0 && all_meths@[j].1 == pal[j].1,
                forall|j: int|
                    0 <= j < pal.len() ==> ((#[trigger] pal[j]).0.signature_kind matches Some(kd) ==> kd.is_named()),
                named_colors_view(found@) == before + defs_in_code(cp@, bytecode@, pal, class_name@, k, idx as int),
            decreases bytecode@.len() - idx,
        {
            push_defs_at(cp, bytecode, &all_meths, Ghost(pal), &class_name, k, idx, &mut found);
            assert(before + defs_in_code(cp@, bytecode@, pal, class_name@, k, idx + 1) =~= before + defs_in_code(
                cp@,
                bytecode@,
                pal,
                class_name@,
                k,
                idx as int,
            ) + defs_at(cp@, bytecode@, pal, class_name@, k, idx as int));
            idx += 1;
        }
        k += 1;
    }
    found
}

} // verus!
