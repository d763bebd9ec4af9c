//! Reading names, strings and method references out of a constant pool.
use crate::bytes::{bytes_eq, contains, ends_with, has_infix, has_prefix, has_suffix, starts_with};
use crate::classfile::{ClassFile, Const, Instr, MethodAttr};
use crate::methods::{MethodDescription, MethodSignatureKind};
use crate::mutf8::{java_string, java_text};
use crate::text::{bytes_of, lossy_string, str_bytes, string_bytes, utf8_lossy};
use vstd::prelude::*;

verus! {

/// The bytes of UTF-8 entry `i`, if entry `i` is one.
pub open spec fn cp_utf8(cp: Seq<Const>, i: int) -> Option<Seq<u8>> {
    if 0 <= i < cp.len() {
        match cp[i] {
            Const::Utf8(b) => Some(b@),
            _ => None,
        }
    } else {
        None
    }
}

/// The bytes of the string constant at `id` (a `String` entry pointing to a
/// UTF-8 entry).
pub open spec fn spec_utf_ldc(cp: Seq<Const>, id: u16) -> Option<Seq<u8>> {
    if (id as int) < cp.len() {
        match cp[id as int] {
            Const::Str(j) => cp_utf8(cp, j as int),
            _ => None,
        }
    } else {
        None
    }
}

/// The name bytes of the field reference at `id`.
pub open spec fn spec_const_name(cp: Seq<Const>, id: u16) -> Option<Seq<u8>> {
    if (id as int) < cp.len() {
        match cp[id as int] {
            Const::Field(_, nt) => if (nt as int) < cp.len() {
                match cp[nt as int] {
                    Const::NameAndType(name, _) => cp_utf8(cp, name as int),
                    _ => None,
                }
            } else {
                None
            },
            _ => None,
        }
    } else {
        None
    }
}

/// The class name bytes of class entry `i`.
pub open spec fn cp_class_name(cp: Seq<Const>, i: int) -> Option<Seq<u8>> {
    if 0 <= i < cp.len() {
        match cp[i] {
            Const::Class(n) => cp_utf8(cp, n as int),
            _ => None,
        }
    } else {
        None
    }
}

/// Class, name and descriptor bytes of the method reference at `id`.
pub open spec fn spec_method_ref(cp: Seq<Const>, id: u16) -> Option<(Seq<u8>, Seq<u8>, Seq<u8>)> {
    if (id as int) < cp.len() {
        match cp[id as int] {
            Const::Method(c, nt) => match cp_class_name(cp, c as int) {
                Some(class) => if (nt as int) < cp.len() {
                    match cp[nt as int] {
                        Const::NameAndType(n, s) => match (cp_utf8(cp, n as int), cp_utf8(cp, s as int)) {
                            (Some(name), Some(sig)) => Some((class, name, sig)),
                            _ => None,
                        },
                        _ => None,
                    }
                } else {
                    None
                },
                None => None,
            },
            _ => None,
        }
    } else {
        None
    }
}

/// The kind of a descriptor that takes a color object or a color name,
/// depending on whether it mentions the color class `rec`.
pub open spec fn reference_kind(sig: Seq<u8>, rec: Option<Seq<u8>>) -> MethodSignatureKind {
    match rec {
        Some(r) => if has_infix(sig, r) {
            MethodSignatureKind::SRfff
        } else {
            MethodSignatureKind::SSfff
        },
        None => MethodSignatureKind::SSfff,
    }
}

/// The color-definition layout of a method descriptor.
pub open spec fn classify_signature(sig: Seq<u8>, rec: Option<Seq<u8>>) -> Option<MethodSignatureKind> {
    if sig == str_bytes("(I)V") {
        Some(MethodSignatureKind::Si)
    } else if sig == str_bytes("(III)V") {
        Some(MethodSignatureKind::Siii)
    } else if sig == str_bytes("(IIII)V") {
        Some(MethodSignatureKind::Siiii)
    } else if sig == str_bytes("(FFF)V") {
        Some(MethodSignatureKind::Sfff)
    } else if sig == str_bytes("(FFFF)V") {
        Some(MethodSignatureKind::Ffff)
    } else if sig == str_bytes("(DDDD)V") {
        Some(MethodSignatureKind::Dddd)
    } else if has_prefix(sig, str_bytes("(Ljava/lang/String;I)")) {
        Some(MethodSignatureKind::Si)
    } else if has_prefix(sig, str_bytes("(Ljava/lang/String;III)")) {
        Some(MethodSignatureKind::Siii)
    } else if has_prefix(sig, str_bytes("(Ljava/lang/String;IIII)")) {
        Some(MethodSignatureKind::Siiii)
    } else if has_prefix(sig, str_bytes("(Ljava/lang/String;FFF)")) {
        Some(MethodSignatureKind::Sfff)
    } else if has_prefix(sig, str_bytes("(Ljava/lang/String;FFFF)")) {
        Some(MethodSignatureKind::Ffff)
    } else if has_prefix(sig, str_bytes("(Ljava/lang/String;L")) && has_infix(sig, str_bytes("FFF)")) {
        Some(reference_kind(sig, rec))
    } else if has_prefix(sig, str_bytes("(L")) && has_suffix(sig, str_bytes("FFF)V")) {
        Some(reference_kind(sig, rec))
    } else {
        None
    }
}

/// The description `find_method_description` gives of a method reference.
pub open spec fn describes(
    d: MethodDescription,
    parts: (Seq<u8>, Seq<u8>, Seq<u8>),
    rec: Option<Seq<u8>>,
) -> bool {
    &&& d.class@ == utf8_lossy(parts.0)
    &&& d.method@ == utf8_lossy(parts.1)
    &&& d.signature@ == utf8_lossy(parts.2)
    &&& d.signature_kind == classify_signature(string_bytes(d.signature), rec)
}

pub open spec fn opt_str_bytes(o: Option<&str>) -> Option<Seq<u8>> {
    match o {
        Some(s) => Some(str_bytes(s)),
        None => None,
    }
}

/// The bytes of UTF-8 entry `i`, as a slice.
pub fn utf8_at(cp: &Vec<Const>, i: u16) -> (r: Option<&[u8]>)
    ensures
        r matches Some(b) ==> cp_utf8(cp@, i as int) == Some(b@),
        r is None ==> cp_utf8(cp@, i as int) is None,
{
    if (i as usize) < cp.len() {
        match &cp[i as usize] {
            Const::Utf8(b) => Some(b.as_slice()),
            _ => None,
        }
    } else {
        None
    }
}

/// The string loaded by an `ldc` of constant `id`.
pub fn find_utf_ldc(cp: &Vec<Const>, id: u16) -> (r: Option<String>)
    ensures
        r is Some <==> spec_utf_ldc(cp@, id) is Some,
        r matches Some(s) ==> s@ == utf8_lossy(spec_utf_ldc(cp@, id)->0),
{
    if (id as usize) >= cp.len() {
        return None;
    }
    match &cp[id as usize] {
        Const::Str(j) => match utf8_at(cp, *j) {
            Some(b) => Some(lossy_string(b)),
            None => None,
        },
        _ => None,
    }
}

/// The name of the field referenced by constant `id`.
pub fn find_const_name(cp: &Vec<Const>, id: u16) -> (r: Option<String>)
    ensures
        r is Some <==> spec_const_name(cp@, id) is Some,
        r matches Some(s) ==> s@ == utf8_lossy(spec_const_name(cp@, id)->0),
{
    if (id as usize) >= cp.len() {
        return None;
    }
    let nt = match &cp[id as usize] {
        Const::Field(_, nt) => *nt,
        _ => return None,
    };
    if (nt as usize) >= cp.len() {
        return None;
    }
    match &cp[nt as usize] {
        Const::NameAndType(name, _) => match utf8_at(cp, *name) {
            Some(b) => Some(lossy_string(b)),
            None => None,
        },
        _ => None,
    }
}

/// The class name of class entry `i`.
pub fn class_name_at(cp: &Vec<Const>, i: u16) -> (r: Option<&[u8]>)
    ensures
        r matches Some(b) ==> cp_class_name(cp@, i as int) == Some(b@),
        r is None ==> cp_class_name(cp@, i as int) is None,
{
    if (i as usize) >= cp.len() {
        return None;
    }
    match &cp[i as usize] {
        Const::Class(n) => utf8_at(cp, *n),
        _ => None,
    }
}

/// The color-definition layout of a method descriptor.
pub fn classify(sig: &[u8], rec: Option<&str>) -> (r: Option<MethodSignatureKind>)
    ensures
        r == classify_signature(sig@, opt_str_bytes(rec)),
{
    let rk = match rec {
        Some(r) => if contains(sig, r.as_bytes()) {
            MethodSignatureKind::SRfff
        } else {
            MethodSignatureKind::SSfff
        },
        None => MethodSignatureKind::SSfff,
    };
    assert(rk == reference_kind(sig@, opt_str_bytes(rec)));
    if bytes_eq(sig, "(I)V".as_bytes()) {
        Some(MethodSignatureKind::Si)
    } else if bytes_eq(sig, "(III)V".as_bytes()) {
        Some(MethodSignatureKind::Siii)
    } else if bytes_eq(sig, "(IIII)V".as_bytes()) {
        Some(MethodSignatureKind::Siiii)
    } else if bytes_eq(sig, "(FFF)V".as_bytes()) {
        Some(MethodSignatureKind::Sfff)
    } else if bytes_eq(sig, "(FFFF)V".as_bytes()) {
        Some(MethodSignatureKind::Ffff)
    } else if bytes_eq(sig, "(DDDD)V".as_bytes()) {
        Some(MethodSignatureKind::Dddd)
    } else if starts_with(sig, "(Ljava/lang/String;I)".as_bytes()) {
        Some(MethodSignatureKind::Si)
    } else if starts_with(sig, "(Ljava/lang/String;III)".as_bytes()) {
        Some(MethodSignatureKind::Siii)
    } else if starts_with(sig, "(Ljava/lang/String;IIII)".as_bytes()) {
        Some(MethodSignatureKind::Siiii)
    } else if starts_with(sig, "(Ljava/lang/String;FFF)".as_bytes()) {
        Some(MethodSignatureKind::Sfff)
    } else if starts_with(sig, "(Ljava/lang/String;FFFF)".as_bytes()) {
        Some(MethodSignatureKind::Ffff)
    } else if starts_with(sig, "(Ljava/lang/String;L".as_bytes()) && contains(sig, "FFF)".as_bytes()) {
        Some(rk)
    } else if starts_with(sig, "(L".as_bytes()) && ends_with(sig, "FFF)V".as_bytes()) {
        Some(rk)
    } else {
        None
    }
}

/// Describes the method referenced by constant `method_id`: a `Method`
/// entry (not an interface method) whose class, name and descriptor resolve
/// to UTF-8 entries. `color_rec_name` tells reference-taking descriptors
/// apart: those that mention it take a color object.
pub fn find_method_description(cp: &Vec<Const>, method_id: u16, color_rec_name: Option<&str>) -> (r:
    Option<MethodDescription>)
    ensures
        r is Some <==> spec_method_ref(cp@, method_id) is Some,
        r matches Some(d) ==> describes(d, spec_method_ref(cp@, method_id)->0, opt_str_bytes(color_rec_name)),
{
    if (method_id as usize) >= cp.len() {
        return None;
    }
    let (c, nt) = match &cp[method_id as usize] {
        Const::Method(c, nt) => (*c, *nt),
        _ => return None,
    };
    let class = match class_name_at(cp, c) {
        Some(b) => b,
        None => return None,
    };
    if (nt as usize) >= cp.len() {
        return None;
    }
    let (n, s) = match &cp[nt as usize] {
        Const::NameAndType(n, s) => (*n, *s),
        _ => return None,
    };
    let name = match utf8_at(cp, n) {
        Some(b) => b,
        None => return None,
    };
    let sig = match utf8_at(cp, s) {
        Some(b) => b,
        None => return None,
    };
    let signature = lossy_string(sig);
    let signature_kind = classify(bytes_of(&signature), color_rec_name);
    Some(
        MethodDescription {
            class: lossy_string(class),
            method: lossy_string(name),
            signature,
            signature_kind,
        },
    )
}


/// The UTF-8 bytes of the descriptor string made of `sig`.
pub open spec fn sig_string_bytes(sig: Seq<u8>) -> Seq<u8> {
    vstd::utf8::encode_utf8(utf8_lossy(sig))
}

/// Index into `invokes`, at or after `i`, of the first method reference
/// whose descriptor starts with `start`; `None` also when a reference
/// before it cannot be described.
pub open spec fn spec_find_method(cp: Seq<Const>, start: Seq<u8>, invokes: Seq<u16>, i: int) -> Option<int>
    decreases invokes.len() - i,
{
    if i < 0 || i >= invokes.len() {
        None
    } else {
        match spec_method_ref(cp, invokes[i]) {
            None => None,
            Some(parts) => if has_prefix(sig_string_bytes(parts.2), start) {
                Some(i)
            } else {
                spec_find_method(cp, start, invokes, i + 1)
            },
        }
    }
}

proof fn lemma_find_method_in_range(cp: Seq<Const>, start: Seq<u8>, invokes: Seq<u16>, i: int)
    ensures
        spec_find_method(cp, start, invokes, i) matches Some(j) ==> 0 <= i <= j < invokes.len(),
    decreases invokes.len() - i,
{
    if 0 <= i < invokes.len() {
        lemma_find_method_in_range(cp, start, invokes, i + 1);
    }
}

/// The description of the first invoked method, skipping the first `skip`
/// invocations, whose descriptor starts with `signature_start` (see
/// `spec_find_method`).
pub fn find_method(
    signature_start: &str,
    color_rec_name: Option<&str>,
    skip: Option<usize>,
    invokes: &Vec<u16>,
    cp: &Vec<Const>,
) -> (r: Option<MethodDescription>)
    ensures
        ({
            let i = match skip {
                Some(n) => n as int,
                None => 0,
            };
            match spec_find_method(cp@, str_bytes(signature_start), invokes@, i) {
                Some(j) => r matches Some(d) && describes(
                    d,
                    spec_method_ref(cp@, invokes@[j])->0,
                    opt_str_bytes(color_rec_name),
                ),
                None => r is None,
            }
        }),
{
    let start_ix = match skip {
        Some(n) => n,
        None => 0,
    };
    let ghost i0 = match skip {
        Some(n) => n as int,
        None => 0,
    };
    let mut i = start_ix;
    if i > invokes.len() {
        return None;
    }
    while i < invokes.len()
        invariant
            start_ix <= i <= invokes@.len(),
            spec_find_method(cp@, str_bytes(signature_start), invokes@, i0) == spec_find_method(
                cp@,
                str_bytes(signature_start),
                invokes@,
                i as int,
            ),
            i0 == start_ix,
            i0 == match skip {
                Some(n) => n as int,
                None => 0,
            },
        decreases invokes@.len() - i,
    {
        let desc = match find_method_description(cp, invokes[i], color_rec_name) {
            Some(d) => d,
            None => {
                assert(spec_find_method(cp@, str_bytes(signature_start), invokes@, i as int) is None);
                return None;
            },
        };
        let ghost parts = spec_method_ref(cp@, invokes@[i as int])->0;
        assert(string_bytes(desc.signature) == sig_string_bytes(parts.2));
        if starts_with(bytes_of(&desc.signature), signature_start.as_bytes()) {
            assert(spec_find_method(cp@, str_bytes(signature_start), invokes@, i as int) == Some(i as int));
            return Some(desc);
        }
        assert(spec_find_method(cp@, str_bytes(signature_start), invokes@, i as int) == spec_find_method(
            cp@,
            str_bytes(signature_start),
            invokes@,
            i + 1,
        ));
        i += 1;
    }
    None
}

/// The method reference ids of the `invokevirtual` instructions of `bc`, in order.
pub open spec fn invokevirtual_ids(bc: Seq<(u32, Instr)>) -> Seq<u16>
    decreases bc.len(),
{
    if bc.len() == 0 {
        seq![]
    } else {
        let prev = invokevirtual_ids(bc.drop_last());
        match bc.last().1 {
            Instr::Invokevirtual(id) => prev.push(id),
            _ => prev,
        }
    }
}

/// The ids invoked by the `invokevirtual` instructions of `bc`.
pub fn collect_invokes(bc: &Vec<(u32, Instr)>) -> (r: Vec<u16>)
    ensures
        r@ == invokevirtual_ids(bc@),
{
    let mut r: Vec<u16> = Vec::new();
    let mut k: usize = 0;
    while k < bc.len()
        invariant
            k <= bc@.len(),
            r@ == invokevirtual_ids(bc@.subrange(0, k as int)),
        decreases bc@.len() - k,
    {
        proof {
            assert(bc@.subrange(0, k + 1).drop_last() =~= bc@.subrange(0, k as int));
        }
        if let Instr::Invokevirtual(id) = &bc[k].1 {
            r.push(*id);
        }
        k += 1;
    }
    assert(bc@.subrange(0, bc@.len() as int) =~= bc@);
    r
}

/// The bytecode of the second method of a class when its first attribute
/// is its code.
pub open spec fn second_method_code(c: ClassFile) -> Option<Seq<(u32, Instr)>> {
    if c.methods@.len() < 2 || c.methods@[1].attrs@.len() == 0 {
        None
    } else {
        match c.methods@[1].attrs@[0] {
            MethodAttr::Code(_, code) => Some(code.bytecode@),
            _ => None,
        }
    }
}

/// The bytecode of the second method, when its first attribute is its code.
pub fn second_method_bytecode(class: &ClassFile) -> (r: Option<&Vec<(u32, Instr)>>)
    ensures
        match second_method_code(*class) {
            Some(bc) => r matches Some(v) && v@ == bc,
            None => r is None,
        },
{
    if class.methods.len() < 2 {
        return None;
    }
    let m = &class.methods[1];
    if m.attrs.len() == 0 {
        return None;
    }
    match &m.attrs[0] {
        MethodAttr::Code(_, code) => Some(&code.bytecode),
        _ => None,
    }
}

/// Index of the first `invokevirtual`, at or after instruction `k`, whose
/// method reference is described as `d` by `find_method_description`.
pub open spec fn first_described_as(
    cp: Seq<Const>,
    bc: Seq<(u32, Instr)>,
    parts: (Seq<u8>, Seq<u8>, Seq<u8>),
    k: int,
) -> Option<int>
    decreases bc.len() - k,
{
    if k < 0 || k >= bc.len() {
        None
    } else {
        match bc[k].1 {
            Instr::Invokevirtual(id) => match spec_method_ref(cp, id) {
                Some(p) => if utf8_lossy(p.0) == utf8_lossy(parts.0) && utf8_lossy(p.1) == utf8_lossy(
                    parts.1,
                ) && utf8_lossy(p.2) == utf8_lossy(parts.2) {
                    Some(k)
                } else {
                    first_described_as(cp, bc, parts, k + 1)
                },
                None => first_described_as(cp, bc, parts, k + 1),
            },
            _ => first_described_as(cp, bc, parts, k + 1),
        }
    }
}

proof fn lemma_described_in_range(cp: Seq<Const>, bc: Seq<(u32, Instr)>, parts: (Seq<u8>, Seq<u8>, Seq<u8>), k: int)
    ensures
        first_described_as(cp, bc, parts, k) matches Some(j) ==> 0 <= k <= j < bc.len() && bc[j].1 is Invokevirtual,
    decreases bc.len() - k,
{
    if 0 <= k < bc.len() {
        lemma_described_in_range(cp, bc, parts, k + 1);
    }
}

/// The id of the first invocation, in the second method, of the first
/// invoked method whose descriptor starts with `sig_start` (see
/// `find_method_by_sig`).
pub open spec fn method_id_by_sig(c: ClassFile, sig_start: Seq<u8>) -> Option<u16> {
    match second_method_code(c) {
        None => None,
        Some(bc) => match spec_find_method(c.cp@, sig_start, invokevirtual_ids(bc), 0) {
            None => None,
            Some(j) => match first_described_as(c.cp@, bc, spec_method_ref(c.cp@, invokevirtual_ids(bc)[j])->0, 0) {
                Some(k) => match bc[k].1 {
                    Instr::Invokevirtual(id) => Some(id),
                    _ => None,
                },
                None => None,
            },
        },
    }
}

/// In the second method of the class, the first invoked method whose
/// descriptor starts with `sig_start`, together with the id of its first
/// invocation (see `spec_find_method` and `first_described_as`).
pub fn find_method_by_sig(class: &ClassFile, sig_start: &str, _method_name: &str) -> (r: Option<(u16, MethodDescription)>)
    ensures
        match second_method_code(*class) {
            None => r is None,
            Some(bc) => match spec_find_method(class.cp@, str_bytes(sig_start), invokevirtual_ids(bc), 0) {
                None => r is None,
                Some(j) => {
                    let parts = spec_method_ref(class.cp@, invokevirtual_ids(bc)[j])->0;
                    match first_described_as(class.cp@, bc, parts, 0) {
                        Some(k) => r matches Some((id, d)) && bc[k].1 == Instr::Invokevirtual(id)
                            && describes(d, parts, None),
                        None => r is None,
                    }
                },
            },
        },
        match method_id_by_sig(*class, str_bytes(sig_start)) {
            Some(id) => r matches Some((i, _)) && i == id,
            None => r is None,
        },
{
    let cp = &class.cp;
    let bytecode = match second_method_bytecode(class) {
        Some(b) => b,
        None => return None,
    };
    let invokes = collect_invokes(bytecode);
    let found = match find_method(sig_start, None, None, &invokes, cp) {
        Some(f) => f,
        None => return None,
    };
    let ghost j = spec_find_method(cp@, str_bytes(sig_start), invokes@, 0)->0;
    let ghost parts = spec_method_ref(cp@, invokes@[j])->0;
    proof {
        lemma_find_method_in_range(cp@, str_bytes(sig_start), invokes@, 0);
        lemma_described_in_range(cp@, bytecode@, parts, 0);
    }
    match first_invocation_of(cp, bytecode, &found, Ghost(parts)) {
        Some(id) => Some((id, found)),
        None => None,
    }
}

/// The id of the first `invokevirtual` whose method is described as `found`.
fn first_invocation_of(
    cp: &Vec<Const>,
    bytecode: &Vec<(u32, Instr)>,
    found: &MethodDescription,
    Ghost(parts): Ghost<(Seq<u8>, Seq<u8>, Seq<u8>)>,
) -> (r: Option<u16>)
    requires
        found.class@ == utf8_lossy(parts.0),
        found.method@ == utf8_lossy(parts.1),
        found.signature@ == utf8_lossy(parts.2),
        found.signature_kind == classify_signature(string_bytes(found.signature), None),
    ensures
        match first_described_as(cp@, bytecode@, parts, 0) {
            Some(k) => r matches Some(id) && bytecode@[k].1 == Instr::Invokevirtual(id),
            None => r is None,
        },
{
    let mut k: usize = 0;
    while k < bytecode.len()
        invariant
            k <= bytecode@.len(),
            found.class@ == utf8_lossy(parts.0),
            found.method@ == utf8_lossy(parts.1),
            found.signature@ == utf8_lossy(parts.2),
            found.signature_kind == classify_signature(string_bytes(found.signature), None),
            first_described_as(cp@, bytecode@, parts, 0) == first_described_as(cp@, bytecode@, parts, k as int),
        decreases bytecode@.len() - k,
    {
        if let Instr::Invokevirtual(method_id) = &bytecode[k].1 {
            if let Some(desc) = find_method_description(cp, *method_id, None) {
                if desc == *found {
                    assert(first_described_as(cp@, bytecode@, parts, k as int) == Some(k as int));
                    return Some(*method_id);
                }
                assert(first_described_as(cp@, bytecode@, parts, k as int) == first_described_as(
                    cp@,
                    bytecode@,
                    parts,
                    k + 1,
                ));
            }
        }
        k += 1;
    }
    None
}

/// The getter of named raw colors: the first method whose descriptor starts
/// with `(Ljava/lang/String;)L<raw_color_class>;`. `None` also when a
/// method before it has a descriptor index that is not a UTF-8 entry, or
/// when the class or method name cannot be resolved.
pub open spec fn spec_named_getter_from(c: ClassFile, prefix: Seq<u8>, k: int) -> Option<
    (Seq<char>, Seq<char>, Seq<char>),
>
    decreases c.methods@.len() - k,
{
    if k < 0 || k >= c.methods@.len() {
        None
    } else {
        match cp_utf8(c.cp@, c.methods@[k].desc as int) {
            None => None,
            Some(db) => match java_text(db) {
                None => None,
                Some(desc) => if has_prefix(vstd::utf8::encode_utf8(desc), prefix) {
                    match (cp_class_name(c.cp@, c.this_class as int), cp_utf8(c.cp@, c.methods@[k].name as int)) {
                        (Some(cn), Some(mn)) => match (java_text(cn), java_text(mn)) {
                            (Some(ct), Some(mt)) => Some((ct, mt, desc)),
                            _ => None,
                        },
                        _ => None,
                    }
                } else {
                    spec_named_getter_from(c, prefix, k + 1)
                },
            },
        }
    }
}

/// `(Ljava/lang/String;)L` followed by `raw` and `;`.
pub open spec fn getter_prefix(raw: Seq<char>) -> Seq<char> {
    "(Ljava/lang/String;)L"@ + raw + ";"@
}

/// The named color getter of the class (see `spec_named_getter_from`); its
/// description has no signature kind.
pub fn extract_named_color_getter_1(class: &ClassFile, raw_color_class: &str) -> (r: Option<MethodDescription>)
    ensures
        match spec_named_getter_from(*class, vstd::utf8::encode_utf8(getter_prefix(raw_color_class@)), 0) {
            Some(parts) => r matches Some(d) && d.class@ == parts.0 && d.method@ == parts.1 && d.signature@ == parts.2
                && d.signature_kind is None,
            None => r is None,
        },
{
    let mut sig_start = String::from_str("(Ljava/lang/String;)L");
    sig_start.append(raw_color_class);
    sig_start.append(";");
    let ghost prefix = vstd::utf8::encode_utf8(getter_prefix(raw_color_class@));
    assert(string_bytes(sig_start) == prefix);
    let cp = &class.cp;
    let mut k: usize = 0;
    while k < class.methods.len()
        invariant
            k <= class.methods@.len(),
            cp == &class.cp,
            string_bytes(sig_start) == prefix,
            prefix == vstd::utf8::encode_utf8(getter_prefix(raw_color_class@)),
            spec_named_getter_from(*class, prefix, 0) == spec_named_getter_from(*class, prefix, k as int),
        decreases class.methods@.len() - k,
    {
        let field = &class.methods[k];
        assert(field == class.methods@[k as int]);
        let desc = match utf8_at(cp, field.desc) {
            Some(b) => b,
            None => {
                assert(spec_named_getter_from(*class, prefix, k as int) is None);
                return None;
            },
        };
        let descriptor = match java_string(desc) {
            Some(d) => d,
            None => return None,
        };
        if starts_with(bytes_of(&descriptor), bytes_of(&sig_start)) {
            let class_name = match class_name_at(cp, class.this_class) {
                Some(b) => match java_string(b) {
                    Some(t) => t,
                    None => return None,
                },
                None => return None,
            };
            let method = match utf8_at(cp, field.name) {
                Some(b) => match java_string(b) {
                    Some(t) => t,
                    None => return None,
                },
                None => return None,
            };
            return Some(
                MethodDescription { class: class_name, method, signature: descriptor, signature_kind: None },
            );
        }
        k += 1;
    }
    None
}

} // verus!
