//! Recognising the classes that matter for theming by marker constants.
use crate::bytes::{bytes_eq, ends_with, has_prefix, has_suffix, starts_with};
use crate::chars::{
    chars_of, count_alnum, count_alphanumeric, find_separator, first_sep_from, string_of, trim_bounds,
    trimmed,
};
use crate::classfile::{ClassFile, Const, Instr, Method, MethodAttr};
use crate::introspection::cp_utf8;
use crate::text::{lossy_string, str_bytes, utf8_lossy};
use vstd::prelude::*;

verus! {

/// Constant of the class holding most palette colors and their methods.
pub const PALETTE_ANCHOR: &'static str = "Device Tint Future";

/// Constant of the class with the start-up initialisation.
pub const INIT_ANCHOR: &'static str = "Apply Device Remote Control Changes To All Devices";

/// Constant of the crash report builder, which holds release information.
pub const CRASH_REPORT_ANCHOR: &'static str = "stack trace.txt";

/// Constant of the class defining the named color getter, which takes a
/// name and returns a raw color.
pub const NAMED_COLOR_GETTER_1_ANCHOR: &'static str = "Remove all user input simulations";

/// Bit pattern of the `f64` 0.666333, a constant of the raw color class.
pub const RAW_COLOR_ANCHOR: u64 = 0x3fe5_5299_9567_dbb1;

/// What a class is useful for.
pub enum UsefulFileType {
    MainPalette,
    RawColor,
    Init,
    CrashReport,
    NamedColorGetter1,
    TimelineColorCnst { field_type_cp_idx: u16, fmim_idx: u16, cnst_name: String },
}

/// Index of the first pattern whose bytes equal `b`.
pub open spec fn pattern_index_from(b: Seq<u8>, pats: Seq<&str>, j: int) -> Option<int>
    decreases pats.len() - j,
{
    if j < 0 || j >= pats.len() {
        None
    } else if str_bytes(pats[j]) == b {
        Some(j)
    } else {
        pattern_index_from(b, pats, j + 1)
    }
}

/// Index of the pattern matched by the first UTF-8 entry, at or after
/// entry `i`, that equals one of the patterns.
pub open spec fn string_hit_from(cp: Seq<Const>, pats: Seq<&str>, i: int) -> Option<int>
    decreases cp.len() - i,
{
    if i < 0 || i >= cp.len() {
        None
    } else {
        match cp[i] {
            Const::Utf8(b) => match pattern_index_from(b@, pats, 0) {
                Some(j) => Some(j),
                None => string_hit_from(cp, pats, i + 1),
            },
            _ => string_hit_from(cp, pats, i + 1),
        }
    }
}

/// Index (into `strings`) of the first of `strings` met among the UTF-8
/// constants (entries are visited in pool order, patterns in the given
/// order for each entry).
pub fn string_hit_index(class: &ClassFile, strings: &[&str]) -> (r: Option<usize>)
    ensures
        match string_hit_from(class.cp@, strings@, 0) {
            Some(j) => r matches Some(x) && x as int == j && 0 <= j < strings@.len(),
            None => r is None,
        },
{
    proof {
        lemma_hit_in_range(class.cp@, strings@, 0);
    }
    let cp = &class.cp;
    let mut i: usize = 0;
    while i < cp.len()
        invariant
            i <= cp@.len(),
            cp == &class.cp,
            string_hit_from(cp@, strings@, 0) == string_hit_from(cp@, strings@, i as int),
            string_hit_from(cp@, strings@, 0) matches Some(x) ==> 0 <= x < strings@.len(),
        decreases cp@.len() - i,
    {
        if let Const::Utf8(txt) = &cp[i] {
            let mut j: usize = 0;
            while j < strings.len()
                invariant
                    j <= strings@.len(),
                    i < cp@.len(),
                    cp == &class.cp,
                    string_hit_from(cp@, strings@, 0) == string_hit_from(cp@, strings@, i as int),
                    cp@[i as int] matches Const::Utf8(t) && t@ == txt@,
                    pattern_index_from(txt@, strings@, 0) == pattern_index_from(txt@, strings@, j as int),
                decreases strings@.len() - j,
            {
                if bytes_eq(strings[j].as_bytes(), txt.as_slice()) {
                    assert(pattern_index_from(txt@, strings@, j as int) == Some(j as int));
                    assert(string_hit_from(cp@, strings@, i as int) == Some(j as int));
                    return Some(j);
                }
                j += 1;
            }
            assert(pattern_index_from(txt@, strings@, j as int) is None);
            assert(string_hit_from(cp@, strings@, i as int) == string_hit_from(cp@, strings@, i + 1));
        }
        i += 1;
    }
    None
}

/// The first of `strings` met among the UTF-8 constants (see
/// `string_hit_index`).
pub fn has_any_string_in_constant_pool<'a>(class: &ClassFile, strings: &[&'a str]) -> (r: Option<&'a str>)
    ensures
        match string_hit_from(class.cp@, strings@, 0) {
            Some(j) => r == Some(strings@[j]),
            None => r is None,
        },
{
    match string_hit_index(class, strings) {
        Some(j) => Some(strings[j]),
        None => None,
    }
}

/// Index of the first pattern equal to `v`.
pub open spec fn double_index_from(v: u64, pats: Seq<u64>, j: int) -> Option<int>
    decreases pats.len() - j,
{
    if j < 0 || j >= pats.len() {
        None
    } else if pats[j] == v {
        Some(j)
    } else {
        double_index_from(v, pats, j + 1)
    }
}

/// Index of the pattern matched by the first double entry, at or after
/// entry `i`, that equals one of the patterns.
pub open spec fn double_hit_from(cp: Seq<Const>, pats: Seq<u64>, i: int) -> Option<int>
    decreases cp.len() - i,
{
    if i < 0 || i >= cp.len() {
        None
    } else {
        match cp[i] {
            Const::Double(v) => match double_index_from(v, pats, 0) {
                Some(j) => Some(j),
                None => double_hit_from(cp, pats, i + 1),
            },
            _ => double_hit_from(cp, pats, i + 1),
        }
    }
}

/// The first of `doubles` (bit patterns of `f64` values) met among the
/// double constants.
pub fn has_any_double_in_constant_pool(class: &ClassFile, doubles: &[u64]) -> (r: Option<u64>)
    ensures
        match double_hit_from(class.cp@, doubles@, 0) {
            Some(j) => r == Some(doubles@[j]),
            None => r is None,
        },
{
    let cp = &class.cp;
    let mut i: usize = 0;
    while i < cp.len()
        invariant
            i <= cp@.len(),
            cp == &class.cp,
            double_hit_from(cp@, doubles@, 0) == double_hit_from(cp@, doubles@, i as int),
        decreases cp@.len() - i,
    {
        if let Const::Double(v) = &cp[i] {
            let mut j: usize = 0;
            while j < doubles.len()
                invariant
                    j <= doubles@.len(),
                    i < cp@.len(),
                    cp == &class.cp,
                    double_hit_from(cp@, doubles@, 0) == double_hit_from(cp@, doubles@, i as int),
                    cp@[i as int] == Const::Double(*v),
                    double_index_from(*v, doubles@, 0) == double_index_from(*v, doubles@, j as int),
                decreases doubles@.len() - j,
            {
                if doubles[j] == *v {
                    assert(double_index_from(*v, doubles@, j as int) == Some(j as int));
                    assert(double_hit_from(cp@, doubles@, i as int) == Some(j as int));
                    return Some(doubles[j]);
                }
                j += 1;
            }
            assert(double_index_from(*v, doubles@, j as int) is None);
            assert(double_hit_from(cp@, doubles@, i as int) == double_hit_from(cp@, doubles@, i + 1));
        }
        i += 1;
    }
    None
}

/// Whether a method descriptor is that of the timeline color setter.
pub open spec fn timeline_descriptor(cp: Seq<Const>, m: Method) -> bool {
    match cp_utf8(cp, m.desc as int) {
        Some(b) => has_prefix(b, str_bytes("(Lcom/bitwig/graphics/")) && has_suffix(b, str_bytes(";D)V")),
        None => false,
    }
}

/// Index of the first method, at or after `k`, with the timeline descriptor.
pub open spec fn first_timeline_method(cp: Seq<Const>, ms: Seq<Method>, k: int) -> Option<int>
    decreases ms.len() - k,
{
    if k < 0 || k >= ms.len() {
        None
    } else if timeline_descriptor(cp, ms[k]) {
        Some(k)
    } else {
        first_timeline_method(cp, ms, k + 1)
    }
}

/// Outcome of looking at one `putstatic`.
pub enum PutstaticLook {
    /// The referenced field has a name: (class index, field index, name).
    Named(u16, u16, Seq<u8>),
    /// A constant index is out of range, which ends the search.
    Abort,
    /// Some entry has another kind; the search goes on.
    Skip,
}

/// What a `putstatic` of constant `idx` says about the field it writes.
pub open spec fn look_putstatic(cp: Seq<Const>, idx: u16) -> PutstaticLook {
    if idx as int >= cp.len() {
        PutstaticLook::Abort
    } else {
        match cp[idx as int] {
            Const::Field(c, nt) => if nt as int >= cp.len() {
                PutstaticLook::Abort
            } else {
                match cp[nt as int] {
                    Const::NameAndType(n, _) => if n as int >= cp.len() {
                        PutstaticLook::Abort
                    } else {
                        match cp[n as int] {
                            Const::Utf8(b) => PutstaticLook::Named(c, idx, b@),
                            _ => PutstaticLook::Skip,
                        }
                    },
                    _ => PutstaticLook::Skip,
                }
            },
            _ => PutstaticLook::Skip,
        }
    }
}

/// First decisive `putstatic` at or after instruction `j`.
pub open spec fn putstatic_scan(cp: Seq<Const>, bc: Seq<(u32, Instr)>, j: int) -> PutstaticLook
    decreases bc.len() - j,
{
    if j < 0 || j >= bc.len() {
        PutstaticLook::Skip
    } else {
        match bc[j].1 {
            Instr::Putstatic(idx) => match look_putstatic(cp, idx) {
                PutstaticLook::Skip => putstatic_scan(cp, bc, j + 1),
                other => other,
            },
            _ => putstatic_scan(cp, bc, j + 1),
        }
    }
}

/// The field the timeline color setter stores: found in the first method
/// with descriptor `(Lcom/bitwig/graphics/...;D)V`, whose first attribute
/// must be its code, as the first `putstatic` of a named field.
pub open spec fn spec_timeline_const(c: ClassFile) -> Option<(u16, u16, Seq<u8>)> {
    match first_timeline_method(c.cp@, c.methods@, 0) {
        None => None,
        Some(k) => {
            let m = c.methods@[k];
            if m.attrs@.len() == 0 {
                None
            } else {
                match m.attrs@[0] {
                    MethodAttr::Code(_, code) => match putstatic_scan(c.cp@, code.bytecode@, 0) {
                        PutstaticLook::Named(ci, fi, b) => Some((ci, fi, b)),
                        _ => None,
                    },
                    _ => None,
                }
            }
        }
    }
}

fn look_at_putstatic(cp: &Vec<Const>, idx: u16) -> (r: Option<Option<(u16, u16, &[u8])>>)
    ensures
        match look_putstatic(cp@, idx) {
            PutstaticLook::Named(c, i, b) => r matches Some(Some(x)) && x.0 == c && x.1 == i && x.2@ == b,
            PutstaticLook::Abort => r is None,
            PutstaticLook::Skip => r == Some(None::<(u16, u16, &[u8])>),
        },
{
    if idx as usize >= cp.len() {
        return None;
    }
    match &cp[idx as usize] {
        Const::Field(c, nt) => {
            if *nt as usize >= cp.len() {
                return None;
            }
            match &cp[*nt as usize] {
                Const::NameAndType(n, _) => {
                    if *n as usize >= cp.len() {
                        return None;
                    }
                    match &cp[*n as usize] {
                        Const::Utf8(b) => Some(Some((*c, idx, b.as_slice()))),
                        _ => Some(None),
                    }
                },
                _ => Some(None),
            }
        },
        _ => Some(None),
    }
}

/// The field the timeline color setter stores (see `spec_timeline_const`):
/// class index, field reference index and field name.
pub fn detect_timeline_color_const(class: &ClassFile) -> (r: Option<(u16, u16, String)>)
    ensures
        match spec_timeline_const(*class) {
            Some((ci, fi, b)) => r matches Some(x) && x.0 == ci && x.1 == fi && x.2@ == utf8_lossy(b),
            None => r is None,
        },
{
    let cp = &class.cp;
    let ms = &class.methods;
    let k = match find_timeline_method(cp, ms) {
        Some(k) => k,
        None => return None,
    };
    assert(first_timeline_method(cp@, ms@, 0) == Some(k as int));
    let m = &ms[k];
    if m.attrs.len() == 0 {
        return None;
    }
    let code = match &m.attrs[0] {
        MethodAttr::Code(_, code) => code,
        _ => return None,
    };
    let bc = &code.bytecode;
    let ghost expected = match putstatic_scan(cp@, bc@, 0) {
        PutstaticLook::Named(ci, fi, b) => Some((ci, fi, b)),
        _ => None,
    };
    assert(spec_timeline_const(*class) == expected);
    let mut j: usize = 0;
    while j < bc.len()
        invariant
            j <= bc@.len(),
            cp == &class.cp,
            spec_timeline_const(*class) == expected,
            expected == match putstatic_scan(cp@, bc@, 0) {
                PutstaticLook::Named(ci, fi, b) => Some((ci, fi, b)),
                _ => None,
            },
            putstatic_scan(cp@, bc@, 0) == putstatic_scan(cp@, bc@, j as int),
        decreases bc@.len() - j,
    {
        if let Instr::Putstatic(idx) = &bc[j].1 {
            assert(putstatic_scan(cp@, bc@, j as int) == match look_putstatic(cp@, *idx) {
                PutstaticLook::Skip => putstatic_scan(cp@, bc@, j + 1),
                other => other,
            });
            match look_at_putstatic(cp, *idx) {
                None => return None,
                Some(Some((c, i, b))) => return Some((c, i, lossy_string(b))),
                Some(None) => {},
            }
        }
        j += 1;
    }
    assert(putstatic_scan(cp@, bc@, j as int) is Skip);
    None
}

proof fn lemma_timeline_in_range(cp: Seq<Const>, ms: Seq<Method>, k: int)
    ensures
        first_timeline_method(cp, ms, k) matches Some(x) ==> k <= x < ms.len(),
    decreases ms.len() - k,
{
    if 0 <= k < ms.len() && !timeline_descriptor(cp, ms[k]) {
        lemma_timeline_in_range(cp, ms, k + 1);
    }
}

fn find_timeline_method(cp: &Vec<Const>, ms: &Vec<Method>) -> (r: Option<usize>)
    ensures
        match first_timeline_method(cp@, ms@, 0) {
            Some(k) => r matches Some(x) && x as int == k && 0 <= k < ms@.len(),
            None => r is None,
        },
{
    let mut k: usize = 0;
    proof {
        lemma_timeline_in_range(cp@, ms@, 0);
    }
    while k < ms.len()
        invariant
            k <= ms@.len(),
            first_timeline_method(cp@, ms@, 0) == first_timeline_method(cp@, ms@, k as int),
            first_timeline_method(cp@, ms@, 0) matches Some(x) ==> 0 <= x < ms@.len(),
        decreases ms@.len() - k,
    {
        let d = ms[k].desc;
        if (d as usize) < cp.len() {
            if let Const::Utf8(b) = &cp[d as usize] {
                if starts_with(b.as_slice(), "(Lcom/bitwig/graphics/".as_bytes()) && ends_with(
                    b.as_slice(),
                    ";D)V".as_bytes(),
                ) {
                    return Some(k);
                }
            }
        }
        k += 1;
    }
    None
}

/// What a class is useful for: the marker strings are looked for first
/// (palette, init, crash report, named color getter), then the raw color
/// marker double, then the timeline color setter.
pub open spec fn spec_useful_kind(c: ClassFile) -> Option<int> {
    let pats = seq![PALETTE_ANCHOR, INIT_ANCHOR, CRASH_REPORT_ANCHOR, NAMED_COLOR_GETTER_1_ANCHOR];
    match string_hit_from(c.cp@, pats, 0) {
        Some(j) => Some(j),
        None => if double_hit_from(c.cp@, seq![RAW_COLOR_ANCHOR], 0) is Some {
            Some(4)
        } else if spec_timeline_const(c) is Some {
            Some(5)
        } else {
            None
        },
    }
}

impl UsefulFileType {
    /// Number of the variant, in declaration order but with the marker
    /// strings first: palette 0, init 1, crash report 2, getter 3, raw color 4,
    /// timeline 5.
    pub open spec fn kind(self) -> int {
        match self {
            UsefulFileType::MainPalette => 0,
            UsefulFileType::Init => 1,
            UsefulFileType::CrashReport => 2,
            UsefulFileType::NamedColorGetter1 => 3,
            UsefulFileType::RawColor => 4,
            UsefulFileType::TimelineColorCnst { .. } => 5,
        }
    }
}

/// What the class is useful for, if anything (see `spec_useful_kind`); for
/// the timeline setter the field found by `detect_timeline_color_const`.
pub fn is_useful_file(class: &ClassFile) -> (r: Option<UsefulFileType>)
    ensures
        match spec_useful_kind(*class) {
            Some(k) => r matches Some(t) && t.kind() == k,
            None => r is None,
        },
        r matches Some(UsefulFileType::TimelineColorCnst { field_type_cp_idx, fmim_idx, cnst_name }) ==> spec_timeline_const(
            *class,
        ) matches Some((ci, fi, b)) && ci == field_type_cp_idx && fi == fmim_idx && cnst_name@ == utf8_lossy(b),
{
    let pats = [PALETTE_ANCHOR, INIT_ANCHOR, CRASH_REPORT_ANCHOR, NAMED_COLOR_GETTER_1_ANCHOR];
    let ghost spats = seq![PALETTE_ANCHOR, INIT_ANCHOR, CRASH_REPORT_ANCHOR, NAMED_COLOR_GETTER_1_ANCHOR];
    assert(pats@ == spats);
    match string_hit_index(class, &pats) {
        Some(j) => {
            if j == 0 {
                return Some(UsefulFileType::MainPalette);
            } else if j == 1 {
                return Some(UsefulFileType::Init);
            } else if j == 2 {
                return Some(UsefulFileType::CrashReport);
            } else {
                return Some(UsefulFileType::NamedColorGetter1);
            }
        },
        None => {},
    }
    let doubles = [RAW_COLOR_ANCHOR];
    assert(doubles@ == seq![RAW_COLOR_ANCHOR]);
    if has_any_double_in_constant_pool(class, &doubles).is_some() {
        return Some(UsefulFileType::RawColor);
    }
    if let Some((field_type_cp_idx, fmim_idx, cnst_name)) = detect_timeline_color_const(class) {
        return Some(UsefulFileType::TimelineColorCnst { field_type_cp_idx, fmim_idx, cnst_name });
    }
    None
}

proof fn lemma_pattern_in_range(b: Seq<u8>, pats: Seq<&str>, j: int)
    ensures
        pattern_index_from(b, pats, j) matches Some(k) ==> j <= k < pats.len(),
    decreases pats.len() - j,
{
    if 0 <= j < pats.len() && str_bytes(pats[j]) != b {
        lemma_pattern_in_range(b, pats, j + 1);
    }
}

proof fn lemma_hit_in_range(cp: Seq<Const>, pats: Seq<&str>, i: int)
    ensures
        string_hit_from(cp, pats, i) matches Some(k) ==> 0 <= k < pats.len(),
    decreases cp.len() - i,
{
    if 0 <= i < cp.len() {
        match cp[i] {
            Const::Utf8(b) => {
                lemma_pattern_in_range(b@, pats, 0);
                lemma_hit_in_range(cp, pats, i + 1);
            },
            _ => lemma_hit_in_range(cp, pats, i + 1),
        }
    }
}

/// The release entry a constant string gives: the trimmed parts around its
/// first `": "`, when both hold an alphanumeric character and the key is
/// not `Not obfuscated`.
pub open spec fn metadata_entry(s: Seq<char>) -> Option<(Seq<char>, Seq<char>)> {
    match first_sep_from(s, 0) {
        None => None,
        Some(i) => {
            let key = trimmed(s.subrange(0, i));
            let value = trimmed(s.subrange(i + 2, s.len() as int));
            if count_alnum(value) == 0 || count_alnum(key) == 0 || key == "Not obfuscated"@ {
                None
            } else {
                Some((key, value))
            }
        },
    }
}

/// The release entries of the first `n` constants, in pool order.
pub open spec fn metadata_upto(cp: Seq<Const>, n: int) -> Seq<(Seq<char>, Seq<char>)>
    decreases n,
{
    if n <= 0 || n > cp.len() {
        seq![]
    } else {
        let prev = metadata_upto(cp, n - 1);
        match cp[n - 1] {
            Const::Utf8(b) => match metadata_entry(utf8_lossy(b@)) {
                Some(e) => prev.push(e),
                None => prev,
            },
            _ => prev,
        }
    }
}

pub open spec fn pairs_view(v: Seq<(String, String)>) -> Seq<(Seq<char>, Seq<char>)> {
    v.map_values(|p: (String, String)| (p.0@, p.1@))
}

fn metadata_of(s: &String) -> (r: Option<(String, String)>)
    ensures
        match metadata_entry(s@) {
            Some(e) => r matches Some(p) && p.0@ == e.0 && p.1@ == e.1,
            None => r is None,
        },
{
    let cs = chars_of(s.as_str());
    let i = match find_separator(&cs) {
        Some(i) => i,
        None => return None,
    };
    let (ka, kb) = trim_bounds(&cs, 0, i);
    let n = cs.len();
    let (va, vb) = trim_bounds(&cs, i + 2, n);
    if count_alphanumeric(&cs, va, vb) == 0 || count_alphanumeric(&cs, ka, kb) == 0 {
        return None;
    }
    let key = string_of(&cs.as_slice()[ka..kb]);
    let value = string_of(&cs.as_slice()[va..vb]);
    if key == String::from_str("Not obfuscated") {
        return None;
    }
    Some((key, value))
}

/// `key: value` pairs of the constant strings (see `metadata_entry`), or
/// `None` when there are none.
pub fn extract_release_metadata(class: &ClassFile) -> (r: Option<Vec<(String, String)>>)
    ensures
        metadata_upto(class.cp@, class.cp@.len() as int).len() == 0 ==> r is None,
        metadata_upto(class.cp@, class.cp@.len() as int).len() > 0 ==> (r matches Some(v) && pairs_view(v@)
            == metadata_upto(class.cp@, class.cp@.len() as int)),
{
    let cp = &class.cp;
    let mut metadata: Vec<(String, String)> = Vec::new();
    let mut i: usize = 0;
    while i < cp.len()
        invariant
            i <= cp@.len(),
            cp == &class.cp,
            pairs_view(metadata@) == metadata_upto(cp@, i as int),
        decreases cp@.len() - i,
    {
        if let Const::Utf8(txt) = &cp[i] {
            let s = lossy_string(txt.as_slice());
            if let Some(p) = metadata_of(&s) {
                let ghost old_m = metadata@;
                metadata.push(p);
                assert(pairs_view(metadata@) =~= pairs_view(old_m).push((p.0@, p.1@)));
            }
        }
        i += 1;
    }
    if metadata.len() == 0 {
        None
    } else {
        Some(metadata)
    }
}

} // verus!
