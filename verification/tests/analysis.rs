use cucumber::classfile::{ClassFile, Code, Const, Instr, Method, MethodAttr, RawAttr};
use cucumber::colors::{ColorComponents, NamedColor};
use cucumber::extractor::{extract_palette_color_methods, extract_raw_color_goodies, scan_for_named_color_defs};
use cucumber::colors::RawColorConstants;
use cucumber::extractor::RawColorGoodies;
use cucumber::goodies::{extract_general_goodies, GeneralGoodies, GoodiesError};
use cucumber::methods::{MethodDescription, RawColorMethods};
use cucumber::parse::decode_class;
use cucumber::types::{AbsoluteColor, NamedColor as ThemeColor};
use cucumber::randomizer::{randomize_named_colors, RandomizeError};
use cucumber::writer::apply_theme;
use cucumber::introspection::{find_const_name, find_method_description, find_utf_ldc};
use cucumber::methods::{ColorExtractionError, MethodSignatureKind, PaletteColorMethods};
use cucumber::recolor::{can_replace, replace_named_color};
use cucumber::invocations::find_named_color_getter_1_invocations;
use cucumber::scanner::{
    extract_release_metadata, has_any_double_in_constant_pool, has_any_string_in_constant_pool, is_useful_file,
    UsefulFileType,
};
use cucumber::types::CompositingMode;

struct Pool {
    cp: Vec<Const>,
}

impl Pool {
    fn new() -> Pool {
        Pool { cp: vec![Const::Null] }
    }

    fn add(&mut self, c: Const) -> u16 {
        self.cp.push(c);
        (self.cp.len() - 1) as u16
    }

    fn utf8(&mut self, s: &str) -> u16 {
        self.add(Const::Utf8(s.as_bytes().to_vec()))
    }

    fn class(&mut self, name: &str) -> u16 {
        let n = self.utf8(name);
        self.add(Const::Class(n))
    }

    fn string(&mut self, s: &str) -> u16 {
        let n = self.utf8(s);
        self.add(Const::Str(n))
    }

    fn method(&mut self, class: &str, name: &str, desc: &str) -> u16 {
        let c = self.class(class);
        let n = self.utf8(name);
        let d = self.utf8(desc);
        let nt = self.add(Const::NameAndType(n, d));
        self.add(Const::Method(c, nt))
    }

    fn field(&mut self, class: &str, name: &str, desc: &str) -> u16 {
        let c = self.class(class);
        let n = self.utf8(name);
        let d = self.utf8(desc);
        let nt = self.add(Const::NameAndType(n, d));
        self.add(Const::Field(c, nt))
    }

    fn float(&mut self, bits: u32) -> u16 {
        self.add(Const::Float(bits))
    }
}

fn code_method(name: u16, desc: u16, code_name: u16, instrs: Vec<Instr>) -> Method {
    let bytecode = instrs.into_iter().enumerate().map(|(i, ix)| (i as u32, ix)).collect();
    Method {
        access: 1,
        name,
        desc,
        attrs: vec![MethodAttr::Code(
            code_name,
            Code { max_stack: 4, max_locals: 1, bytecode, exception_table: vec![0, 0], attrs: vec![] },
        )],
    }
}

fn class_of(pool: Pool, this_class: u16, methods: Vec<Method>) -> ClassFile {
    ClassFile {
        minor: 0,
        major: 52,
        cp: pool.cp,
        access: 0x21,
        this_class,
        super_class: 0,
        interfaces: vec![],
        fields: vec![0, 0],
        methods,
        attrs: vec![0, 0],
    }
}

const GRAY: &str = "(Ljava/lang/String;I)Lcol;";
const RGB: &str = "(Ljava/lang/String;III)Lcol;";
const RGBA: &str = "(Ljava/lang/String;IIII)Lcol;";
const HSV: &str = "(Ljava/lang/String;FFF)Lcol;";
const REF_HSV: &str = "(Ljava/lang/String;Lcol;FFF)Lcol;";

struct PaletteIds {
    gray: u16,
    rgb: u16,
    rgba: u16,
    blend: u16,
    hsv: u16,
    ref_hsv: u16,
}

fn palette_refs(pool: &mut Pool) -> PaletteIds {
    PaletteIds {
        gray: pool.method("pal", "gray", GRAY),
        rgb: pool.method("pal", "rgb", RGB),
        rgba: pool.method("pal", "rgba", RGBA),
        blend: pool.method("pal", "blend", RGBA),
        hsv: pool.method("pal", "hsv", HSV),
        ref_hsv: pool.method("pal", "refHsv", REF_HSV),
    }
}

/// The palette class: its second method invokes every palette method; the
/// blended rgba method is the second `IIII` invocation.
fn palette_class() -> ClassFile {
    palette_class_with(&[])
}

/// The palette class with extra UTF-8 constants.
fn palette_class_with(extra: &[&str]) -> ClassFile {
    let mut pool = Pool::new();
    for e in extra {
        pool.utf8(e);
    }
    let this = pool.class("pal");
    let ids = palette_refs(&mut pool);
    let code = pool.utf8("Code");
    let init = pool.utf8("<init>");
    let v = pool.utf8("()V");
    let define = pool.utf8("define");
    let instrs = vec![
        Instr::Invokevirtual(ids.rgba),
        Instr::Invokevirtual(ids.blend),
        Instr::Invokevirtual(ids.gray),
        Instr::Invokevirtual(ids.rgb),
        Instr::Invokevirtual(ids.hsv),
        Instr::Invokevirtual(ids.ref_hsv),
    ];
    let methods = vec![code_method(init, v, code, vec![]), code_method(define, v, code, instrs)];
    class_of(pool, this, methods)
}

fn palette() -> PaletteColorMethods {
    extract_palette_color_methods(&palette_class()).unwrap()
}

#[test]
fn palette_methods_are_read_from_the_second_method() {
    let p = palette();
    assert_eq!(p.grayscale_i.method, "gray");
    assert_eq!(p.grayscale_i.signature, GRAY);
    assert_eq!(p.grayscale_i.signature_kind, Some(MethodSignatureKind::Si));
    assert_eq!(p.rgb_i.method, "rgb");
    assert_eq!(p.rgb_i.signature_kind, Some(MethodSignatureKind::Siii));
    assert_eq!(p.rgba_i_absolute.method, "rgba");
    assert_eq!(p.rgba_i_blended_on_background.method, "blend");
    assert_eq!(p.hsv_f_relative_to_background.method, "hsv");
    assert_eq!(p.hsv_f_relative_to_background.signature_kind, Some(MethodSignatureKind::Sfff));
    assert_eq!(p.ref_hsv_f.method, "refHsv");
    assert_eq!(p.ref_hsv_f.signature_kind, Some(MethodSignatureKind::SSfff));
    assert_eq!(p.name_hsv_f.method, "hsv");
    assert_eq!(p.all().len(), 7);
}

#[test]
fn palette_needs_every_method() {
    let mut pool = Pool::new();
    let this = pool.class("pal");
    let gray = pool.method("pal", "gray", GRAY);
    let code = pool.utf8("Code");
    let v = pool.utf8("()V");
    let methods = vec![code_method(v, v, code, vec![]), code_method(v, v, code, vec![Instr::Invokevirtual(gray)])];
    assert!(extract_palette_color_methods(&class_of(pool, this, methods)).is_none());
}

/// A class defining colors with the palette's methods in its first method.
fn colors_class() -> ClassFile {
    let mut pool = Pool::new();
    let this = pool.class("colors");
    let ids = palette_refs(&mut pool);
    let code = pool.utf8("Code");
    let v = pool.utf8("()V");
    let bg = pool.string("Background");
    let stroke = pool.string("Stroke");
    let knob = pool.string("Knob");
    let f1 = pool.float(0x3f80_0000);
    let f2 = pool.float(0x4000_0000);
    let f3 = pool.float(0x4040_0000);
    let instrs = vec![
        Instr::Aload(0),
        Instr::Ldc(bg as u8),
        Instr::Bipush(10),
        Instr::Invokevirtual(ids.gray),
        Instr::Aload(0),
        Instr::Ldc(stroke as u8),
        Instr::Sipush(200),
        Instr::Bipush(20),
        Instr::Iconst(3),
        Instr::Sipush(255),
        Instr::Invokevirtual(ids.rgba),
        Instr::Aload(0),
        Instr::Ldc(knob as u8),
        Instr::Ldc(f1 as u8),
        Instr::Ldc(f2 as u8),
        Instr::Ldc(f3 as u8),
        Instr::Invokevirtual(ids.hsv),
        Instr::Simple(0xb1),
    ];
    class_of(pool, this, vec![code_method(v, v, code, instrs)])
}

#[test]
fn named_colors_are_found_with_their_components() {
    let p = palette();
    let found = scan_for_named_color_defs(&colors_class(), &p, "colors.class", &mut Vec::new());
    // The hsv method is also the name-based hsv method: two entries.
    assert_eq!(found.len(), 4);
    assert_eq!(found[0].color_name, "Background");
    assert_eq!(found[0].class_name, "colors");
    assert_eq!(found[0].method_idx, 0);
    assert!(matches!(found[0].components, ColorComponents::Grayscale(10)));
    assert_eq!(found[0].compositing_mode, CompositingMode::Absolute);
    assert_eq!(found[1].color_name, "Stroke");
    assert!(matches!(found[1].components, ColorComponents::Rgbai(200, 20, 3, 255)));
    assert_eq!(found[2].color_name, "Knob");
    assert!(matches!(found[2].components, ColorComponents::DeltaHsvf(0x3f80_0000, 0x4000_0000, 0x4040_0000)));
    assert_eq!(found[2].compositing_mode, CompositingMode::RelativeToBackground);
    assert_eq!(found[3].color_name, "Knob");
    assert_eq!(found[3].compositing_mode, CompositingMode::Absolute);
}

fn rgba_color(found: &[NamedColor], name: &str) -> Option<(u8, u8, u8, u8)> {
    for c in found {
        if c.color_name == name {
            if let ColorComponents::Rgbai(r, g, b, a) = c.components {
                return Some((r, g, b, a));
            }
        }
    }
    None
}

#[test]
fn replaced_color_reads_back() {
    let p = palette();
    let mut class = colors_class();
    let mut named = scan_for_named_color_defs(&class, &p, "colors.class", &mut Vec::new());
    let value = ColorComponents::Rgbai(1, 2, 3, 4);
    assert!(can_replace(&class, "Background", &value, &named, &p, CompositingMode::Absolute));
    let cp_len = class.cp.len();
    let r = replace_named_color(&mut class, "Background", value, &mut named, &p, CompositingMode::Absolute);
    assert_eq!(r, Some(()));
    // The class invokes no rgba method in its second method: a reference is appended.
    assert_eq!(class.cp.len(), cp_len + 6);
    assert!(matches!(named[0].components, ColorComponents::Rgbai(1, 2, 3, 4)));
    let again = scan_for_named_color_defs(&class, &p, "colors.class", &mut Vec::new());
    assert_eq!(rgba_color(&again, "Background"), Some((1, 2, 3, 4)));
    assert_eq!(rgba_color(&again, "Stroke"), Some((200, 20, 3, 255)));
    match &class.methods[0].attrs[0] {
        MethodAttr::Code(_, code) => {
            assert_eq!(code.max_stack, 7);
            assert!(matches!(code.bytecode[2].1, Instr::Bipush(1)));
            assert!(matches!(code.bytecode[5].1, Instr::Bipush(4)));
            assert_eq!(code.bytecode[3].0, 3);
        },
        _ => panic!("not code"),
    }
}

#[test]
fn relative_or_unknown_colors_are_not_replaced() {
    let p = palette();
    let mut class = colors_class();
    let mut named = scan_for_named_color_defs(&class, &p, "colors.class", &mut Vec::new());
    let before = class.cp.len();
    let value = ColorComponents::Rgbai(1, 2, 3, 4);
    assert_eq!(
        replace_named_color(&mut class, "Background", value, &mut named, &p, CompositingMode::RelativeToBackground),
        None
    );
    let value = ColorComponents::Rgbai(1, 2, 3, 4);
    assert_eq!(replace_named_color(&mut class, "Missing", value, &mut named, &p, CompositingMode::Absolute), None);
    assert_eq!(class.cp.len(), before);
}

#[test]
fn component_extraction_reports_errors() {
    let p = palette();
    let class = colors_class();
    let code = match &class.methods[0].attrs[0] {
        MethodAttr::Code(_, code) => code,
        _ => panic!("not code"),
    };
    let kind = p.rgba_i_absolute.signature_kind.unwrap();
    let e = kind.extract_color_components(2, &code.bytecode, &class.cp).err().unwrap();
    assert!(matches!(e, ColorExtractionError::BytecodeOutOfBounds { requested_offset: 4, idx: 2, bytecode_len: 18 }));
    assert_eq!(e.message(), "Bytecode out of bounds: tried to access offset 4 from index 2 (bytecode length: 18)");
    let ok = kind.extract_color_components(10, &code.bytecode, &class.cp).ok().unwrap();
    assert!(matches!(ok, ColorComponents::Rgbai(200, 20, 3, 255)));
    let e = kind.extract_color_components(16, &code.bytecode, &class.cp).err().unwrap();
    assert!(matches!(e, ColorExtractionError::UnexpectedInstruction { .. }));
}

#[test]
fn constants_resolve_to_strings() {
    let mut pool = Pool::new();
    let s = pool.string("Hello");
    let bad = pool.add(Const::Utf8(vec![0x66, 0xff, 0x67]));
    let bad_str = pool.add(Const::Str(bad));
    let f = pool.field("x", "PLAYHEAD", "Lcol;");
    let m = pool.method("pal", "gray", GRAY);
    assert_eq!(find_utf_ldc(&pool.cp, s), Some("Hello".to_string()));
    assert_eq!(find_utf_ldc(&pool.cp, bad_str), Some("f\u{fffd}g".to_string()));
    assert_eq!(find_utf_ldc(&pool.cp, f), None);
    assert_eq!(find_const_name(&pool.cp, f), Some("PLAYHEAD".to_string()));
    let d = find_method_description(&pool.cp, m, None).unwrap();
    assert_eq!(d.class, "pal");
    assert_eq!(d.method, "gray");
    assert_eq!(d.signature_kind, Some(MethodSignatureKind::Si));
    assert!(find_method_description(&pool.cp, 999, None).is_none());
}

#[test]
fn useful_files_are_recognized_by_markers() {
    let mut pool = Pool::new();
    let this = pool.class("p");
    pool.utf8("Device Tint Future");
    assert!(matches!(is_useful_file(&class_of(pool, this, vec![])), Some(UsefulFileType::MainPalette)));
    let mut pool = Pool::new();
    let this = pool.class("r");
    pool.add(Const::Double(0x3fe5_5299_9567_dbb1));
    pool.add(Const::Null);
    assert!(matches!(is_useful_file(&class_of(pool, this, vec![])), Some(UsefulFileType::RawColor)));
    let mut pool = Pool::new();
    let this = pool.class("n");
    assert!(is_useful_file(&class_of(pool, this, vec![])).is_none());
}

#[test]
fn release_metadata_is_read_from_strings() {
    let mut pool = Pool::new();
    let this = pool.class("crash");
    pool.utf8("  Version :  5.2.4 ");
    pool.utf8("Not obfuscated: yes");
    pool.utf8("no separator");
    pool.utf8("Build: 1234");
    let meta = extract_release_metadata(&class_of(pool, this, vec![])).unwrap();
    assert_eq!(meta, vec![("Version".to_string(), "5.2.4".to_string()), ("Build".to_string(), "1234".to_string())]);
    let mut pool = Pool::new();
    let this = pool.class("x");
    assert!(extract_release_metadata(&class_of(pool, this, vec![])).is_none());
}

#[test]
fn raw_color_class_constructors_and_constants() {
    let mut pool = Pool::new();
    let this = pool.class("raw");
    let code = pool.utf8("Code");
    let init = pool.utf8("<init>");
    let clinit = pool.utf8("<clinit>");
    let ffff = pool.utf8("(FFFF)V");
    let dddd = pool.utf8("(DDDD)V");
    let v = pool.utf8("()V");
    let ctor = pool.method("raw", "<init>", "(FFFF)V");
    let black = pool.field("raw", "BLACK", "Lraw;");
    let methods = vec![
        code_method(init, ffff, code, vec![]),
        code_method(init, dddd, code, vec![]),
        code_method(
            clinit,
            v,
            code,
            vec![
                Instr::Fconst(0),
                Instr::Fconst(0),
                Instr::Fconst(0),
                Instr::Fconst(1),
                Instr::Invokespecial(ctor),
                Instr::Putstatic(black),
            ],
        ),
    ];
    let class = class_of(pool, this, methods);
    let g = extract_raw_color_goodies(&class).unwrap();
    assert_eq!(g.methods.rgba_f.class, "raw");
    assert_eq!(g.methods.rgba_f.signature, "(FFFF)V");
    assert_eq!(g.methods.rgba_d.signature_kind, Some(MethodSignatureKind::Dddd));
    assert_eq!(g.constants.consts.len(), 1);
    assert_eq!(g.constants.consts[0].const_name, "BLACK");
    assert!(matches!(g.constants.consts[0].color_comps, ColorComponents::Rgbaf(0, 0, 0, 0x3f80_0000)));
    let _unused = RawAttr { name: 0, data: vec![] };
}

const SSFFF: &str = "(Ljava/lang/String;Ljava/lang/String;FFF)Lcol;";

fn reference_code(second: Instr, pool: &mut Pool) -> Vec<(u32, Instr)> {
    let name = pool.string("Derived");
    let f = pool.float(0x3f80_0000);
    let m = pool.method("pal", "named", SSFFF);
    vec![
        Instr::Ldc(name as u8),
        second,
        Instr::Ldc(f as u8),
        Instr::Fconst(0),
        Instr::Fconst(2),
        Instr::Invokevirtual(m),
    ]
    .into_iter()
    .enumerate()
    .map(|(i, x)| (i as u32, x))
    .collect()
}

#[test]
fn colors_adjusted_from_named_references() {
    let kind = MethodSignatureKind::SSfff;
    let mut pool = Pool::new();
    let base = pool.string("Base");
    let code = reference_code(Instr::Ldc(base as u8), &mut pool);
    let c = kind.extract_color_components(5, &code, &pool.cp).ok().unwrap();
    assert!(matches!(&c, ColorComponents::StringAndAdjust(n, 0x3f80_0000, 0, 0x4000_0000) if n == "Base"));
    let mut pool = Pool::new();
    let code = reference_code(Instr::Aload(1), &mut pool);
    let c = kind.extract_color_components(5, &code, &pool.cp).ok().unwrap();
    assert!(matches!(&c, ColorComponents::StringAndAdjust(n, _, _, _) if n == "Parameter_Aload1_at_idx_5"));
    let mut pool = Pool::new();
    let code = reference_code(Instr::Invokevirtual(9), &mut pool);
    let c = kind.extract_color_components(5, &code, &pool.cp).ok().unwrap();
    assert!(matches!(&c, ColorComponents::StringAndAdjust(n, _, _, _) if n == "MethodResult_at_idx_5"));
}

#[test]
fn unresolvable_references_and_unsupported_layouts_are_errors() {
    let mut pool = Pool::new();
    let not_a_string = pool.utf8("Base");
    let code = reference_code(Instr::Ldc(not_a_string as u8), &mut pool);
    let e = MethodSignatureKind::SSfff.extract_color_components(5, &code, &pool.cp).err().unwrap();
    assert!(matches!(&e, ColorExtractionError::StringResolutionFailed { ldc_index: 1, .. }));
    assert_eq!(e.message(), "Failed to resolve string from LDC instruction Ldc(1) with index 1");
    let e = MethodSignatureKind::SRfff.extract_color_components(5, &code, &pool.cp).err().unwrap();
    assert_eq!(
        e.message(),
        "Feature 'SRfff color reference extraction' not implemented for signature kind SRfff in context: Reference-based HSV with color object parameter"
    );
}

#[test]
fn goodies_need_an_init_class_then_a_raw_color_class() {
    let palette = palette_class_with(&["Device Tint Future"]);
    let mut events = Vec::new();
    let classes = vec![("pal.class".to_string(), Some(palette))];
    let e = extract_general_goodies(&classes, &mut events).err().unwrap();
    assert!(matches!(e, GoodiesError::InitClassNotFound));
    assert_eq!(e.message(), "Init class not found");

    let palette = palette_class_with(&["Device Tint Future"]);
    let nameless = class_of(Pool::new(), 0, vec![]);
    let classes = vec![("pal.class".to_string(), Some(palette)), ("x.class".to_string(), Some(nameless))];
    let mut events = Vec::new();
    let e = extract_general_goodies(&classes, &mut events).err().unwrap();
    assert!(matches!(e, GoodiesError::InitClassNotFound));
    assert_eq!(events.len(), 3);

    let mut pool = Pool::new();
    let this = pool.class("init");
    pool.utf8("Apply Device Remote Control Changes To All Devices");
    let init = class_of(pool, this, vec![]);
    let palette = palette_class_with(&["Device Tint Future"]);
    let classes = vec![("pal.class".to_string(), Some(palette)), ("init.class".to_string(), Some(init))];
    let mut events = Vec::new();
    let e = extract_general_goodies(&classes, &mut events).err().unwrap();
    assert!(matches!(e, GoodiesError::RawColorNotFound));
    assert_eq!(e.message(), "Raw color not found");
}

fn description(class: &str, method: &str, signature: &str) -> MethodDescription {
    MethodDescription {
        class: class.to_string(),
        method: method.to_string(),
        signature: signature.to_string(),
        signature_kind: None,
    }
}

fn goodies_for(named: Vec<NamedColor>) -> GeneralGoodies {
    GeneralGoodies {
        init_class: "init.class".to_string(),
        named_colors: named,
        palette_color_methods: palette(),
        raw_colors: RawColorGoodies {
            methods: RawColorMethods {
                rgba_f: description("raw", "<init>", "(FFFF)V"),
                rgba_d: description("raw", "<init>", "(DDDD)V"),
            },
            constants: RawColorConstants { consts: vec![] },
        },
        timeline_color_ref: None,
        release_metadata: vec![],
        named_color_getter_1: description("raw", "get", "(Ljava/lang/String;)Lraw;"),
        named_color_getter_invocations: vec![],
    }
}

fn absolute(r: u8, g: u8, b: u8, a: u8) -> ThemeColor {
    ThemeColor::Absolute(AbsoluteColor { r, g, b, a, compositing_mode: CompositingMode::Absolute })
}

#[test]
fn theme_color_is_written_into_its_class() {
    let class = colors_class();
    let bytes = class.to_bytes().unwrap();
    let named = scan_for_named_color_defs(&class, &palette(), "colors.class", &mut Vec::new());
    let mut goodies = goodies_for(named);
    let entries = vec![("colors.class".to_string(), bytes), ("notes.txt".to_string(), b"x".to_vec())];
    let changed = vec![("Background".to_string(), absolute(1, 2, 3, 4))];
    let out = apply_theme(&entries, &mut goodies, &changed).ok().unwrap();
    assert_eq!(out.len(), 2);
    assert_eq!(out[0].0, "colors.class");
    assert_eq!(out[1].0, "notes.txt");
    assert_eq!(out[1].1, b"x".to_vec());
    let written = decode_class(&out[0].1).unwrap();
    let again = scan_for_named_color_defs(&written, &palette(), "colors.class", &mut Vec::new());
    assert_eq!(rgba_color(&again, "Background"), Some((1, 2, 3, 4)));
    assert_eq!(rgba_color(&again, "Stroke"), Some((200, 20, 3, 255)));
    assert!(matches!(goodies.named_colors[0].components, ColorComponents::Rgbai(1, 2, 3, 4)));
}

#[test]
fn a_theme_without_replacements_keeps_the_entries() {
    let class = colors_class();
    let bytes = class.to_bytes().unwrap();
    let named = scan_for_named_color_defs(&class, &palette(), "colors.class", &mut Vec::new());
    let mut goodies = goodies_for(named);
    let entries = vec![("colors.class".to_string(), bytes.clone())];
    let changed = vec![("Unknown".to_string(), absolute(1, 2, 3, 4))];
    let out = apply_theme(&entries, &mut goodies, &changed).ok().unwrap();
    assert_eq!(out.len(), 1);
    assert_eq!(out[0].1, bytes);
}

#[test]
fn pool_searches_go_by_entry_order() {
    let mut pool = Pool::new();
    let this = pool.class("Scan");
    pool.utf8("second");
    pool.utf8("first");
    pool.add(Const::Double(0x4000_0000_0000_0000));
    pool.add(Const::Double(0x3ff0_0000_0000_0000));
    let class = class_of(pool, this, vec![]);
    assert_eq!(has_any_string_in_constant_pool(&class, &["first", "second"]), Some("second"));
    assert_eq!(has_any_string_in_constant_pool(&class, &["third"]), None);
    assert_eq!(
        has_any_double_in_constant_pool(&class, &[0x3ff0_0000_0000_0000, 0x4000_0000_0000_0000]),
        Some(0x4000_0000_0000_0000)
    );
    assert_eq!(has_any_double_in_constant_pool(&class, &[0x4008_0000_0000_0000]), None);
}

#[test]
fn getter_calls_give_the_names_loaded_before_them() {
    let mut pool = Pool::new();
    let this = pool.class("Caller");
    let getter = pool.method("Getter", "get", "(Ljava/lang/String;)Lcol;");
    let other = pool.method("Getter", "other", "(Ljava/lang/String;)Lcol;");
    let alpha = pool.string("Alpha") as u8;
    let beta = pool.string("Beta") as u8;
    let gamma = pool.string("Gamma") as u8;
    let name = pool.utf8("setUp");
    let desc = pool.utf8("()V");
    let code_name = pool.utf8("Code");
    let bytecode = vec![
        (0, Instr::Ldc(alpha)),
        (2, Instr::Goto(6)),
        (5, Instr::Ldc(beta)),
        (8, Instr::Invokevirtual(getter)),
        (11, Instr::Ldc(gamma)),
        (13, Instr::Invokevirtual(other)),
    ];
    let method = Method {
        access: 1,
        name,
        desc,
        attrs: vec![MethodAttr::Code(
            code_name,
            Code { max_stack: 4, max_locals: 1, bytecode, exception_table: vec![0, 0], attrs: vec![] },
        )],
    };
    let class = class_of(pool, this, vec![method]);
    let found = find_named_color_getter_1_invocations(
        &class,
        &description("Getter", "get", "(Ljava/lang/String;)Lcol;"),
    );
    let seen: Vec<(String, String, String, u32)> = found
        .into_iter()
        .map(|(n, inv)| (n, inv.class, inv.method, inv.ldc_pos))
        .collect();
    assert_eq!(
        seen,
        vec![
            ("Beta".to_string(), "Caller".to_string(), "setUp".to_string(), 5),
            ("Alpha".to_string(), "Caller".to_string(), "setUp".to_string(), 0),
        ]
    );
}

#[test]
fn named_colors_get_the_drawn_values() {
    let class = colors_class();
    let named = scan_for_named_color_defs(&class, &palette(), "colors.class", &mut Vec::new());
    let mut goodies = goodies_for(named);
    let mut classes = vec![("colors.class".to_string(), class)];
    let drawn = vec![(1, 2, 3), (4, 5, 6), (7, 8, 9), (10, 11, 12)];
    let flags = randomize_named_colors(&mut classes, &mut goodies, &drawn, 0).ok().unwrap();
    assert_eq!(flags.len(), 4);
    assert!(flags[0]);
    assert!(flags[1]);
    assert!(!flags[2]);
    let again = scan_for_named_color_defs(&classes[0].1, &palette(), "colors.class", &mut Vec::new());
    assert_eq!(rgba_color(&again, "Background"), Some((1, 2, 3, 255)));
    assert_eq!(rgba_color(&again, "Stroke"), Some((4, 5, 6, 255)));
    assert!(matches!(goodies.named_colors[1].components, ColorComponents::Rgbai(4, 5, 6, 255)));
}

#[test]
fn randomizing_needs_the_colors_class() {
    let class = colors_class();
    let named = scan_for_named_color_defs(&class, &palette(), "colors.class", &mut Vec::new());
    let mut goodies = goodies_for(named);
    let mut classes = vec![("other.class".to_string(), class)];
    let drawn = vec![(1, 2, 3); 4];
    let e = randomize_named_colors(&mut classes, &mut goodies, &drawn, 0).err().unwrap();
    assert!(matches!(e, RandomizeError::MissingClass(f) if f == "colors.class"));
}

#[test]
fn found_colors_are_recorded_as_known() {
    let mut known = vec![("Old".to_string(), ColorComponents::Grayscale(1))];
    let found = scan_for_named_color_defs(&colors_class(), &palette(), "colors.class", &mut known);
    assert_eq!(known.len(), 1 + found.len());
    assert_eq!(known[0].0, "Old");
    assert_eq!(known[1].0, "Background");
    assert!(matches!(known[1].1, ColorComponents::Grayscale(10)));
    assert_eq!(known[2].0, "Stroke");
    assert!(matches!(known[2].1, ColorComponents::Rgbai(200, 20, 3, 255)));
}
