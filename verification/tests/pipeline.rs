use cucumber::assembly::reasm;
use cucumber::classfile::{ClassFile, Code, Const, Instr, Method, MethodAttr};
use cucumber::colorize::{
    can_colorize_class, can_randomize_class, colorize_class, is_class_entry, randomize_class, randomize_target, Color,
    ColorizeError,
};
use cucumber::goodies::{extract_general_goodies, parse_jar_classes, GoodiesError};
use cucumber::introspection::{find_const_name, find_method_description};
use cucumber::legacy::{switch_timeline_color, TimelineColorReference};
use cucumber::parse::decode_class;
use cucumber::types::{ColorConst, Stage, StageProgress, ThemeOperation, ThemeProcessingEvent};
use cucumber::writer::{write_theme_to_jar, ThemeWriteError};

/// A class `A` extending `java/lang/Object`, with no members.
fn minimal_class_bytes() -> Vec<u8> {
    let mut b = vec![0xca, 0xfe, 0xba, 0xbe, 0x00, 0x00, 0x00, 0x34, 0x00, 0x05];
    b.extend_from_slice(&[0x01, 0x00, 0x01, b'A']);
    b.extend_from_slice(&[0x07, 0x00, 0x01]);
    b.push(0x01);
    b.extend_from_slice(&[0x00, 0x10]);
    b.extend_from_slice(b"java/lang/Object");
    b.extend_from_slice(&[0x07, 0x00, 0x03]);
    b.extend_from_slice(&[0x00, 0x21, 0x00, 0x02, 0x00, 0x04]);
    b.extend_from_slice(&[0x00, 0x00, 0x00, 0x00, 0x00, 0x00, 0x00, 0x00]);
    b
}

#[test]
fn decoded_class_writes_back_to_its_bytes() {
    let bytes = minimal_class_bytes();
    let class = decode_class(&bytes).unwrap();
    assert_eq!(class.major, 52);
    assert_eq!(class.cp.len(), 5);
    assert_eq!(class.this_class, 2);
    assert_eq!(class.super_class, 4);
    assert_eq!(class.methods.len(), 0);
    assert_eq!(class.to_bytes(), Some(bytes));
}

/// A class `A` with one method `m()V` whose code stores into local 1 and
/// returns.
fn class_with_code_bytes() -> Vec<u8> {
    let mut b = vec![0xca, 0xfe, 0xba, 0xbe, 0x00, 0x00, 0x00, 0x34, 0x00, 0x08];
    b.extend_from_slice(&[0x01, 0x00, 0x01, b'A']);
    b.extend_from_slice(&[0x07, 0x00, 0x01]);
    b.push(0x01);
    b.extend_from_slice(&[0x00, 0x10]);
    b.extend_from_slice(b"java/lang/Object");
    b.extend_from_slice(&[0x07, 0x00, 0x03]);
    b.extend_from_slice(&[0x01, 0x00, 0x04]);
    b.extend_from_slice(b"Code");
    b.extend_from_slice(&[0x01, 0x00, 0x01, b'm']);
    b.extend_from_slice(&[0x01, 0x00, 0x03]);
    b.extend_from_slice(b"()V");
    b.extend_from_slice(&[0x00, 0x21, 0x00, 0x02, 0x00, 0x04, 0x00, 0x00, 0x00, 0x00]);
    // one method: access, name #6, descriptor #7, one attribute
    b.extend_from_slice(&[0x00, 0x01, 0x00, 0x01, 0x00, 0x06, 0x00, 0x07, 0x00, 0x01]);
    // Code attribute #5 of 15 bytes
    b.extend_from_slice(&[0x00, 0x05, 0x00, 0x00, 0x00, 0x0f]);
    b.extend_from_slice(&[0x00, 0x01, 0x00, 0x02, 0x00, 0x00, 0x00, 0x03, 0x36, 0x01, 0xb1, 0x00, 0x00, 0x00, 0x00]);
    b.extend_from_slice(&[0x00, 0x00]);
    b
}

#[test]
fn code_is_decoded_instruction_by_instruction() {
    let bytes = class_with_code_bytes();
    let class = decode_class(&bytes).unwrap();
    assert_eq!(class.methods.len(), 1);
    match &class.methods[0].attrs[0] {
        MethodAttr::Code(name, code) => {
            assert_eq!(*name, 5);
            assert_eq!(code.max_locals, 2);
            assert_eq!(code.bytecode.len(), 2);
            // `istore 1` takes its operand byte with it.
            assert!(matches!(code.bytecode[0], (0, Instr::Local(0x36, 1))));
            assert!(matches!(code.bytecode[1], (2, Instr::Simple(0xb1))));
        },
        _ => panic!("the attribute named Code is decoded as code"),
    }
    assert_eq!(class.to_bytes(), Some(bytes));
}

#[test]
fn truncated_or_foreign_bytes_are_no_class() {
    let bytes = minimal_class_bytes();
    // Cut inside the method count.
    assert!(decode_class(&bytes[..bytes.len() - 3]).is_none());
    // Cut inside the constant pool.
    assert!(decode_class(&bytes[..20]).is_none());
    assert!(decode_class(b"hello").is_none());
    let mut bad_magic = bytes;
    bad_magic[0] = 0;
    assert!(decode_class(&bad_magic).is_none());
}

#[test]
fn jar_entries_are_decoded_one_by_one() {
    let entries = vec![
        ("A.class".to_string(), minimal_class_bytes()),
        ("readme.txt".to_string(), b"hello".to_vec()),
    ];
    let classes = parse_jar_classes(&entries);
    assert_eq!(classes.len(), 2);
    assert_eq!(classes[0].0, "A.class");
    assert!(classes[0].1.is_some());
    assert_eq!(classes[1].0, "readme.txt");
    assert!(classes[1].1.is_none());
}

#[test]
fn reassembled_class_keeps_its_name() {
    let class = decode_class(&minimal_class_bytes()).unwrap();
    let out = reasm(&class).ok().unwrap();
    let again = decode_class(&out).unwrap();
    let name = match &again.cp[again.this_class as usize] {
        Const::Class(n) => *n,
        _ => panic!("this_class is no class entry"),
    };
    assert!(matches!(&again.cp[name as usize], Const::Utf8(b) if b.as_slice() == b"A"));
}

#[test]
fn goodies_need_a_palette() {
    let mut events = Vec::new();
    let classes = vec![("A.class".to_string(), decode_class(&minimal_class_bytes()))];
    let r = extract_general_goodies(&classes, &mut events);
    let e = r.err().unwrap();
    assert!(matches!(e, GoodiesError::PaletteNotFound));
    assert_eq!(e.message(), "Palette not found");
}

#[test]
fn a_class_without_a_name_does_not_hide_a_missing_palette() {
    let class = ClassFile {
        minor: 0,
        major: 52,
        cp: vec![Const::Null],
        access: 0x21,
        this_class: 0,
        super_class: 0,
        interfaces: vec![],
        fields: vec![0, 0],
        methods: vec![],
        attrs: vec![0, 0],
    };
    let mut events = Vec::new();
    let r = extract_general_goodies(&vec![("A.class".to_string(), Some(class))], &mut events);
    let e = r.err().unwrap();
    assert!(matches!(e, GoodiesError::PaletteNotFound));
    let seen: Vec<(Stage, StageProgress)> = events.iter().map(|e| (e.stage, e.progress)).collect();
    assert_eq!(
        seen,
        vec![
            (Stage::LoadingFileNames, StageProgress::Unknown),
            (Stage::ScanningClasses, StageProgress::Percentage(0, 1)),
            (Stage::ScanningClasses, StageProgress::Percentage(1, 1)),
        ]
    );
}

#[test]
fn writing_into_a_jar_without_goodies_fails() {
    let mut events = Vec::new();
    let r = write_theme_to_jar(&vec![], &vec![], &mut events);
    assert!(matches!(r, Err(ThemeWriteError::Goodies(GoodiesError::PaletteNotFound))));
    assert_eq!(events.len(), 1);
    assert_eq!(events[0].stage, Stage::WritingTheme);
    assert_eq!(events[0].progress, StageProgress::Unknown);
}

fn timeline_class() -> ClassFile {
    ClassFile {
        minor: 0,
        major: 52,
        cp: vec![
            Const::Null,
            Const::Utf8(b"raw".to_vec()),
            Const::Class(1),
            Const::Utf8(b"PLAYHEAD".to_vec()),
            Const::Utf8(b"Lraw;".to_vec()),
            Const::NameAndType(3, 4),
            Const::Field(2, 5),
        ],
        access: 0x21,
        this_class: 2,
        super_class: 0,
        interfaces: vec![],
        fields: vec![0, 0],
        methods: vec![],
        attrs: vec![0, 0],
    }
}

#[test]
fn timeline_color_is_switched_to_another_constant() {
    let mut class = timeline_class();
    let mut r = TimelineColorReference {
        class_filename: "t.class".to_string(),
        const_name: "PLAYHEAD".to_string(),
        field_type_cp_idx: 4,
        fmim_idx: 6,
    };
    assert_eq!(find_const_name(&class.cp, 6), Some("PLAYHEAD".to_string()));
    assert_eq!(switch_timeline_color(&mut class, "RED", &mut r), Some(()));
    assert_eq!(class.cp.len(), 9);
    assert!(matches!(&class.cp[7], Const::Utf8(b) if b.as_slice() == b"RED"));
    assert!(matches!(class.cp[8], Const::NameAndType(7, 4)));
    assert!(matches!(class.cp[6], Const::Field(2, 8)));
    assert_eq!(find_const_name(&class.cp, 6), Some("RED".to_string()));
    assert_eq!(r.const_name, "RED");
    assert_eq!(r.class_filename, "t.class");
}

#[test]
fn timeline_switch_beyond_the_pool_fails() {
    let mut class = timeline_class();
    let mut r = TimelineColorReference {
        class_filename: "t.class".to_string(),
        const_name: "PLAYHEAD".to_string(),
        field_type_cp_idx: 4,
        fmim_idx: 20,
    };
    assert_eq!(switch_timeline_color(&mut class, "RED", &mut r), None);
    assert_eq!(class.cp.len(), 9);
    assert_eq!(r.const_name, "PLAYHEAD");
}

const GRAY: &str = "(Ljava/lang/String;I)Lcol;";
const RGB: &str = "(Ljava/lang/String;III)Lcol;";

fn pool_method(cp: &mut Vec<Const>, class: &str, name: &str, desc: &str) -> u16 {
    let base = cp.len() as u16;
    cp.push(Const::Utf8(class.as_bytes().to_vec()));
    cp.push(Const::Class(base));
    cp.push(Const::Utf8(name.as_bytes().to_vec()));
    cp.push(Const::Utf8(desc.as_bytes().to_vec()));
    cp.push(Const::NameAndType(base + 2, base + 3));
    cp.push(Const::Method(base + 1, base + 4));
    base + 5
}

/// A class whose only method defines `Background` as gray 10 and `Line`
/// as rgb (1, 2, 3).
fn definitions_class() -> ClassFile {
    let mut cp = vec![Const::Null, Const::Utf8(b"defs".to_vec()), Const::Class(1)];
    let gray = pool_method(&mut cp, "pal", "gray", GRAY);
    let rgb = pool_method(&mut cp, "pal", "rgb", RGB);
    cp.push(Const::Utf8(b"Background".to_vec()));
    let bg = cp.len() as u16;
    cp.push(Const::Str(bg - 1));
    cp.push(Const::Utf8(b"Line".to_vec()));
    let line = cp.len() as u16;
    cp.push(Const::Str(line - 1));
    cp.push(Const::Utf8(b"Code".to_vec()));
    let code_name = (cp.len() - 1) as u16;
    let instrs = vec![
        Instr::Aload(0),
        Instr::Ldc(bg as u8),
        Instr::Bipush(10),
        Instr::Invokevirtual(gray),
        Instr::Aload(0),
        Instr::Ldc(line as u8),
        Instr::Iconst(1),
        Instr::Iconst(2),
        Instr::Iconst(3),
        Instr::Invokevirtual(rgb),
        Instr::Simple(0xb1),
    ];
    let bytecode = instrs.into_iter().enumerate().map(|(i, x)| (i as u32, x)).collect();
    ClassFile {
        minor: 0,
        major: 52,
        cp,
        access: 0x21,
        this_class: 2,
        super_class: 0,
        interfaces: vec![],
        fields: vec![0, 0],
        methods: vec![Method {
            access: 1,
            name: code_name,
            desc: code_name,
            attrs: vec![MethodAttr::Code(
                code_name,
                Code { max_stack: 5, max_locals: 1, bytecode, exception_table: vec![0, 0], attrs: vec![] },
            )],
        }],
        attrs: vec![0, 0],
    }
}

fn code_instrs(class: &ClassFile) -> Vec<&Instr> {
    match &class.methods[0].attrs[0] {
        MethodAttr::Code(_, code) => code.bytecode.iter().map(|(_, i)| i).collect(),
        _ => panic!("not code"),
    }
}

#[test]
fn colorize_rewrites_mapped_definitions_to_rgba() {
    let mut class = definitions_class();
    let before = class.cp.len();
    let mapping = vec![("Background".to_string(), (1u8, 2u8, 3u8, 4u8))];
    assert!(can_colorize_class(&class, 0, &mapping));
    let rgba_desc = find_method_description(&class.cp, 8, None).unwrap();
    let defs = colorize_class(&mut class, 0, &rgba_desc, &mapping).ok().unwrap();
    assert_eq!(defs.len(), 2);
    assert_eq!(defs[0].name, "Background");
    assert_eq!(defs[0].color, Color::Grayscale(10));
    assert_eq!(defs[1].name, "Line");
    assert_eq!(defs[1].color, Color::Rgbu(1, 2, 3));
    // The class has no second method to find an rgba method in: the given
    // reference is appended.
    assert_eq!(class.cp.len(), before + 6);
    let mid = (before + 5) as u16;
    let instrs = code_instrs(&class);
    assert_eq!(instrs.len(), 14);
    assert!(matches!(instrs[2], Instr::Sipush(1)));
    assert!(matches!(instrs[3], Instr::Sipush(2)));
    assert!(matches!(instrs[4], Instr::Sipush(3)));
    assert!(matches!(instrs[5], Instr::Sipush(4)));
    assert!(matches!(instrs[6], Instr::Invokevirtual(m) if *m == mid));
    assert!(matches!(instrs[12], Instr::Invokevirtual(_)));
}

#[test]
fn colorize_reports_a_missing_method() {
    let mut class = definitions_class();
    let mapping: Vec<(String, (u8, u8, u8, u8))> = vec![];
    let desc = find_method_description(&class.cp, 8, None).unwrap();
    let r = colorize_class(&mut class, 3, &desc, &mapping);
    assert!(matches!(r, Err(ColorizeError::NoMethod(3))));
}

#[test]
fn randomize_replaces_definitions_with_rgb() {
    let mut class = definitions_class();
    let before = class.cp.len();
    assert!(can_randomize_class(&class, 0));
    let rgb_desc = find_method_description(&class.cp, 14, None).unwrap();
    randomize_class("defs.class", &mut class, 0, &rgb_desc);
    // The rgb method is looked for in the class's second method, which it
    // lacks: a reference to the given one is appended.
    assert_eq!(class.cp.len(), before + 6);
    let mid = (before + 5) as u16;
    assert_eq!(find_method_description(&class.cp, mid, None).unwrap().method, "rgb");
    let instrs = code_instrs(&class);
    assert_eq!(instrs.len(), 13);
    assert!(matches!(instrs[1], Instr::Ldc(_)));
    assert!(matches!(instrs[2], Instr::Sipush(_)));
    assert!(matches!(instrs[5], Instr::Invokevirtual(m) if *m == mid));
    assert!(matches!(instrs[7], Instr::Ldc(_)));
    assert!(matches!(instrs[11], Instr::Invokevirtual(m) if *m == mid));
    assert!(matches!(instrs[12], Instr::Simple(0xb1)));
}

#[test]
fn names_of_stages_operations_and_constants() {
    assert_eq!(Stage::ScanningClasses.as_str(), "Scanning Classes");
    assert_eq!(Stage::WritingTheme.as_str(), "Writing Theme");
    assert_eq!(ThemeOperation::LoadingFromJar.as_str(), "Loading from JAR");
    assert_eq!(ThemeOperation::WritingToJar.as_str(), "Writing to JAR");
    let e: ThemeProcessingEvent = Stage::ExtractingTheme.into();
    assert_eq!(e.progress, StageProgress::Unknown);
    assert_eq!(ColorConst::try_from_comps(255, 140, 0, 255), Some(ColorConst::Orange));
    assert_eq!(ColorConst::try_from_comps(169, 169, 254, 255), Some(ColorConst::Violet));
    assert_eq!(ColorConst::try_from_comps(1, 2, 3, 4), None);
    assert_eq!(ColorConst::from_comps(0, 0, 0, 0), ColorConst::Transparent);
}

#[test]
fn class_entries_are_recognized_by_extension() {
    assert!(is_class_entry("dsj.class"));
    assert!(is_class_entry("theme/kX3.class/"));
    assert!(is_class_entry("a/b.class//"));
    assert!(!is_class_entry("META-INF/MANIFEST.MF"));
    assert!(!is_class_entry("classes/"));
    assert!(!is_class_entry(""));
}

#[test]
fn randomized_methods_are_chosen_by_entry_name() {
    assert_eq!(randomize_target("dsj.class"), Some(1));
    assert_eq!(randomize_target("com/x/dsj.class"), Some(1));
    assert_eq!(randomize_target("theme/kX3.class"), Some(4));
    assert_eq!(randomize_target("kX3.class"), None);
    assert_eq!(randomize_target("oMz.class"), None);
}
