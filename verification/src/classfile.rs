//! The in-memory model of a Java class file that the analysis reads and the
//! recoloring rewrites, together with its binary encoding.
//!
//! Constant pool entries, methods and bytecode are decoded; the parts the
//! analysis never looks at (interfaces are decoded, but fields, exception
//! tables, class attributes and non-Code method attributes) are kept as raw
//! bytes and written back unchanged.
use crate::bytes::{
    be_u16, be_u32, be_u64, byte_of_i8, i16_of, i32_of, i8_of, push_all, push_u16, push_u32, push_u64,
    u16_bytes, u16_of_i16, u32_bytes, u32_of_i32, u64_bytes,
};
use vstd::prelude::*;

verus! {

/// A constant pool entry. Index 0 and the slot after every `Long` and
/// `Double` hold `Null`, so that entries sit at their class-file indices.
pub enum Const {
    Null,
    Utf8(Vec<u8>),
    Int(u32),
    Float(u32),
    Long(u64),
    Double(u64),
    Class(u16),
    Str(u16),
    Field(u16, u16),
    Method(u16, u16),
    InterfaceMethod(u16, u16),
    NameAndType(u16, u16),
    MethodHandle(u8, u16),
    MethodType(u16),
    Dynamic(u16, u16),
    InvokeDynamic(u16, u16),
    Module(u16),
    Package(u16),
}

/// A JVM instruction. Branch operands are kept as the relative offsets
/// stored in the class file.
pub enum Instr {
    /// `iconst_0` .. `iconst_5`
    Iconst(u8),
    /// `lconst_0`, `lconst_1`
    Lconst(u8),
    /// `fconst_0` .. `fconst_2`
    Fconst(u8),
    /// `dconst_0`, `dconst_1`
    Dconst(u8),
    /// `aload_0` .. `aload_3`
    Aload(u8),
    Bipush(i8),
    Sipush(i16),
    Ldc(u8),
    LdcW(u16),
    Ldc2W(u16),
    Invokevirtual(u16),
    Invokespecial(u16),
    Putstatic(u16),
    Goto(i16),
    GotoW(i32),
    /// Any other instruction without operands.
    Simple(u8),
    /// Loads, stores and `ret` with a one-byte local index.
    Local(u8, u8),
    Iinc(u8, i8),
    /// Conditional branches, `jsr`, `ifnull`, `ifnonnull`.
    Branch(u8, i16),
    JsrW(i32),
    /// Other instructions with a two-byte constant pool index.
    CpRef(u8, u16),
    InvokeInterface(u16, u8, u8),
    InvokeDynamic(u16, u16),
    Newarray(u8),
    Multianewarray(u16, u8),
    /// `wide` form of a load, store or `ret`.
    WideLocal(u8, u16),
    WideIinc(u16, i16),
    /// default offset, low, high, jump offsets
    Tableswitch(i32, i32, i32, Vec<i32>),
    /// default offset, (key, offset) pairs
    Lookupswitch(i32, Vec<(i32, i32)>),
}

/// An attribute kept as raw bytes.
pub struct RawAttr {
    pub name: u16,
    pub data: Vec<u8>,
}

/// A decoded `Code` attribute.
pub struct Code {
    pub max_stack: u16,
    pub max_locals: u16,
    /// Instructions with their positions.
    pub bytecode: Vec<(u32, Instr)>,
    /// Raw exception table, including its two-byte length.
    pub exception_table: Vec<u8>,
    pub attrs: Vec<RawAttr>,
}

/// A method attribute.
pub enum MethodAttr {
    Code(u16, Code),
    Raw(RawAttr),
}

pub struct Method {
    pub access: u16,
    pub name: u16,
    pub desc: u16,
    pub attrs: Vec<MethodAttr>,
}

pub struct ClassFile {
    pub minor: u16,
    pub major: u16,
    pub cp: Vec<Const>,
    pub access: u16,
    pub this_class: u16,
    pub super_class: u16,
    pub interfaces: Vec<u16>,
    /// Raw field table, including its two-byte count.
    pub fields: Vec<u8>,
    pub methods: Vec<Method>,
    /// Raw class attribute table, including its two-byte count.
    pub attrs: Vec<u8>,
}

// ---------------------------------------------------------------------
// Encoding
// ---------------------------------------------------------------------

pub open spec fn tag_u16(tag: u8, v: u16) -> Seq<u8> {
    seq![tag] + u16_bytes(v)
}

pub open spec fn tag_u16_u16(tag: u8, a: u16, b: u16) -> Seq<u8> {
    seq![tag] + u16_bytes(a) + u16_bytes(b)
}

/// Class-file encoding of one constant pool entry (`Null` takes no bytes).
pub open spec fn encode_const(c: Const) -> Seq<u8> {
    match c {
        Const::Null => seq![],
        Const::Utf8(b) => seq![1u8] + u16_bytes(b@.len() as u16) + b@,
        Const::Int(v) => seq![3u8] + u32_bytes(v),
        Const::Float(v) => seq![4u8] + u32_bytes(v),
        Const::Long(v) => seq![5u8] + u64_bytes(v),
        Const::Double(v) => seq![6u8] + u64_bytes(v),
        Const::Class(v) => tag_u16(7, v),
        Const::Str(v) => tag_u16(8, v),
        Const::Field(a, b) => tag_u16_u16(9, a, b),
        Const::Method(a, b) => tag_u16_u16(10, a, b),
        Const::InterfaceMethod(a, b) => tag_u16_u16(11, a, b),
        Const::NameAndType(a, b) => tag_u16_u16(12, a, b),
        Const::MethodHandle(k, r) => seq![15u8, k] + u16_bytes(r),
        Const::MethodType(v) => tag_u16(16, v),
        Const::Dynamic(a, b) => tag_u16_u16(17, a, b),
        Const::InvokeDynamic(a, b) => tag_u16_u16(18, a, b),
        Const::Module(v) => tag_u16(19, v),
        Const::Package(v) => tag_u16(20, v),
    }
}

/// Encoding of a run of constant pool entries.
pub open spec fn encode_consts(cs: Seq<Const>) -> Seq<u8>
    decreases cs.len(),
{
    if cs.len() == 0 {
        seq![]
    } else {
        encode_consts(cs.drop_last()) + encode_const(cs.last())
    }
}

pub open spec fn is_wide_entry(c: Const) -> bool {
    c is Long || c is Double
}

/// The layout rules of the constant pool model.
pub open spec fn cp_wf(cp: Seq<Const>) -> bool {
    &&& 1 <= cp.len() <= 65535
    &&& cp[0] is Null
    &&& forall|i: int| 1 <= i < cp.len() ==> (#[trigger] cp[i] is Null <==> is_wide_entry(cp[i - 1]))
    &&& !is_wide_entry(cp.last())
    &&& forall|i: int| 0 <= i < cp.len() ==> (#[trigger] cp[i] matches Const::Utf8(b) ==> b@.len() <= 65535)
}

pub open spec fn encode_cp(cp: Seq<Const>) -> Seq<u8> {
    u16_bytes(cp.len() as u16) + encode_consts(cp)
}

/// Number of zero bytes after a switch opcode at offset `off`.
pub open spec fn switch_pad(off: int) -> int {
    3 - off % 4
}

pub open spec fn i32_bytes(v: i32) -> Seq<u8> {
    u32_bytes(u32_of_i32(v))
}

pub open spec fn i16_bytes(v: i16) -> Seq<u8> {
    u16_bytes(u16_of_i16(v))
}

pub open spec fn encode_i32s(vs: Seq<i32>) -> Seq<u8>
    decreases vs.len(),
{
    if vs.len() == 0 {
        seq![]
    } else {
        encode_i32s(vs.drop_last()) + i32_bytes(vs.last())
    }
}

pub open spec fn encode_pairs(vs: Seq<(i32, i32)>) -> Seq<u8>
    decreases vs.len(),
{
    if vs.len() == 0 {
        seq![]
    } else {
        encode_pairs(vs.drop_last()) + i32_bytes(vs.last().0) + i32_bytes(vs.last().1)
    }
}

pub open spec fn zeros(n: int) -> Seq<u8> {
    Seq::new(n as nat, |i: int| 0u8)
}

/// Opcodes without operands that have no dedicated variant.
pub open spec fn is_simple_op(op: u8) -> bool {
    ||| op <= 0x02
    ||| 0x1a <= op <= 0x29
    ||| 0x2e <= op <= 0x35
    ||| 0x3b <= op <= 0x83
    ||| 0x85 <= op <= 0x98
    ||| 0xac <= op <= 0xb1
    ||| op == 0xbe
    ||| op == 0xbf
    ||| op == 0xc2
    ||| op == 0xc3
}

/// Opcodes taking a one-byte local variable index.
pub open spec fn is_local_op(op: u8) -> bool {
    ||| 0x15 <= op <= 0x19
    ||| 0x36 <= op <= 0x3a
    ||| op == 0xa9
}

/// Opcodes with a 16-bit branch offset other than `goto`.
pub open spec fn is_branch_op(op: u8) -> bool {
    ||| 0x99 <= op <= 0xa6
    ||| op == 0xa8
    ||| op == 0xc6
    ||| op == 0xc7
}

/// Opcodes with a two-byte constant pool operand that have no dedicated variant.
pub open spec fn is_cpref_op(op: u8) -> bool {
    ||| op == 0xb2
    ||| op == 0xb4
    ||| op == 0xb5
    ||| op == 0xb8
    ||| op == 0xbb
    ||| op == 0xbd
    ||| op == 0xc0
    ||| op == 0xc1
}

/// Whether an instruction's fields are in the ranges its encoding allows.
pub open spec fn instr_wf(i: Instr) -> bool {
    match i {
        Instr::Iconst(v) => v <= 5,
        Instr::Lconst(v) => v <= 1,
        Instr::Fconst(v) => v <= 2,
        Instr::Dconst(v) => v <= 1,
        Instr::Aload(v) => v <= 3,
        Instr::Simple(op) => is_simple_op(op),
        Instr::Local(op, _) => is_local_op(op),
        Instr::Branch(op, _) => is_branch_op(op),
        Instr::CpRef(op, _) => is_cpref_op(op),
        Instr::WideLocal(op, _) => is_local_op(op),
        Instr::Tableswitch(_, low, high, offs) => low <= high && offs@.len() == high - low + 1,
        Instr::Lookupswitch(_, pairs) => pairs@.len() <= 0x7fff_ffff,
        _ => true,
    }
}

/// Encoding of one instruction placed at code offset `off`.
pub open spec fn encode_instr(i: Instr, off: int) -> Seq<u8> {
    match i {
        Instr::Iconst(v) => seq![(0x03 + v) as u8],
        Instr::Lconst(v) => seq![(0x09 + v) as u8],
        Instr::Fconst(v) => seq![(0x0b + v) as u8],
        Instr::Dconst(v) => seq![(0x0e + v) as u8],
        Instr::Aload(v) => seq![(0x2a + v) as u8],
        Instr::Bipush(v) => seq![0x10u8, byte_of_i8(v)],
        Instr::Sipush(v) => seq![0x11u8] + i16_bytes(v),
        Instr::Ldc(v) => seq![0x12u8, v],
        Instr::LdcW(v) => tag_u16(0x13, v),
        Instr::Ldc2W(v) => tag_u16(0x14, v),
        Instr::Invokevirtual(v) => tag_u16(0xb6, v),
        Instr::Invokespecial(v) => tag_u16(0xb7, v),
        Instr::Putstatic(v) => tag_u16(0xb3, v),
        Instr::Goto(d) => seq![0xa7u8] + i16_bytes(d),
        Instr::GotoW(d) => seq![0xc8u8] + i32_bytes(d),
        Instr::Simple(op) => seq![op],
        Instr::Local(op, ix) => seq![op, ix],
        Instr::Iinc(ix, d) => seq![0x84u8, ix, byte_of_i8(d)],
        Instr::Branch(op, d) => seq![op] + i16_bytes(d),
        Instr::JsrW(d) => seq![0xc9u8] + i32_bytes(d),
        Instr::CpRef(op, v) => tag_u16(op, v),
        Instr::InvokeInterface(v, n, z) => tag_u16(0xb9, v) + seq![n, z],
        Instr::InvokeDynamic(v, z) => tag_u16(0xba, v) + u16_bytes(z),
        Instr::Newarray(t) => seq![0xbcu8, t],
        Instr::Multianewarray(v, d) => tag_u16(0xc5, v) + seq![d],
        Instr::WideLocal(op, ix) => seq![0xc4u8, op] + u16_bytes(ix),
        Instr::WideIinc(ix, d) => seq![0xc4u8, 0x84u8] + u16_bytes(ix) + i16_bytes(d),
        Instr::Tableswitch(def, low, high, offs) => seq![0xaau8] + zeros(switch_pad(off))
            + i32_bytes(def) + i32_bytes(low) + i32_bytes(high) + encode_i32s(offs@),
        Instr::Lookupswitch(def, pairs) => seq![0xabu8] + zeros(switch_pad(off)) + i32_bytes(def)
            + i32_bytes(pairs@.len() as i32) + encode_pairs(pairs@),
    }
}

/// Encoding of an instruction sequence starting at offset 0; each
/// instruction is placed right after the encoding of those before it.
pub open spec fn encode_instrs(is: Seq<(u32, Instr)>) -> Seq<u8>
    decreases is.len(),
{
    if is.len() == 0 {
        seq![]
    } else {
        let prev = encode_instrs(is.drop_last());
        prev + encode_instr(is.last().1, prev.len() as int)
    }
}

/// Byte offset at which instruction `k` of `is` is encoded.
pub open spec fn instr_offset(is: Seq<(u32, Instr)>, k: int) -> int {
    encode_instrs(is.subrange(0, k)).len() as int
}

/// Whether every instruction carries its own byte offset as position.
pub open spec fn positions_are_offsets(is: Seq<(u32, Instr)>) -> bool {
    forall|k: int| 0 <= k < is.len() ==> #[trigger] is[k].0 == instr_offset(is, k)
}

pub open spec fn encode_raw_attr(a: RawAttr) -> Seq<u8> {
    u16_bytes(a.name) + u32_bytes(a.data@.len() as u32) + a.data@
}

pub open spec fn encode_raw_attrs(attrs: Seq<RawAttr>) -> Seq<u8>
    decreases attrs.len(),
{
    if attrs.len() == 0 {
        seq![]
    } else {
        encode_raw_attrs(attrs.drop_last()) + encode_raw_attr(attrs.last())
    }
}

/// Body of a `Code` attribute (without its name and length).
pub open spec fn encode_code_body(c: Code) -> Seq<u8> {
    let code = encode_instrs(c.bytecode@);
    u16_bytes(c.max_stack) + u16_bytes(c.max_locals) + u32_bytes(code.len() as u32) + code
        + c.exception_table@ + u16_bytes(c.attrs@.len() as u16) + encode_raw_attrs(c.attrs@)
}

pub open spec fn encode_method_attr(a: MethodAttr) -> Seq<u8> {
    match a {
        MethodAttr::Code(name, c) => {
            let body = encode_code_body(c);
            u16_bytes(name) + u32_bytes(body.len() as u32) + body
        },
        MethodAttr::Raw(r) => encode_raw_attr(r),
    }
}

pub open spec fn encode_method_attrs(attrs: Seq<MethodAttr>) -> Seq<u8>
    decreases attrs.len(),
{
    if attrs.len() == 0 {
        seq![]
    } else {
        encode_method_attrs(attrs.drop_last()) + encode_method_attr(attrs.last())
    }
}

pub open spec fn encode_method(m: Method) -> Seq<u8> {
    u16_bytes(m.access) + u16_bytes(m.name) + u16_bytes(m.desc) + u16_bytes(
        m.attrs@.len() as u16,
    ) + encode_method_attrs(m.attrs@)
}

pub open spec fn encode_methods(ms: Seq<Method>) -> Seq<u8>
    decreases ms.len(),
{
    if ms.len() == 0 {
        seq![]
    } else {
        encode_methods(ms.drop_last()) + encode_method(ms.last())
    }
}

pub open spec fn encode_u16s(vs: Seq<u16>) -> Seq<u8>
    decreases vs.len(),
{
    if vs.len() == 0 {
        seq![]
    } else {
        encode_u16s(vs.drop_last()) + u16_bytes(vs.last())
    }
}

pub open spec fn class_magic() -> u32 {
    0xCAFE_BABE
}

/// The class-file bytes of a class.
pub open spec fn encode_class(c: ClassFile) -> Seq<u8> {
    u32_bytes(class_magic()) + u16_bytes(c.minor) + u16_bytes(c.major) + encode_cp(c.cp@)
        + u16_bytes(c.access) + u16_bytes(c.this_class) + u16_bytes(c.super_class) + u16_bytes(
        c.interfaces@.len() as u16,
    ) + encode_u16s(c.interfaces@) + c.fields@ + u16_bytes(c.methods@.len() as u16)
        + encode_methods(c.methods@) + c.attrs@
}

// ---------------------------------------------------------------------
// When the encoding is faithful: every length and count fits its field.
// ---------------------------------------------------------------------

pub open spec fn raw_attr_fits(a: RawAttr) -> bool {
    a.data@.len() <= u32::MAX
}

pub open spec fn code_fits(c: Code) -> bool {
    &&& forall|k: int| 0 <= k < c.bytecode@.len() ==> instr_wf(#[trigger] c.bytecode@[k].1)
    &&& c.attrs@.len() <= 65535
    &&& forall|k: int| 0 <= k < c.attrs@.len() ==> raw_attr_fits(#[trigger] c.attrs@[k])
    &&& encode_code_body(c).len() <= u32::MAX
}

pub open spec fn method_attr_fits(a: MethodAttr) -> bool {
    match a {
        MethodAttr::Code(_, c) => code_fits(c),
        MethodAttr::Raw(r) => raw_attr_fits(r),
    }
}

pub open spec fn method_fits(m: Method) -> bool {
    &&& m.attrs@.len() <= 65535
    &&& forall|k: int| 0 <= k < m.attrs@.len() ==> method_attr_fits(#[trigger] m.attrs@[k])
}

/// Whether `encode_class` describes a class file: every count and length
/// fits its field and the constant pool follows its layout rules.
pub open spec fn class_fits(c: ClassFile) -> bool {
    &&& cp_wf(c.cp@)
    &&& c.interfaces@.len() <= 65535
    &&& c.methods@.len() <= 65535
    &&& forall|k: int| 0 <= k < c.methods@.len() ==> method_fits(#[trigger] c.methods@[k])
}


// ---------------------------------------------------------------------
// Writer
// ---------------------------------------------------------------------

pub fn bits_of_i32(v: i32) -> (r: u32)
    ensures
        r == u32_of_i32(v),
{
    if v >= 0 {
        v as u32
    } else {
        (v as i64 + 0x1_0000_0000i64) as u32
    }
}

pub fn bits_of_i16(v: i16) -> (r: u16)
    ensures
        r == u16_of_i16(v),
{
    if v >= 0 {
        v as u16
    } else {
        (v as i32 + 65536i32) as u16
    }
}

pub fn byte_from_i8(v: i8) -> (r: u8)
    ensures
        r == byte_of_i8(v),
{
    if v >= 0 {
        v as u8
    } else {
        (v as i16 + 256i16) as u8
    }
}

fn push_tag_u16(out: &mut Vec<u8>, tag: u8, v: u16)
    ensures
        final(out)@ == old(out)@ + tag_u16(tag, v),
{
    out.push(tag);
    push_u16(out, v);
    assert(final(out)@ =~= old(out)@ + tag_u16(tag, v));
}

fn push_tag_u16_u16(out: &mut Vec<u8>, tag: u8, a: u16, b: u16)
    ensures
        final(out)@ == old(out)@ + tag_u16_u16(tag, a, b),
{
    out.push(tag);
    push_u16(out, a);
    push_u16(out, b);
    assert(final(out)@ =~= old(out)@ + tag_u16_u16(tag, a, b));
}

/// Appends the encoding of one constant pool entry.
pub fn write_const(out: &mut Vec<u8>, c: &Const)
    requires
        c matches Const::Utf8(b) ==> b@.len() <= 65535,
    ensures
        final(out)@ == old(out)@ + encode_const(*c),
{
    match c {
        Const::Null => {
            assert(final(out)@ =~= old(out)@ + encode_const(*c));
        },
        Const::Utf8(b) => {
            out.push(1u8);
            push_u16(out, b.len() as u16);
            push_all(out, b.as_slice());
            assert(final(out)@ =~= old(out)@ + encode_const(*c));
        },
        Const::Int(v) => {
            out.push(3u8);
            push_u32(out, *v);
            assert(final(out)@ =~= old(out)@ + encode_const(*c));
        },
        Const::Float(v) => {
            out.push(4u8);
            push_u32(out, *v);
            assert(final(out)@ =~= old(out)@ + encode_const(*c));
        },
        Const::Long(v) => {
            out.push(5u8);
            push_u64(out, *v);
            assert(final(out)@ =~= old(out)@ + encode_const(*c));
        },
        Const::Double(v) => {
            out.push(6u8);
            push_u64(out, *v);
            assert(final(out)@ =~= old(out)@ + encode_const(*c));
        },
        Const::Class(v) => push_tag_u16(out, 7, *v),
        Const::Str(v) => push_tag_u16(out, 8, *v),
        Const::Field(a, b) => push_tag_u16_u16(out, 9, *a, *b),
        Const::Method(a, b) => push_tag_u16_u16(out, 10, *a, *b),
        Const::InterfaceMethod(a, b) => push_tag_u16_u16(out, 11, *a, *b),
        Const::NameAndType(a, b) => push_tag_u16_u16(out, 12, *a, *b),
        Const::MethodHandle(k, r) => {
            out.push(15u8);
            out.push(*k);
            push_u16(out, *r);
            assert(final(out)@ =~= old(out)@ + encode_const(*c));
        },
        Const::MethodType(v) => push_tag_u16(out, 16, *v),
        Const::Dynamic(a, b) => push_tag_u16_u16(out, 17, *a, *b),
        Const::InvokeDynamic(a, b) => push_tag_u16_u16(out, 18, *a, *b),
        Const::Module(v) => push_tag_u16(out, 19, *v),
        Const::Package(v) => push_tag_u16(out, 20, *v),
    }
}

fn is_wide_const(c: &Const) -> (r: bool)
    ensures
        r == is_wide_entry(*c),
{
    match c {
        Const::Long(_) | Const::Double(_) => true,
        _ => false,
    }
}

/// Whether a constant pool follows the layout rules of the model.
pub fn check_cp(cp: &Vec<Const>) -> (r: bool)
    ensures
        r == cp_wf(cp@),
{
    let n = cp.len();
    if n < 1 || n > 65535 {
        return false;
    }
    if !matches!(cp[0], Const::Null) {
        return false;
    }
    if is_wide_const(&cp[n - 1]) {
        return false;
    }
    let mut i: usize = 1;
    while i < n
        invariant
            n == cp@.len(),
            1 <= i <= n,
            forall|j: int| 1 <= j < i ==> (#[trigger] cp@[j] is Null <==> is_wide_entry(cp@[j - 1])),
            forall|j: int| 0 <= j < i ==> (#[trigger] cp@[j] matches Const::Utf8(b) ==> b@.len() <= 65535),
        decreases n - i,
    {
        let is_null = matches!(cp[i], Const::Null);
        if is_null != is_wide_const(&cp[i - 1]) {
            return false;
        }
        if let Const::Utf8(b) = &cp[i] {
            if b.len() > 65535 {
                return false;
            }
        }
        i += 1;
    }
    true
}

/// Appends the encoding of a whole constant pool.
pub fn write_cp(out: &mut Vec<u8>, cp: &Vec<Const>)
    requires
        cp_wf(cp@),
    ensures
        final(out)@ == old(out)@ + encode_cp(cp@),
{
    push_u16(out, cp.len() as u16);
    let ghost base = out@;
    let mut i: usize = 0;
    while i < cp.len()
        invariant
            cp_wf(cp@),
            i <= cp@.len(),
            out@ == base + encode_consts(cp@.subrange(0, i as int)),
        decreases cp@.len() - i,
    {
        write_const(out, &cp[i]);
        proof {
            assert(cp@.subrange(0, i + 1).drop_last() =~= cp@.subrange(0, i as int));
        }
        i += 1;
    }
    assert(cp@.subrange(0, cp@.len() as int) =~= cp@);
    assert(final(out)@ =~= old(out)@ + encode_cp(cp@));
}

fn push_zeros(out: &mut Vec<u8>, n: usize)
    ensures
        final(out)@ == old(out)@ + zeros(n as int),
{
    let mut k: usize = 0;
    while k < n
        invariant
            k <= n,
            out@ == old(out)@ + zeros(k as int),
        decreases n - k,
    {
        out.push(0u8);
        k += 1;
        assert(out@ =~= old(out)@ + zeros(k as int));
    }
}

fn push_i32(out: &mut Vec<u8>, v: i32)
    ensures
        final(out)@ == old(out)@ + i32_bytes(v),
{
    push_u32(out, bits_of_i32(v));
}

fn push_i16(out: &mut Vec<u8>, v: i16)
    ensures
        final(out)@ == old(out)@ + i16_bytes(v),
{
    push_u16(out, bits_of_i16(v));
}

/// Whether an instruction's fields are in range for its encoding.
pub fn check_instr(i: &Instr) -> (r: bool)
    ensures
        r == instr_wf(*i),
{
    match i {
        Instr::Iconst(v) => *v <= 5,
        Instr::Lconst(v) => *v <= 1,
        Instr::Fconst(v) => *v <= 2,
        Instr::Dconst(v) => *v <= 1,
        Instr::Aload(v) => *v <= 3,
        Instr::Simple(op) => {
            let op = *op;
            op <= 0x02 || (0x1a <= op && op <= 0x29) || (0x2e <= op && op <= 0x35) || (0x3b <= op
                && op <= 0x83) || (0x85 <= op && op <= 0x98) || (0xac <= op && op <= 0xb1) || op == 0xbe
                || op == 0xbf || op == 0xc2 || op == 0xc3
        },
        Instr::Local(op, _) | Instr::WideLocal(op, _) => {
            let op = *op;
            (0x15 <= op && op <= 0x19) || (0x36 <= op && op <= 0x3a) || op == 0xa9
        },
        Instr::Branch(op, _) => {
            let op = *op;
            (0x99 <= op && op <= 0xa6) || op == 0xa8 || op == 0xc6 || op == 0xc7
        },
        Instr::CpRef(op, _) => {
            let op = *op;
            op == 0xb2 || op == 0xb4 || op == 0xb5 || op == 0xb8 || op == 0xbb || op == 0xbd || op
                == 0xc0 || op == 0xc1
        },
        Instr::Tableswitch(_, low, high, offs) => {
            if *low <= *high {
                let cnt = ((*high as i64) - (*low as i64) + 1) as u64;
                offs.len() as u64 == cnt
            } else {
                false
            }
        },
        Instr::Lookupswitch(_, pairs) => pairs.len() <= 0x7fff_ffff,
        _ => true,
    }
}

fn write_tableswitch(out: &mut Vec<u8>, def: i32, low: i32, high: i32, offs: &Vec<i32>)
    ensures
        final(out)@ == old(out)@ + (seq![0xaau8] + zeros(switch_pad(old(out)@.len() as int))
            + i32_bytes(def) + i32_bytes(low) + i32_bytes(high) + encode_i32s(offs@)),
{
    out.push(0xaa);
    let pad = 3 - (out.len() - 1) % 4;
    push_zeros(out, pad);
    push_i32(out, def);
    push_i32(out, low);
    push_i32(out, high);
    let ghost base = out@;
    let mut k: usize = 0;
    while k < offs.len()
        invariant
            k <= offs@.len(),
            out@ == base + encode_i32s(offs@.subrange(0, k as int)),
        decreases offs@.len() - k,
    {
        push_i32(out, offs[k]);
        proof {
            assert(offs@.subrange(0, k + 1).drop_last() =~= offs@.subrange(0, k as int));
        }
        k += 1;
    }
    assert(offs@.subrange(0, offs@.len() as int) =~= offs@);
    assert(final(out)@ =~= old(out)@ + (seq![0xaau8] + zeros(switch_pad(old(out)@.len() as int))
        + i32_bytes(def) + i32_bytes(low) + i32_bytes(high) + encode_i32s(offs@)));
}

fn write_lookupswitch(out: &mut Vec<u8>, def: i32, pairs: &Vec<(i32, i32)>)
    requires
        pairs@.len() <= 0x7fff_ffff,
    ensures
        final(out)@ == old(out)@ + (seq![0xabu8] + zeros(switch_pad(old(out)@.len() as int))
            + i32_bytes(def) + i32_bytes(pairs@.len() as i32) + encode_pairs(pairs@)),
{
    out.push(0xab);
    let pad = 3 - (out.len() - 1) % 4;
    push_zeros(out, pad);
    push_i32(out, def);
    push_i32(out, pairs.len() as i32);
    let ghost base = out@;
    let mut k: usize = 0;
    while k < pairs.len()
        invariant
            k <= pairs@.len(),
            out@ == base + encode_pairs(pairs@.subrange(0, k as int)),
        decreases pairs@.len() - k,
    {
        let (key, d) = pairs[k];
        push_i32(out, key);
        push_i32(out, d);
        proof {
            assert(pairs@.subrange(0, k + 1).drop_last() =~= pairs@.subrange(0, k as int));
        }
        k += 1;
    }
    assert(pairs@.subrange(0, pairs@.len() as int) =~= pairs@);
    assert(final(out)@ =~= old(out)@ + (seq![0xabu8] + zeros(switch_pad(old(out)@.len() as int))
        + i32_bytes(def) + i32_bytes(pairs@.len() as i32) + encode_pairs(pairs@)));
}

/// Appends the encoding of `i` placed at code offset `out.len()`.
#[verifier::rlimit(40)]
pub fn write_instr(out: &mut Vec<u8>, i: &Instr)
    requires
        instr_wf(*i),
    ensures
        final(out)@ == old(out)@ + encode_instr(*i, old(out)@.len() as int),
{
    let ghost off = old(out)@.len() as int;
    match i {
        Instr::Iconst(v) => out.push(0x03 + *v),
        Instr::Lconst(v) => out.push(0x09 + *v),
        Instr::Fconst(v) => out.push(0x0b + *v),
        Instr::Dconst(v) => out.push(0x0e + *v),
        Instr::Aload(v) => out.push(0x2a + *v),
        Instr::Bipush(v) => {
            out.push(0x10);
            out.push(byte_from_i8(*v));
        },
        Instr::Sipush(v) => {
            out.push(0x11);
            push_i16(out, *v);
        },
        Instr::Ldc(v) => {
            out.push(0x12);
            out.push(*v);
        },
        Instr::LdcW(v) => push_tag_u16(out, 0x13, *v),
        Instr::Ldc2W(v) => push_tag_u16(out, 0x14, *v),
        Instr::Invokevirtual(v) => push_tag_u16(out, 0xb6, *v),
        Instr::Invokespecial(v) => push_tag_u16(out, 0xb7, *v),
        Instr::Putstatic(v) => push_tag_u16(out, 0xb3, *v),
        Instr::Goto(d) => {
            out.push(0xa7);
            push_i16(out, *d);
        },
        Instr::GotoW(d) => {
            out.push(0xc8);
            push_i32(out, *d);
        },
        Instr::Simple(op) => out.push(*op),
        Instr::Local(op, ix) => {
            out.push(*op);
            out.push(*ix);
        },
        Instr::Iinc(ix, d) => {
            out.push(0x84);
            out.push(*ix);
            out.push(byte_from_i8(*d));
        },
        Instr::Branch(op, d) => {
            out.push(*op);
            push_i16(out, *d);
        },
        Instr::JsrW(d) => {
            out.push(0xc9);
            push_i32(out, *d);
        },
        Instr::CpRef(op, v) => push_tag_u16(out, *op, *v),
        Instr::InvokeInterface(v, n, z) => {
            push_tag_u16(out, 0xb9, *v);
            out.push(*n);
            out.push(*z);
        },
        Instr::InvokeDynamic(v, z) => {
            push_tag_u16(out, 0xba, *v);
            push_u16(out, *z);
        },
        Instr::Newarray(t) => {
            out.push(0xbc);
            out.push(*t);
        },
        Instr::Multianewarray(v, d) => {
            push_tag_u16(out, 0xc5, *v);
            out.push(*d);
        },
        Instr::WideLocal(op, ix) => {
            out.push(0xc4);
            out.push(*op);
            push_u16(out, *ix);
        },
        Instr::WideIinc(ix, d) => {
            out.push(0xc4);
            out.push(0x84);
            push_u16(out, *ix);
            push_i16(out, *d);
        },
        Instr::Tableswitch(def, low, high, offs) => write_tableswitch(out, *def, *low, *high, offs),
        Instr::Lookupswitch(def, pairs) => write_lookupswitch(out, *def, pairs),
    }
    assert(final(out)@ =~= old(out)@ + encode_instr(*i, off));
}

/// The encoding of an instruction list, or `None` when an instruction is
/// out of range.
pub fn write_instrs(is: &Vec<(u32, Instr)>) -> (r: Option<Vec<u8>>)
    ensures
        r is Some <==> forall|k: int| 0 <= k < is@.len() ==> instr_wf(#[trigger] is@[k].1),
        r matches Some(b) ==> b@ == encode_instrs(is@),
{
    let mut out: Vec<u8> = Vec::new();
    let mut k: usize = 0;
    while k < is.len()
        invariant
            k <= is@.len(),
            out@ == encode_instrs(is@.subrange(0, k as int)),
            forall|j: int| 0 <= j < k ==> instr_wf(#[trigger] is@[j].1),
        decreases is@.len() - k,
    {
        if !check_instr(&is[k].1) {
            return None;
        }
        write_instr(&mut out, &is[k].1);
        proof {
            let s = is@.subrange(0, k + 1);
            assert(s.drop_last() =~= is@.subrange(0, k as int));
        }
        k += 1;
    }
    assert(is@.subrange(0, is@.len() as int) =~= is@);
    Some(out)
}

fn write_raw_attr(out: &mut Vec<u8>, a: &RawAttr)
    requires
        raw_attr_fits(*a),
    ensures
        final(out)@ == old(out)@ + encode_raw_attr(*a),
{
    push_u16(out, a.name);
    push_u32(out, a.data.len() as u32);
    push_all(out, a.data.as_slice());
    assert(final(out)@ =~= old(out)@ + encode_raw_attr(*a));
}

fn write_raw_attrs(out: &mut Vec<u8>, attrs: &Vec<RawAttr>) -> (ok: bool)
    ensures
        ok == forall|k: int| 0 <= k < attrs@.len() ==> raw_attr_fits(#[trigger] attrs@[k]),
        ok ==> final(out)@ == old(out)@ + encode_raw_attrs(attrs@),
{
    let mut k: usize = 0;
    while k < attrs.len()
        invariant
            k <= attrs@.len(),
            out@ == old(out)@ + encode_raw_attrs(attrs@.subrange(0, k as int)),
            forall|j: int| 0 <= j < k ==> raw_attr_fits(#[trigger] attrs@[j]),
        decreases attrs@.len() - k,
    {
        if attrs[k].data.len() > 0xffff_ffff {
            return false;
        }
        write_raw_attr(out, &attrs[k]);
        proof {
            assert(attrs@.subrange(0, k + 1).drop_last() =~= attrs@.subrange(0, k as int));
        }
        k += 1;
    }
    assert(attrs@.subrange(0, attrs@.len() as int) =~= attrs@);
    true
}

/// The body of a `Code` attribute, or `None` when it does not fit.
pub fn write_code_body(c: &Code) -> (r: Option<Vec<u8>>)
    ensures
        r is Some <==> code_fits(*c),
        r matches Some(b) ==> b@ == encode_code_body(*c),
{
    let code = match write_instrs(&c.bytecode) {
        Some(code) => code,
        None => return None,
    };
    if code.len() > 0xffff_ffff || c.attrs.len() > 65535 {
        return None;
    }
    let mut out: Vec<u8> = Vec::new();
    push_u16(&mut out, c.max_stack);
    push_u16(&mut out, c.max_locals);
    push_u32(&mut out, code.len() as u32);
    push_all(&mut out, code.as_slice());
    push_all(&mut out, c.exception_table.as_slice());
    push_u16(&mut out, c.attrs.len() as u16);
    if !write_raw_attrs(&mut out, &c.attrs) {
        return None;
    }
    if out.len() > 0xffff_ffff {
        return None;
    }
    assert(out@ =~= encode_code_body(*c));
    Some(out)
}

fn write_method_attr(out: &mut Vec<u8>, a: &MethodAttr) -> (ok: bool)
    ensures
        ok == method_attr_fits(*a),
        ok ==> final(out)@ == old(out)@ + encode_method_attr(*a),
{
    match a {
        MethodAttr::Code(name, c) => {
            match write_code_body(c) {
                Some(body) => {
                    push_u16(out, *name);
                    push_u32(out, body.len() as u32);
                    push_all(out, body.as_slice());
                    assert(final(out)@ =~= old(out)@ + encode_method_attr(*a));
                    true
                },
                None => false,
            }
        },
        MethodAttr::Raw(r) => {
            if r.data.len() > 0xffff_ffff {
                return false;
            }
            write_raw_attr(out, r);
            true
        },
    }
}

fn write_method(out: &mut Vec<u8>, m: &Method) -> (ok: bool)
    ensures
        ok == method_fits(*m),
        ok ==> final(out)@ == old(out)@ + encode_method(*m),
{
    if m.attrs.len() > 65535 {
        return false;
    }
    push_u16(out, m.access);
    push_u16(out, m.name);
    push_u16(out, m.desc);
    push_u16(out, m.attrs.len() as u16);
    let ghost base = out@;
    let mut k: usize = 0;
    while k < m.attrs.len()
        invariant
            k <= m.attrs@.len(),
            m.attrs@.len() <= 65535,
            out@ == base + encode_method_attrs(m.attrs@.subrange(0, k as int)),
            forall|j: int| 0 <= j < k ==> method_attr_fits(#[trigger] m.attrs@[j]),
        decreases m.attrs@.len() - k,
    {
        if !write_method_attr(out, &m.attrs[k]) {
            return false;
        }
        proof {
            assert(m.attrs@.subrange(0, k + 1).drop_last() =~= m.attrs@.subrange(0, k as int));
        }
        k += 1;
    }
    assert(m.attrs@.subrange(0, m.attrs@.len() as int) =~= m.attrs@);
    assert(final(out)@ =~= old(out)@ + encode_method(*m));
    true
}

impl ClassFile {
    /// The class-file bytes of this class, or `None` when some count or
    /// length does not fit its field or the constant pool breaks its layout
    /// rules.
    pub fn to_bytes(&self) -> (r: Option<Vec<u8>>)
        ensures
            r is Some <==> class_fits(*self),
            r matches Some(b) ==> b@ == encode_class(*self),
    {
        if !check_cp(&self.cp) || self.interfaces.len() > 65535 || self.methods.len() > 65535 {
            return None;
        }
        let mut out: Vec<u8> = Vec::new();
        push_u32(&mut out, 0xCAFE_BABE);
        push_u16(&mut out, self.minor);
        push_u16(&mut out, self.major);
        write_cp(&mut out, &self.cp);
        push_u16(&mut out, self.access);
        push_u16(&mut out, self.this_class);
        push_u16(&mut out, self.super_class);
        push_u16(&mut out, self.interfaces.len() as u16);
        let ghost base = out@;
        let mut k: usize = 0;
        while k < self.interfaces.len()
            invariant
                k <= self.interfaces@.len(),
                out@ == base + encode_u16s(self.interfaces@.subrange(0, k as int)),
            decreases self.interfaces@.len() - k,
        {
            push_u16(&mut out, self.interfaces[k]);
            proof {
                assert(self.interfaces@.subrange(0, k + 1).drop_last() =~= self.interfaces@.subrange(
                    0,
                    k as int,
                ));
            }
            k += 1;
        }
        assert(self.interfaces@.subrange(0, self.interfaces@.len() as int) =~= self.interfaces@);
        push_all(&mut out, self.fields.as_slice());
        push_u16(&mut out, self.methods.len() as u16);
        let ghost base2 = out@;
        let mut m: usize = 0;
        while m < self.methods.len()
            invariant
                m <= self.methods@.len(),
                out@ == base2 + encode_methods(self.methods@.subrange(0, m as int)),
                forall|j: int| 0 <= j < m ==> method_fits(#[trigger] self.methods@[j]),
            decreases self.methods@.len() - m,
        {
            if !write_method(&mut out, &self.methods[m]) {
                return None;
            }
            proof {
                assert(self.methods@.subrange(0, m + 1).drop_last() =~= self.methods@.subrange(
                    0,
                    m as int,
                ));
            }
            m += 1;
        }
        assert(self.methods@.subrange(0, self.methods@.len() as int) =~= self.methods@);
        push_all(&mut out, self.attrs.as_slice());
        assert(out@ =~= encode_class(*self));
        Some(out)
    }
}

} // verus!
