//! Descriptions of the color-defining methods and the argument layouts
//! they use.
use crate::bytecode::{
    describe_instr, double_value, float_value, instr_text, to_double_bits, to_float_bits, IxToInt,
};
use crate::classfile::{Const, Instr};
use crate::colors::{push_component, ColorComponents, ComponentsView};
use crate::introspection::{find_utf_ldc, spec_utf_ldc};
use crate::text::{decimal, push_decimal, utf8_lossy};
use crate::types::CompositingMode;
use vstd::prelude::*;

verus! {

/// A method reference: owning class, name, descriptor, and the kind of
/// color definition the descriptor stands for.
pub struct MethodDescription {
    pub class: String,
    pub method: String,
    pub signature: String,
    pub signature_kind: Option<MethodSignatureKind>,
}

impl Clone for MethodDescription {
    fn clone(&self) -> (r: Self)
        ensures
            r.same(*self),
    {
        MethodDescription {
            class: self.class.clone(),
            method: self.method.clone(),
            signature: self.signature.clone(),
            signature_kind: self.signature_kind,
        }
    }
}

impl MethodDescription {
    /// Equality of all four parts.
    pub open spec fn same(self, other: MethodDescription) -> bool {
        &&& self.class@ == other.class@
        &&& self.method@ == other.method@
        &&& self.signature@ == other.signature@
        &&& self.signature_kind == other.signature_kind
    }
}

impl PartialEq for MethodDescription {
    fn eq(&self, other: &Self) -> (r: bool) {
        self.class == other.class && self.method == other.method && self.signature
            == other.signature && self.signature_kind == other.signature_kind
    }
}

impl vstd::std_specs::cmp::PartialEqSpecImpl for MethodDescription {
    open spec fn obeys_eq_spec() -> bool {
        true
    }

    open spec fn eq_spec(&self, other: &MethodDescription) -> bool {
        self.same(*other)
    }
}

/// The argument layout of a color-defining method. `S` stands for the
/// color name, `i` for an int, `f` for a float, `R` for a reference to
/// another color and the second `S` of `SSfff` for a name of another color.
#[derive(PartialEq, Eq, Structural, Clone, Copy, Debug)]
pub enum MethodSignatureKind {
    Si,
    Siii,
    Siiii,
    Sfff,
    SRfff,
    SSfff,
    Ffff,
    Dddd,
}

impl MethodSignatureKind {
    /// Whether the layout starts with a color name.
    pub open spec fn is_named(self) -> bool {
        !(self is Ffff || self is Dddd)
    }

    /// How many instructions before the invocation the color name is loaded.
    pub open spec fn spec_color_name_ix_offset(self) -> usize {
        match self {
            MethodSignatureKind::Si => 2,
            MethodSignatureKind::Siii => 4,
            MethodSignatureKind::Siiii => 5,
            MethodSignatureKind::Sfff => 4,
            MethodSignatureKind::SRfff => 6,
            MethodSignatureKind::SSfff => 5,
            _ => 0,
        }
    }

    /// The components of the color definition whose invocation is
    /// instruction `idx` of `bytecode`, read from the constant-pushing
    /// instructions before it. An operand that is not a constant of the
    /// expected type is reported as `UnexpectedInstruction`.
    pub fn extract_color_components(&self, idx: usize, bytecode: &Vec<(u32, Instr)>, cp: &Vec<Const>) -> (r:
        Result<ColorComponents, ColorExtractionError>)
        ensures
            result_view(r) == spec_extract(*self, idx, bytecode@, cp@),
    {
        proof {
            reveal_with_fuel(ints_before, 5);
            reveal_with_fuel(doubles_before, 5);
        }
        match self {
            MethodSignatureKind::Si => {
                let v = int_operand(bytecode, idx, 1)?;
                Ok(ColorComponents::Grayscale(v))
            },
            MethodSignatureKind::Siii => {
                let r = int_operand(bytecode, idx, 3)?;
                let g = int_operand(bytecode, idx, 2)?;
                let b = int_operand(bytecode, idx, 1)?;
                Ok(ColorComponents::Rgbi(r, g, b))
            },
            MethodSignatureKind::Siiii => {
                let r = int_operand(bytecode, idx, 4)?;
                let g = int_operand(bytecode, idx, 3)?;
                let b = int_operand(bytecode, idx, 2)?;
                let a = int_operand(bytecode, idx, 1)?;
                Ok(ColorComponents::Rgbai(r, g, b, a))
            },
            MethodSignatureKind::Sfff => {
                let (h, s, v) = hsv_operands(bytecode, cp, idx)?;
                Ok(ColorComponents::DeltaHsvf(h, s, v))
            },
            MethodSignatureKind::SRfff => Err(
                ColorExtractionError::NotImplemented {
                    feature: String::from_str("SRfff color reference extraction"),
                    signature_kind: String::from_str("SRfff"),
                    context: String::from_str("Reference-based HSV with color object parameter"),
                },
            ),
            MethodSignatureKind::SSfff => {
                let instr = fetch_instr(bytecode, idx, 4)?;
                match instr {
                    Instr::Ldc(ind) => {
                        let text = find_utf_ldc(cp, *ind as u16);
                        let (h, s, v) = hsv_operands(bytecode, cp, idx)?;
                        match text {
                            Some(color_name) => Ok(ColorComponents::StringAndAdjust(color_name, h, s, v)),
                            None => Err(
                                ColorExtractionError::StringResolutionFailed {
                                    ldc_index: *ind as u16,
                                    instruction: describe_instr(instr),
                                },
                            ),
                        }
                    },
                    Instr::Aload(_) => {
                        let (h, s, v) = hsv_operands(bytecode, cp, idx)?;
                        let mut name = String::from_str("Parameter_");
                        name.append(describe_instr(instr).as_str());
                        name.append("_at_idx_");
                        push_decimal(&mut name, idx);
                        Ok(ColorComponents::StringAndAdjust(name, h, s, v))
                    },
                    Instr::Invokevirtual(_) => {
                        let (h, s, v) = hsv_operands(bytecode, cp, idx)?;
                        let mut name = String::from_str("MethodResult_at_idx_");
                        push_decimal(&mut name, idx);
                        Ok(ColorComponents::StringAndAdjust(name, h, s, v))
                    },
                    _ => Err(
                        unexpected_error(
                            "Ldc, Aload, or Invokevirtual instruction for string value",
                            instr,
                            4,
                            idx,
                        ),
                    ),
                }
            },
            MethodSignatureKind::Ffff => {
                let r = float_operand(bytecode, cp, idx, 4)?;
                let (g, b, a) = hsv_operands(bytecode, cp, idx)?;
                Ok(ColorComponents::Rgbaf(r, g, b, a))
            },
            MethodSignatureKind::Dddd => {
                let r = double_operand(bytecode, cp, idx, 4)?;
                let g = double_operand(bytecode, cp, idx, 3)?;
                let b = double_operand(bytecode, cp, idx, 2)?;
                let a = double_operand(bytecode, cp, idx, 1)?;
                Ok(ColorComponents::Rgbad(r, g, b, a))
            },
        }
    }

    /// How many instructions before the invocation the color name is
    /// loaded; only layouts that start with a name have one.
    pub fn color_name_ix_offset(&self) -> (r: usize)
        requires
            self.is_named(),
        ensures
            r == self.spec_color_name_ix_offset(),
    {
        match self {
            MethodSignatureKind::Si => 2,
            MethodSignatureKind::Siii => 4,
            MethodSignatureKind::Siiii => 5,
            MethodSignatureKind::Sfff => 4,
            MethodSignatureKind::SRfff => 6,
            MethodSignatureKind::SSfff => 5,
            _ => 0,
        }
    }
}

/// Why the components of a color definition could not be read.
pub enum ColorExtractionError {
    BytecodeOutOfBounds { requested_offset: usize, idx: usize, bytecode_len: usize },
    UnexpectedInstruction { expected: String, found: String, offset: usize, idx: usize },
    StringResolutionFailed { ldc_index: u16, instruction: String },
    NotImplemented { feature: String, signature_kind: String, context: String },
}

/// The content of a `ColorExtractionError`.
pub enum ExtractionErrorView {
    BytecodeOutOfBounds { requested_offset: usize, idx: usize, bytecode_len: usize },
    UnexpectedInstruction { expected: Seq<char>, found: Seq<char>, offset: usize, idx: usize },
    StringResolutionFailed { ldc_index: u16, instruction: Seq<char> },
    NotImplemented { feature: Seq<char>, signature_kind: Seq<char>, context: Seq<char> },
}

impl View for ColorExtractionError {
    type V = ExtractionErrorView;

    open spec fn view(&self) -> ExtractionErrorView {
        match *self {
            ColorExtractionError::BytecodeOutOfBounds { requested_offset, idx, bytecode_len } =>
                ExtractionErrorView::BytecodeOutOfBounds { requested_offset, idx, bytecode_len },
            ColorExtractionError::UnexpectedInstruction { expected, found, offset, idx } =>
                ExtractionErrorView::UnexpectedInstruction {
                expected: expected@,
                found: found@,
                offset,
                idx,
            },
            ColorExtractionError::StringResolutionFailed { ldc_index, instruction } =>
                ExtractionErrorView::StringResolutionFailed { ldc_index, instruction: instruction@ },
            ColorExtractionError::NotImplemented { feature, signature_kind, context } =>
                ExtractionErrorView::NotImplemented {
                feature: feature@,
                signature_kind: signature_kind@,
                context: context@,
            },
        }
    }
}

/// The description of an extraction error.
pub open spec fn error_message(e: ExtractionErrorView) -> Seq<char> {
    match e {
        ExtractionErrorView::BytecodeOutOfBounds { requested_offset, idx, bytecode_len } =>
            "Bytecode out of bounds: tried to access offset "@ + decimal(requested_offset as nat)
            + " from index "@ + decimal(idx as nat) + " (bytecode length: "@ + decimal(bytecode_len as nat) + ")"@,
        ExtractionErrorView::UnexpectedInstruction { expected, found, offset, idx } =>
            "Unexpected instruction at offset "@ + decimal(offset as nat) + " from index "@ + decimal(idx as nat)
            + ": expected "@ + expected + ", found "@ + found,
        ExtractionErrorView::StringResolutionFailed { ldc_index, instruction } =>
            "Failed to resolve string from LDC instruction "@ + instruction + " with index "@ + decimal(
            ldc_index as nat,
        ),
        ExtractionErrorView::NotImplemented { feature, signature_kind, context } =>
            "Feature '"@ + feature + "' not implemented for signature kind "@ + signature_kind + " in context: "@
            + context,
    }
}

impl ColorExtractionError {
    /// A human readable description.
    pub fn message(&self) -> (s: String)
        ensures
            s@ == error_message(self@),
    {
        let mut s = String::new();
        match self {
            ColorExtractionError::BytecodeOutOfBounds { requested_offset, idx, bytecode_len } => {
                s.append("Bytecode out of bounds: tried to access offset ");
                push_decimal(&mut s, *requested_offset);
                s.append(" from index ");
                push_decimal(&mut s, *idx);
                s.append(" (bytecode length: ");
                push_decimal(&mut s, *bytecode_len);
                s.append(")");
            },
            ColorExtractionError::UnexpectedInstruction { expected, found, offset, idx } => {
                s.append("Unexpected instruction at offset ");
                push_decimal(&mut s, *offset);
                s.append(" from index ");
                push_decimal(&mut s, *idx);
                s.append(": expected ");
                s.append(expected.as_str());
                s.append(", found ");
                s.append(found.as_str());
            },
            ColorExtractionError::StringResolutionFailed { ldc_index, instruction } => {
                s.append("Failed to resolve string from LDC instruction ");
                s.append(instruction.as_str());
                s.append(" with index ");
                push_decimal(&mut s, *ldc_index as usize);
            },
            ColorExtractionError::NotImplemented { feature, signature_kind, context } => {
                s.append("Feature '");
                s.append(feature.as_str());
                s.append("' not implemented for signature kind ");
                s.append(signature_kind.as_str());
                s.append(" in context: ");
                s.append(context.as_str());
            },
        }
        s
    }
}

pub open spec fn result_view<T: View, E: View>(r: Result<T, E>) -> Result<T::V, E::V> {
    match r {
        Ok(t) => Ok(t@),
        Err(e) => Err(e@),
    }
}

/// The instruction `offset` positions before `idx`.
pub open spec fn fetch(bc: Seq<(u32, Instr)>, idx: usize, offset: usize) -> Result<Instr, ExtractionErrorView> {
    if idx < offset || idx - offset >= bc.len() {
        Err(
            ExtractionErrorView::BytecodeOutOfBounds {
                requested_offset: offset,
                idx,
                bytecode_len: bc.len() as usize,
            },
        )
    } else {
        Ok(bc[idx - offset].1)
    }
}

pub open spec fn unexpected(expected: Seq<char>, i: Instr, offset: usize, idx: usize) -> ExtractionErrorView {
    ExtractionErrorView::UnexpectedInstruction { expected, found: instr_text(i), offset, idx }
}

/// The integer pushed `offset` instructions before `idx`.
pub open spec fn int_at(bc: Seq<(u32, Instr)>, idx: usize, offset: usize) -> Result<u8, ExtractionErrorView> {
    match fetch(bc, idx, offset) {
        Ok(i) => match i.int_value() {
            Some(v) => Ok(v),
            None => Err(unexpected("integer constant"@, i, offset, idx)),
        },
        Err(e) => Err(e),
    }
}

/// The float bits pushed `offset` instructions before `idx`.
pub open spec fn float_at(bc: Seq<(u32, Instr)>, cp: Seq<Const>, idx: usize, offset: usize) -> Result<
    u32,
    ExtractionErrorView,
> {
    match fetch(bc, idx, offset) {
        Ok(i) => match float_value(i, cp) {
            Some(v) => Ok(v),
            None => Err(unexpected("float constant"@, i, offset, idx)),
        },
        Err(e) => Err(e),
    }
}

/// The double bits pushed `offset` instructions before `idx`.
pub open spec fn double_at(bc: Seq<(u32, Instr)>, cp: Seq<Const>, idx: usize, offset: usize) -> Result<
    u64,
    ExtractionErrorView,
> {
    match fetch(bc, idx, offset) {
        Ok(i) => match double_value(i, cp) {
            Some(v) => Ok(v),
            None => Err(unexpected("double constant"@, i, offset, idx)),
        },
        Err(e) => Err(e),
    }
}

/// Three floats at offsets 3, 2 and 1, read in that order.
pub open spec fn hsv_at(bc: Seq<(u32, Instr)>, cp: Seq<Const>, idx: usize) -> Result<
    (u32, u32, u32),
    ExtractionErrorView,
> {
    match float_at(bc, cp, idx, 3) {
        Err(e) => Err(e),
        Ok(h) => match float_at(bc, cp, idx, 2) {
            Err(e) => Err(e),
            Ok(s) => match float_at(bc, cp, idx, 1) {
                Err(e) => Err(e),
                Ok(v) => Ok((h, s, v)),
            },
        },
    }
}

pub open spec fn name_and_hsv(name: Seq<char>, hsv: Result<(u32, u32, u32), ExtractionErrorView>) -> Result<
    ComponentsView,
    ExtractionErrorView,
> {
    match hsv {
        Err(e) => Err(e),
        Ok((h, s, v)) => Ok(ComponentsView::StringAndAdjust(name, h, s, v)),
    }
}

/// Name given to a color whose name comes from a local variable.
pub open spec fn parameter_placeholder(i: Instr, idx: usize) -> Seq<char> {
    "Parameter_"@ + instr_text(i) + "_at_idx_"@ + decimal(idx as nat)
}

/// Name given to a color whose name is the result of a method call.
pub open spec fn method_result_placeholder(idx: usize) -> Seq<char> {
    "MethodResult_at_idx_"@ + decimal(idx as nat)
}

/// The integers pushed by the `n` instructions before `idx`, farthest
/// first; the farthest one that is not an integer push gives the error.
pub open spec fn ints_before(bc: Seq<(u32, Instr)>, idx: usize, n: nat) -> Result<Seq<u8>, ExtractionErrorView>
    decreases n,
{
    if n == 0 {
        Ok(seq![])
    } else {
        match int_at(bc, idx, n as usize) {
            Err(e) => Err(e),
            Ok(x) => match ints_before(bc, idx, (n - 1) as nat) {
                Err(e) => Err(e),
                Ok(rest) => Ok(seq![x] + rest),
            },
        }
    }
}

/// The double bits pushed by the `n` instructions before `idx`, farthest
/// first; the farthest one that is not a double push gives the error.
pub open spec fn doubles_before(bc: Seq<(u32, Instr)>, cp: Seq<Const>, idx: usize, n: nat) -> Result<
    Seq<u64>,
    ExtractionErrorView,
>
    decreases n,
{
    if n == 0 {
        Ok(seq![])
    } else {
        match double_at(bc, cp, idx, n as usize) {
            Err(e) => Err(e),
            Ok(x) => match doubles_before(bc, cp, idx, (n - 1) as nat) {
                Err(e) => Err(e),
                Ok(rest) => Ok(seq![x] + rest),
            },
        }
    }
}

/// Four integer pushes before `idx` read as their four values.
pub proof fn lemma_four_ints(bc: Seq<(u32, Instr)>, idx: usize, a: u8, b: u8, c: u8, d: u8)
    requires
        int_at(bc, idx, 4) == Ok::<u8, ExtractionErrorView>(a),
        int_at(bc, idx, 3) == Ok::<u8, ExtractionErrorView>(b),
        int_at(bc, idx, 2) == Ok::<u8, ExtractionErrorView>(c),
        int_at(bc, idx, 1) == Ok::<u8, ExtractionErrorView>(d),
    ensures
        ints_before(bc, idx, 4) == Ok::<Seq<u8>, ExtractionErrorView>(seq![a, b, c, d]),
{
    assert(ints_before(bc, idx, 0) == Ok::<Seq<u8>, ExtractionErrorView>(seq![]));
    assert(ints_before(bc, idx, 1) == Ok::<Seq<u8>, ExtractionErrorView>(seq![d])) by {
        assert(seq![d] + Seq::<u8>::empty() =~= seq![d]);
    }
    assert(ints_before(bc, idx, 2) == Ok::<Seq<u8>, ExtractionErrorView>(seq![c, d])) by {
        assert(seq![c] + seq![d] =~= seq![c, d]);
    }
    assert(ints_before(bc, idx, 3) == Ok::<Seq<u8>, ExtractionErrorView>(seq![b, c, d])) by {
        assert(seq![b] + seq![c, d] =~= seq![b, c, d]);
    }
    assert(seq![a] + seq![b, c, d] =~= seq![a, b, c, d]);
}

/// The components of the color definition invoked at `idx`, read from the
/// instructions before it according to the argument layout `kind`.
pub open spec fn spec_extract(
    kind: MethodSignatureKind,
    idx: usize,
    bc: Seq<(u32, Instr)>,
    cp: Seq<Const>,
) -> Result<ComponentsView, ExtractionErrorView> {
    match kind {
        MethodSignatureKind::Si => match ints_before(bc, idx, 1) {
            Err(e) => Err(e),
            Ok(v) => Ok(ComponentsView::Grayscale(v[0])),
        },
        MethodSignatureKind::Siii => match ints_before(bc, idx, 3) {
            Err(e) => Err(e),
            Ok(v) => Ok(ComponentsView::Rgbi(v[0], v[1], v[2])),
        },
        MethodSignatureKind::Siiii => match ints_before(bc, idx, 4) {
            Err(e) => Err(e),
            Ok(v) => Ok(ComponentsView::Rgbai(v[0], v[1], v[2], v[3])),
        },
        MethodSignatureKind::Sfff => match hsv_at(bc, cp, idx) {
            Err(e) => Err(e),
            Ok((h, s, v)) => Ok(ComponentsView::DeltaHsvf(h, s, v)),
        },
        MethodSignatureKind::SRfff => Err(
            ExtractionErrorView::NotImplemented {
                feature: "SRfff color reference extraction"@,
                signature_kind: "SRfff"@,
                context: "Reference-based HSV with color object parameter"@,
            },
        ),
        MethodSignatureKind::SSfff => match fetch(bc, idx, 4) {
            Err(e) => Err(e),
            Ok(i) => match i {
                Instr::Ldc(ind) => match hsv_at(bc, cp, idx) {
                    Err(e) => Err(e),
                    Ok((h, s, v)) => match spec_utf_ldc(cp, ind as u16) {
                        Some(text) => Ok(ComponentsView::StringAndAdjust(utf8_lossy(text), h, s, v)),
                        None => Err(
                            ExtractionErrorView::StringResolutionFailed {
                                ldc_index: ind as u16,
                                instruction: instr_text(i),
                            },
                        ),
                    },
                },
                Instr::Aload(_) => name_and_hsv(parameter_placeholder(i, idx), hsv_at(bc, cp, idx)),
                Instr::Invokevirtual(_) => name_and_hsv(method_result_placeholder(idx), hsv_at(bc, cp, idx)),
                _ => Err(
                    unexpected(
                        "Ldc, Aload, or Invokevirtual instruction for string value"@,
                        i,
                        4,
                        idx,
                    ),
                ),
            },
        },
        MethodSignatureKind::Ffff => match float_at(bc, cp, idx, 4) {
            Err(e) => Err(e),
            Ok(r) => match hsv_at(bc, cp, idx) {
                Err(e) => Err(e),
                Ok((g, b, a)) => Ok(ComponentsView::Rgbaf(r, g, b, a)),
            },
        },
        MethodSignatureKind::Dddd => match doubles_before(bc, cp, idx, 4) {
            Err(e) => Err(e),
            Ok(v) => Ok(ComponentsView::Rgbad(v[0], v[1], v[2], v[3])),
        },
    }
}

fn fetch_instr(bc: &Vec<(u32, Instr)>, idx: usize, offset: usize) -> (r: Result<&Instr, ColorExtractionError>)
    ensures
        match (r, fetch(bc@, idx, offset)) {
            (Ok(i), Ok(j)) => *i == j,
            (Err(e), Err(f)) => e@ == f,
            _ => false,
        },
{
    if idx < offset || idx - offset >= bc.len() {
        return Err(
            ColorExtractionError::BytecodeOutOfBounds {
                requested_offset: offset,
                idx,
                bytecode_len: bc.len(),
            },
        );
    }
    Ok(&bc[idx - offset].1)
}

fn unexpected_error(expected: &str, i: &Instr, offset: usize, idx: usize) -> (e: ColorExtractionError)
    ensures
        e@ == unexpected(expected@, *i, offset, idx),
{
    ColorExtractionError::UnexpectedInstruction {
        expected: String::from_str(expected),
        found: describe_instr(i),
        offset,
        idx,
    }
}

fn int_operand(bc: &Vec<(u32, Instr)>, idx: usize, offset: usize) -> (r: Result<u8, ColorExtractionError>)
    ensures
        match (r, int_at(bc@, idx, offset)) {
            (Ok(v), Ok(w)) => v == w,
            (Err(e), Err(f)) => e@ == f,
            _ => false,
        },
{
    let i = fetch_instr(bc, idx, offset)?;
    match i {
        Instr::Iconst(_) | Instr::Lconst(_) | Instr::Bipush(_) | Instr::Sipush(_) => Ok(i.to_int()),
        _ => Err(unexpected_error("integer constant", i, offset, idx)),
    }
}

fn float_operand(bc: &Vec<(u32, Instr)>, cp: &Vec<Const>, idx: usize, offset: usize) -> (r: Result<
    u32,
    ColorExtractionError,
>)
    ensures
        match (r, float_at(bc@, cp@, idx, offset)) {
            (Ok(v), Ok(w)) => v == w,
            (Err(e), Err(f)) => e@ == f,
            _ => false,
        },
{
    let i = fetch_instr(bc, idx, offset)?;
    match to_float_bits(i, cp) {
        Some(v) => Ok(v),
        None => Err(unexpected_error("float constant", i, offset, idx)),
    }
}

fn double_operand(bc: &Vec<(u32, Instr)>, cp: &Vec<Const>, idx: usize, offset: usize) -> (r: Result<
    u64,
    ColorExtractionError,
>)
    ensures
        match (r, double_at(bc@, cp@, idx, offset)) {
            (Ok(v), Ok(w)) => v == w,
            (Err(e), Err(f)) => e@ == f,
            _ => false,
        },
{
    let i = fetch_instr(bc, idx, offset)?;
    match to_double_bits(i, cp) {
        Some(v) => Ok(v),
        None => Err(unexpected_error("double constant", i, offset, idx)),
    }
}

fn hsv_operands(bc: &Vec<(u32, Instr)>, cp: &Vec<Const>, idx: usize) -> (r: Result<
    (u32, u32, u32),
    ColorExtractionError,
>)
    ensures
        match (r, hsv_at(bc@, cp@, idx)) {
            (Ok(v), Ok(w)) => v == w,
            (Err(e), Err(f)) => e@ == f,
            _ => false,
        },
{
    let h = float_operand(bc, cp, idx, 3)?;
    let s = float_operand(bc, cp, idx, 2)?;
    let v = float_operand(bc, cp, idx, 1)?;
    Ok((h, s, v))
}

/// The palette's color-defining methods.
pub struct PaletteColorMethods {
    pub grayscale_i: MethodDescription,
    pub rgb_i: MethodDescription,
    pub rgba_i_absolute: MethodDescription,
    pub rgba_i_blended_on_background: MethodDescription,
    /// h in -360..360, s in 0..1, v in -1..1
    pub hsv_f_relative_to_background: MethodDescription,
    pub ref_hsv_f: MethodDescription,
    pub name_hsv_f: MethodDescription,
}

impl PaletteColorMethods {
    /// The methods with the compositing mode of the colors they define, in
    /// the order of the fields.
    pub open spec fn spec_all(self) -> Seq<(MethodDescription, CompositingMode)> {
        seq![
            (self.grayscale_i, CompositingMode::Absolute),
            (self.rgb_i, CompositingMode::Absolute),
            (self.rgba_i_absolute, CompositingMode::Absolute),
            (self.rgba_i_blended_on_background, CompositingMode::BlendedOnBackground),
            (self.hsv_f_relative_to_background, CompositingMode::RelativeToBackground),
            (self.ref_hsv_f, CompositingMode::Absolute),
            (self.name_hsv_f, CompositingMode::Absolute),
        ]
    }

    pub fn all(&self) -> (r: Vec<(&MethodDescription, CompositingMode)>)
        ensures
            r@.len() == 7,
            forall|i: int| 0 <= i < 7 ==> *(#[trigger] r@[i]).0 == self.spec_all()[i].0 && r@[i].1
                == self.spec_all()[i].1,
    {
        let r = vec![
            (&self.grayscale_i, CompositingMode::Absolute),
            (&self.rgb_i, CompositingMode::Absolute),
            (&self.rgba_i_absolute, CompositingMode::Absolute),
            (&self.rgba_i_blended_on_background, CompositingMode::BlendedOnBackground),
            (&self.hsv_f_relative_to_background, CompositingMode::RelativeToBackground),
            (&self.ref_hsv_f, CompositingMode::Absolute),
            (&self.name_hsv_f, CompositingMode::Absolute),
        ];
        r
    }

    /// The method that defines colors with these components.
    pub open spec fn spec_from_components(self, comps: ColorComponents) -> MethodDescription {
        match comps {
            ColorComponents::Grayscale(_) => self.grayscale_i,
            ColorComponents::Rgbi(_, _, _) => self.rgb_i,
            ColorComponents::Rgbai(_, _, _, _) => self.rgba_i_absolute,
            ColorComponents::DeltaHsvf(_, _, _) => self.hsv_f_relative_to_background,
            ColorComponents::RefAndAdjust(_, _, _, _) => self.ref_hsv_f,
            ColorComponents::StringAndAdjust(_, _, _, _) => self.name_hsv_f,
            _ => self.grayscale_i,
        }
    }

    /// The method that defines colors with these components; raw float
    /// colors are not defined by a palette method.
    pub fn from_components(&self, comps: &ColorComponents) -> (r: &MethodDescription)
        requires
            !(comps is Rgbaf || comps is Rgbad),
        ensures
            *r == self.spec_from_components(*comps),
    {
        match comps {
            ColorComponents::Grayscale(_) => &self.grayscale_i,
            ColorComponents::Rgbi(_, _, _) => &self.rgb_i,
            ColorComponents::Rgbai(_, _, _, _) => &self.rgba_i_absolute,
            ColorComponents::DeltaHsvf(_, _, _) => &self.hsv_f_relative_to_background,
            ColorComponents::RefAndAdjust(_, _, _, _) => &self.ref_hsv_f,
            ColorComponents::StringAndAdjust(_, _, _, _) => &self.name_hsv_f,
            _ => &self.grayscale_i,
        }
    }
}

/// Constructors of the raw color class.
pub struct RawColorMethods {
    pub rgba_f: MethodDescription,
    pub rgba_d: MethodDescription,
}

impl RawColorMethods {
    pub fn all(&self) -> (r: Vec<&MethodDescription>)
        ensures
            r@.len() == 2,
            *r@[0] == self.rgba_f,
            *r@[1] == self.rgba_d,
    {
        vec![&self.rgba_f, &self.rgba_d]
    }
}

/// A grayscale (`Si`) definition reads its value from the integer pushed
/// right before the invocation.
pub proof fn lemma_extract_grayscale(bc: Seq<(u32, Instr)>, cp: Seq<Const>, idx: usize, v: u8)
    requires
        1 <= idx <= bc.len(),
        bc[idx - 1].1.int_value() == Some(v),
    ensures
        spec_extract(MethodSignatureKind::Si, idx, bc, cp) == Ok::<ComponentsView, ExtractionErrorView>(
            ComponentsView::Grayscale(v),
        ),
{
    reveal_with_fuel(ints_before, 2);
    assert((seq![v] + Seq::<u8>::empty())[0] == v);
}

/// An rgb (`Siii`) definition reads red, green and blue from the integers
/// pushed 3, 2 and 1 instructions before the invocation: red is the first
/// argument, the farthest push.
pub proof fn lemma_extract_rgb(bc: Seq<(u32, Instr)>, cp: Seq<Const>, idx: usize, r: u8, g: u8, b: u8)
    requires
        3 <= idx <= bc.len(),
        bc[idx - 3].1.int_value() == Some(r),
        bc[idx - 2].1.int_value() == Some(g),
        bc[idx - 1].1.int_value() == Some(b),
    ensures
        spec_extract(MethodSignatureKind::Siii, idx, bc, cp) == Ok::<ComponentsView, ExtractionErrorView>(
            ComponentsView::Rgbi(r, g, b),
        ),
{
    reveal_with_fuel(ints_before, 4);
}

/// An rgba (`Siiii`) definition reads red, green, blue and alpha from the
/// integers pushed 4, 3, 2 and 1 instructions before the invocation.
pub proof fn lemma_extract_rgba(bc: Seq<(u32, Instr)>, cp: Seq<Const>, idx: usize, r: u8, g: u8, b: u8, a: u8)
    requires
        4 <= idx <= bc.len(),
        bc[idx - 4].1.int_value() == Some(r),
        bc[idx - 3].1.int_value() == Some(g),
        bc[idx - 2].1.int_value() == Some(b),
        bc[idx - 1].1.int_value() == Some(a),
    ensures
        spec_extract(MethodSignatureKind::Siiii, idx, bc, cp) == Ok::<ComponentsView, ExtractionErrorView>(
            ComponentsView::Rgbai(r, g, b, a),
        ),
{
    reveal_with_fuel(ints_before, 5);
}

/// A double raw color (`Dddd`) constructor call reads red, green, blue and
/// alpha from the doubles pushed 4, 3, 2 and 1 instructions before the
/// invocation: red is the first argument, the farthest push.
pub proof fn lemma_extract_doubles(
    bc: Seq<(u32, Instr)>,
    cp: Seq<Const>,
    idx: usize,
    r: u64,
    g: u64,
    b: u64,
    a: u64,
)
    requires
        4 <= idx <= bc.len(),
        double_value(bc[idx - 4].1, cp) == Some(r),
        double_value(bc[idx - 3].1, cp) == Some(g),
        double_value(bc[idx - 2].1, cp) == Some(b),
        double_value(bc[idx - 1].1, cp) == Some(a),
    ensures
        spec_extract(MethodSignatureKind::Dddd, idx, bc, cp) == Ok::<ComponentsView, ExtractionErrorView>(
            ComponentsView::Rgbad(r, g, b, a),
        ),
{
    reveal_with_fuel(doubles_before, 5);
}

/// A float raw color (`Ffff`) constructor call reads red, green, blue and
/// alpha from the floats pushed 4, 3, 2 and 1 instructions before the
/// invocation.
pub proof fn lemma_extract_floats(
    bc: Seq<(u32, Instr)>,
    cp: Seq<Const>,
    idx: usize,
    r: u32,
    g: u32,
    b: u32,
    a: u32,
)
    requires
        4 <= idx <= bc.len(),
        float_value(bc[idx - 4].1, cp) == Some(r),
        float_value(bc[idx - 3].1, cp) == Some(g),
        float_value(bc[idx - 2].1, cp) == Some(b),
        float_value(bc[idx - 1].1, cp) == Some(a),
    ensures
        spec_extract(MethodSignatureKind::Ffff, idx, bc, cp) == Ok::<ComponentsView, ExtractionErrorView>(
            ComponentsView::Rgbaf(r, g, b, a),
        ),
{
}

/// An hsv adjustment (`Sfff`) reads hue, saturation and value from the
/// floats pushed 3, 2 and 1 instructions before the invocation.
pub proof fn lemma_extract_hsv(bc: Seq<(u32, Instr)>, cp: Seq<Const>, idx: usize, h: u32, s: u32, v: u32)
    requires
        3 <= idx <= bc.len(),
        float_value(bc[idx - 3].1, cp) == Some(h),
        float_value(bc[idx - 2].1, cp) == Some(s),
        float_value(bc[idx - 1].1, cp) == Some(v),
    ensures
        spec_extract(MethodSignatureKind::Sfff, idx, bc, cp) == Ok::<ComponentsView, ExtractionErrorView>(
            ComponentsView::DeltaHsvf(h, s, v),
        ),
{
}

/// Components written as pushes read back: the rgb definition made of
/// `push_component` of red, green and blue before the invocation gives
/// those components, in that order.
pub proof fn lemma_rgb_pushes_read_back(bc: Seq<(u32, Instr)>, cp: Seq<Const>, idx: usize, r: u8, g: u8, b: u8)
    requires
        3 <= idx <= bc.len(),
        bc[idx - 3].1 == push_component(r),
        bc[idx - 2].1 == push_component(g),
        bc[idx - 1].1 == push_component(b),
    ensures
        spec_extract(MethodSignatureKind::Siii, idx, bc, cp) == Ok::<ComponentsView, ExtractionErrorView>(
            ComponentsView::Rgbi(r, g, b),
        ),
{
    crate::recolor::lemma_push_component_value(r);
    crate::recolor::lemma_push_component_value(g);
    crate::recolor::lemma_push_component_value(b);
    lemma_extract_rgb(bc, cp, idx, r, g, b);
}

} // verus!
