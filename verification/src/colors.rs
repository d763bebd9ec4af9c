//! Colors as they are written in bytecode.
use crate::classfile::Instr;
use crate::types::CompositingMode;
use vstd::prelude::*;

verus! {

/// The arguments of a color definition. Floating point components are kept
/// as their IEEE-754 bit patterns (`u32` for `f32`, `u64` for `f64`).
pub enum ColorComponents {
    Grayscale(u8),
    Rgbi(u8, u8, u8),
    Rgbai(u8, u8, u8, u8),
    DeltaHsvf(u32, u32, u32),
    Rgbaf(u32, u32, u32, u32),
    Rgbad(u64, u64, u64, u64),
    RefAndAdjust(String, u32, u32, u32),
    StringAndAdjust(String, u32, u32, u32),
}

/// The mathematical content of `ColorComponents`.
pub enum ComponentsView {
    Grayscale(u8),
    Rgbi(u8, u8, u8),
    Rgbai(u8, u8, u8, u8),
    DeltaHsvf(u32, u32, u32),
    Rgbaf(u32, u32, u32, u32),
    Rgbad(u64, u64, u64, u64),
    RefAndAdjust(Seq<char>, u32, u32, u32),
    StringAndAdjust(Seq<char>, u32, u32, u32),
}

impl View for ColorComponents {
    type V = ComponentsView;

    open spec fn view(&self) -> ComponentsView {
        match *self {
            ColorComponents::Grayscale(v) => ComponentsView::Grayscale(v),
            ColorComponents::Rgbi(r, g, b) => ComponentsView::Rgbi(r, g, b),
            ColorComponents::Rgbai(r, g, b, a) => ComponentsView::Rgbai(r, g, b, a),
            ColorComponents::DeltaHsvf(h, s, v) => ComponentsView::DeltaHsvf(h, s, v),
            ColorComponents::Rgbaf(r, g, b, a) => ComponentsView::Rgbaf(r, g, b, a),
            ColorComponents::Rgbad(r, g, b, a) => ComponentsView::Rgbad(r, g, b, a),
            ColorComponents::RefAndAdjust(n, h, s, v) => ComponentsView::RefAndAdjust(n@, h, s, v),
            ColorComponents::StringAndAdjust(n, h, s, v) => ComponentsView::StringAndAdjust(n@, h, s, v),
        }
    }
}

impl Clone for ColorComponents {
    fn clone(&self) -> (r: Self)
        ensures
            r@ == self@,
    {
        match self {
            ColorComponents::Grayscale(v) => ColorComponents::Grayscale(*v),
            ColorComponents::Rgbi(r, g, b) => ColorComponents::Rgbi(*r, *g, *b),
            ColorComponents::Rgbai(r, g, b, a) => ColorComponents::Rgbai(*r, *g, *b, *a),
            ColorComponents::DeltaHsvf(h, s, v) => ColorComponents::DeltaHsvf(*h, *s, *v),
            ColorComponents::Rgbaf(r, g, b, a) => ColorComponents::Rgbaf(*r, *g, *b, *a),
            ColorComponents::Rgbad(r, g, b, a) => ColorComponents::Rgbad(*r, *g, *b, *a),
            ColorComponents::RefAndAdjust(n, h, s, v) => ColorComponents::RefAndAdjust(n.clone(), *h, *s, *v),
            ColorComponents::StringAndAdjust(n, h, s, v) => ColorComponents::StringAndAdjust(
                n.clone(),
                *h,
                *s,
                *v,
            ),
        }
    }
}

/// A float constant (bit pattern) that new bytecode loads with `ldc`.
pub struct FloatToAddToConstantPool {
    pub float: u32,
}

/// A named palette color found in a class.
pub struct NamedColor {
    pub class_name: String,
    pub method_idx: usize,
    pub color_name: String,
    pub components: ColorComponents,
    pub compositing_mode: CompositingMode,
}

/// A static color constant of the raw color class.
pub struct RawColorConst {
    pub class_name: String,
    pub const_name: String,
    pub color_comps: ColorComponents,
}

pub struct RawColorConstants {
    pub consts: Vec<RawColorConst>,
}

/// The content of a `NamedColor`.
pub struct NamedColorView {
    pub class_name: Seq<char>,
    pub method_idx: usize,
    pub color_name: Seq<char>,
    pub components: ComponentsView,
    pub compositing_mode: CompositingMode,
}

impl View for NamedColor {
    type V = NamedColorView;

    open spec fn view(&self) -> NamedColorView {
        NamedColorView {
            class_name: self.class_name@,
            method_idx: self.method_idx,
            color_name: self.color_name@,
            components: self.components@,
            compositing_mode: self.compositing_mode,
        }
    }
}

impl Clone for NamedColor {
    fn clone(&self) -> (r: Self)
        ensures
            r@ == self@,
    {
        NamedColor {
            class_name: self.class_name.clone(),
            method_idx: self.method_idx,
            color_name: self.color_name.clone(),
            components: self.components.clone(),
            compositing_mode: self.compositing_mode,
        }
    }
}

/// The content of a `RawColorConst`.
pub struct RawConstView {
    pub class_name: Seq<char>,
    pub const_name: Seq<char>,
    pub color_comps: ComponentsView,
}

impl View for RawColorConst {
    type V = RawConstView;

    open spec fn view(&self) -> RawConstView {
        RawConstView {
            class_name: self.class_name@,
            const_name: self.const_name@,
            color_comps: self.color_comps@,
        }
    }
}

/// The contents of a sequence of named colors.
pub open spec fn named_colors_view(v: Seq<NamedColor>) -> Seq<NamedColorView> {
    v.map_values(|n: NamedColor| n@)
}

/// The contents of a sequence of raw color constants.
pub open spec fn raw_consts_view(v: Seq<RawColorConst>) -> Seq<RawConstView> {
    v.map_values(|c: RawColorConst| c@)
}

/// Instruction pushing the integer component `c`.
pub open spec fn push_component(c: u8) -> Instr {
    if c > 127 {
        Instr::Sipush(c as i16)
    } else {
        Instr::Bipush(c as i8)
    }
}

/// Instruction loading constant `idx`, truncated to the operand width as
/// the `as` conversion does.
pub open spec fn load_constant(idx: int) -> Instr {
    if idx > 255 {
        Instr::LdcW(idx as u16)
    } else {
        Instr::Ldc(idx as u8)
    }
}

impl ColorComponents {
    /// Whether new bytecode can be generated for these components.
    pub open spec fn has_instructions(&self) -> bool {
        self is Rgbai || self is DeltaHsvf
    }

    /// Instructions pushing the components, and for relative colors the
    /// float constants that have to be appended to the constant pool (the
    /// loads refer to them at indices `next_free_cpool_idx`,
    /// `next_free_cpool_idx + 1` and `next_free_cpool_idx + 2`).
    pub fn to_ixs(&self, next_free_cpool_idx: usize) -> (r: (Vec<Instr>, Option<Vec<FloatToAddToConstantPool>>))
        requires
            self.has_instructions(),
            *self is DeltaHsvf ==> next_free_cpool_idx + 2 <= usize::MAX,
        ensures
            match *self {
                ColorComponents::Rgbai(red, g, b, a) => {
                    &&& r.0@ == seq![push_component(red), push_component(g), push_component(b), push_component(a)]
                    &&& r.1 is None
                },
                ColorComponents::DeltaHsvf(h, s, v) => {
                    &&& r.0@ == seq![
                        load_constant(next_free_cpool_idx as int),
                        load_constant(next_free_cpool_idx + 1),
                        load_constant(next_free_cpool_idx + 2),
                    ]
                    &&& r.1 matches Some(fs) && fs@.len() == 3 && fs@[0].float == h && fs@[1].float == s
                        && fs@[2].float == v
                },
                _ => false,
            },
    {
        match self {
            ColorComponents::Rgbai(r, g, b, a) => {
                let mut ixs: Vec<Instr> = Vec::new();
                let comps = [*r, *g, *b, *a];
                let mut k: usize = 0;
                while k < 4
                    invariant
                        k <= 4,
                        comps@ == seq![*r, *g, *b, *a],
                        ixs@.len() == k,
                        forall|j: int| 0 <= j < k ==> ixs@[j] == push_component(#[trigger] comps@[j]),
                    decreases 4 - k,
                {
                    let comp = comps[k];
                    if comp > 127 {
                        ixs.push(Instr::Sipush(comp as i16));
                    } else {
                        ixs.push(Instr::Bipush(comp as i8));
                    }
                    k += 1;
                }
                assert(ixs@ =~= seq![push_component(*r), push_component(*g), push_component(*b), push_component(*a)]);
                (ixs, None)
            },
            ColorComponents::DeltaHsvf(h, s, v) => {
                let mut ixs: Vec<Instr> = Vec::new();
                let mut floats: Vec<FloatToAddToConstantPool> = Vec::new();
                let comps = [*h, *s, *v];
                let mut k: usize = 0;
                while k < 3
                    invariant
                        k <= 3,
                        next_free_cpool_idx + 2 <= usize::MAX,
                        comps@ == seq![*h, *s, *v],
                        ixs@.len() == k,
                        floats@.len() == k,
                        forall|j: int| 0 <= j < k ==> ixs@[j] == load_constant(next_free_cpool_idx + j),
                        forall|j: int| 0 <= j < k ==> (#[trigger] floats@[j]).float == comps@[j],
                    decreases 3 - k,
                {
                    let cpool_idx = next_free_cpool_idx + k;
                    if cpool_idx > 255 {
                        ixs.push(Instr::LdcW(cpool_idx as u16));
                    } else {
                        ixs.push(Instr::Ldc(cpool_idx as u8));
                    }
                    floats.push(FloatToAddToConstantPool { float: comps[k] });
                    k += 1;
                }
                assert(ixs@ =~= seq![
                    load_constant(next_free_cpool_idx as int),
                    load_constant(next_free_cpool_idx + 1),
                    load_constant(next_free_cpool_idx + 2),
                ]);
                (ixs, Some(floats))
            },
            _ => (Vec::new(), None),
        }
    }
}

} // verus!
