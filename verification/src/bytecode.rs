//! Reading constant operands of instructions.
use crate::classfile::{Const, Instr};
use crate::text::{decimal, push_decimal};
use vstd::prelude::*;

verus! {

/// Reading an integer pushed by a constant instruction.
pub trait IxToInt {
    /// The integer the instruction pushes, as a byte.
    spec fn int_value(&self) -> Option<u8>;

    /// The integer the instruction pushes, truncated to a byte; only
    /// integer constant instructions push one.
    fn to_int(&self) -> (r: u8)
        requires
            self.int_value() is Some,
        ensures
            self.int_value() == Some(r),
    ;
}

impl IxToInt for Instr {
    open spec fn int_value(&self) -> Option<u8> {
        match *self {
            Instr::Iconst(v) => Some(v),
            Instr::Lconst(v) => Some(v),
            Instr::Bipush(x) => Some(x as u8),
            Instr::Sipush(x) => Some(x as u8),
            _ => None,
        }
    }

    fn to_int(&self) -> (r: u8) {
        match self {
            Instr::Iconst(v) => *v,
            Instr::Lconst(v) => *v,
            Instr::Bipush(x) => *x as u8,
            Instr::Sipush(x) => *x as u8,
            _ => 0,
        }
    }
}

/// Whether an `f32` bit pattern is a NaN.
pub open spec fn is_nan_f32(v: u32) -> bool {
    (v / 0x80_0000) % 256 == 255 && v % 0x80_0000 != 0
}

/// Whether an `f64` bit pattern is a NaN.
pub open spec fn is_nan_f64(v: u64) -> bool {
    (v / 0x10_0000_0000_0000) % 2048 == 2047 && v % 0x10_0000_0000_0000 != 0
}

/// The `f32` bits of constant `ix` when it is a float that is not a NaN.
pub open spec fn cp_float(cp: Seq<Const>, ix: int) -> Option<u32> {
    if 0 <= ix < cp.len() {
        match cp[ix] {
            Const::Float(v) => if is_nan_f32(v) {
                None
            } else {
                Some(v)
            },
            _ => None,
        }
    } else {
        None
    }
}

/// The `f64` bits of constant `ix` when it is a double that is not a NaN.
pub open spec fn cp_double(cp: Seq<Const>, ix: int) -> Option<u64> {
    if 0 <= ix < cp.len() {
        match cp[ix] {
            Const::Double(v) => if is_nan_f64(v) {
                None
            } else {
                Some(v)
            },
            _ => None,
        }
    } else {
        None
    }
}

/// The `f32` bits of the value a float constant instruction pushes:
/// `fconst_n`, `dconst_n` (as `f32`), or `ldc` of a float constant.
pub open spec fn float_value(i: Instr, cp: Seq<Const>) -> Option<u32> {
    match i {
        Instr::Fconst(v) => if v == 0 {
            Some(0u32)
        } else if v == 1 {
            Some(0x3f80_0000u32)
        } else if v == 2 {
            Some(0x4000_0000u32)
        } else {
            None
        },
        Instr::Dconst(v) => if v == 0 {
            Some(0u32)
        } else if v == 1 {
            Some(0x3f80_0000u32)
        } else {
            None
        },
        Instr::Ldc(ix) => cp_float(cp, ix as int),
        Instr::LdcW(ix) => cp_float(cp, ix as int),
        _ => None,
    }
}

/// The `f64` bits of the value a double constant instruction pushes:
/// `fconst_n`, `dconst_n`, or `ldc2_w` of a double constant.
pub open spec fn double_value(i: Instr, cp: Seq<Const>) -> Option<u64> {
    match i {
        Instr::Fconst(v) => if v == 0 {
            Some(0u64)
        } else if v == 1 {
            Some(0x3ff0_0000_0000_0000u64)
        } else if v == 2 {
            Some(0x4000_0000_0000_0000u64)
        } else {
            None
        },
        Instr::Dconst(v) => if v == 0 {
            Some(0u64)
        } else if v == 1 {
            Some(0x3ff0_0000_0000_0000u64)
        } else {
            None
        },
        Instr::Ldc2W(ix) => cp_double(cp, ix as int),
        _ => None,
    }
}

fn float_const(cp: &Vec<Const>, ix: u16) -> (r: Option<u32>)
    ensures
        r == cp_float(cp@, ix as int),
{
    if (ix as usize) >= cp.len() {
        return None;
    }
    match &cp[ix as usize] {
        Const::Float(v) => {
            let v = *v;
            if (v / 0x80_0000) % 256 == 255 && v % 0x80_0000 != 0 {
                None
            } else {
                Some(v)
            }
        },
        _ => None,
    }
}

/// The `f32` bits of the value a float constant instruction pushes.
pub fn to_float_bits(i: &Instr, cp: &Vec<Const>) -> (r: Option<u32>)
    ensures
        r == float_value(*i, cp@),
{
    match i {
        Instr::Fconst(v) => if *v == 0 {
            Some(0u32)
        } else if *v == 1 {
            Some(0x3f80_0000u32)
        } else if *v == 2 {
            Some(0x4000_0000u32)
        } else {
            None
        },
        Instr::Dconst(v) => if *v == 0 {
            Some(0u32)
        } else if *v == 1 {
            Some(0x3f80_0000u32)
        } else {
            None
        },
        Instr::Ldc(ix) => float_const(cp, *ix as u16),
        Instr::LdcW(ix) => float_const(cp, *ix),
        _ => None,
    }
}

/// The `f64` bits of the value a double constant instruction pushes.
pub fn to_double_bits(i: &Instr, cp: &Vec<Const>) -> (r: Option<u64>)
    ensures
        r == double_value(*i, cp@),
{
    match i {
        Instr::Fconst(v) => if *v == 0 {
            Some(0u64)
        } else if *v == 1 {
            Some(0x3ff0_0000_0000_0000u64)
        } else if *v == 2 {
            Some(0x4000_0000_0000_0000u64)
        } else {
            None
        },
        Instr::Dconst(v) => if *v == 0 {
            Some(0u64)
        } else if *v == 1 {
            Some(0x3ff0_0000_0000_0000u64)
        } else {
            None
        },
        Instr::Ldc2W(ix) => {
            let ix = *ix;
            if (ix as usize) >= cp.len() {
                return None;
            }
            match &cp[ix as usize] {
                Const::Double(v) => {
                    let v = *v;
                    if (v / 0x10_0000_0000_0000) % 2048 == 2047 && v % 0x10_0000_0000_0000 != 0 {
                        None
                    } else {
                        Some(v)
                    }
                },
                _ => None,
            }
        },
        _ => None,
    }
}

/// A short text naming an instruction, used in error reports and in the
/// placeholder names of colors whose name is not a constant.
pub open spec fn instr_text(i: Instr) -> Seq<char> {
    match i {
        Instr::Aload(n) => "Aload"@ + decimal(n as nat),
        Instr::Ldc(v) => "Ldc("@ + decimal(v as nat) + ")"@,
        Instr::LdcW(v) => "LdcW("@ + decimal(v as nat) + ")"@,
        Instr::Invokevirtual(v) => "Invokevirtual("@ + decimal(v as nat) + ")"@,
        _ => "Instruction"@,
    }
}

/// Text naming an instruction (see `instr_text`).
pub fn describe_instr(i: &Instr) -> (s: String)
    ensures
        s@ == instr_text(*i),
{
    match i {
        Instr::Aload(n) => {
            let mut s = String::from_str("Aload");
            push_decimal(&mut s, *n as usize);
            s
        },
        Instr::Ldc(v) => {
            let mut s = String::from_str("Ldc(");
            push_decimal(&mut s, *v as usize);
            s.append(")");
            s
        },
        Instr::LdcW(v) => {
            let mut s = String::from_str("LdcW(");
            push_decimal(&mut s, *v as usize);
            s.append(")");
            s
        },
        Instr::Invokevirtual(v) => {
            let mut s = String::from_str("Invokevirtual(");
            push_decimal(&mut s, *v as usize);
            s.append(")");
            s
        },
        _ => String::from_str("Instruction"),
    }
}

} // verus!
