//! Normalizing a rewritten class through the Krakatau disassembler and
//! assembler.
use crate::classfile::{class_fits, encode_class, ClassFile};
use krakatau2::{AssemblerError, AssemblerOptions, DisassemblerOptions, ParseError, ParserOptions};
use vstd::prelude::*;

verus! {

#[verifier::external_type_specification]
#[verifier::external_body]
pub struct ExParseError(krakatau2::ParseError);

#[verifier::external_type_specification]
#[verifier::external_body]
pub struct ExAssemblerError(krakatau2::AssemblerError);

/// The Krakatau source text `krakatau2::disassemble` makes of class
/// file bytes in round-trip mode, or `None` when it cannot parse them.
pub uninterp spec fn krakatau_disassembly(data: Seq<u8>) -> Option<Seq<char>>;

/// The classes `krakatau2::assemble` makes of Krakatau source text,
/// in the order they are defined, or `None` when it reports an error.
pub uninterp spec fn krakatau_assembly(source: Seq<char>) -> Option<Seq<Seq<u8>>>;

/// Calls `krakatau2::disassemble` with round-trip output (and code
/// attributes parsed in full) and keeps the source text. The contract
/// names the outcome as a function of the bytes. The disassembler's own
/// consistency check (an `expect` on an internal error it asks to report)
/// is assumed not to fire.
#[verifier::external_body]
fn disassemble_class(data: &[u8]) -> (r: Result<String, ParseError>)
    ensures
        match r {
            Ok(s) => krakatau_disassembly(data@) == Some(s@),
            Err(_) => krakatau_disassembly(data@) is None,
        },
{
    match krakatau2::disassemble(
        data,
        ParserOptions { no_short_code_attr: true },
        DisassemblerOptions { roundtrip: true },
    ) {
        Ok(d) => Ok(d.data),
        Err(e) => Err(e),
    }
}

/// Calls `krakatau2::assemble` and keeps the bytes of each assembled
/// class, in order. The contract names the outcome as a function of the
/// source text; the assembler's internal assertions are assumed not to
/// fire.
#[verifier::external_body]
fn assemble_source(source: &str) -> (r: Result<Vec<Vec<u8>>, AssemblerError>)
    ensures
        match r {
            Ok(v) => krakatau_assembly(source@) == Some(v@.map_values(|b: Vec<u8>| b@)),
            Err(_) => krakatau_assembly(source@) is None,
        },
{
    match krakatau2::assemble(source, AssemblerOptions {}) {
        Ok(classes) => Ok(classes.into_iter().map(|c| c.data).collect()),
        Err(e) => Err(e),
    }
}

/// Why a class could not be reassembled.
pub enum ReasmError {
    /// A count or length of the class does not fit its class-file field.
    Encode,
    Disassemble(ParseError),
    Assemble(AssemblerError),
    /// The assembler produced no class.
    NothingAssembled,
}

/// The bytes of the last class of an assembly.
pub fn last_assembled_class(classes: Vec<Vec<u8>>) -> (r: Vec<u8>)
    requires
        classes@.len() > 0,
    ensures
        r@ == classes@.last()@,
{
    let mut classes = classes;
    match classes.pop() {
        Some(c) => c,
        None => Vec::new(),
    }
}

/// The bytes the assembler makes of class `c`: `c` written out,
/// disassembled and assembled again, the last class of the assembly;
/// `None` where a step fails.
pub open spec fn reassembly(c: ClassFile) -> Option<Seq<u8>> {
    if !class_fits(c) {
        None
    } else {
        match krakatau_disassembly(encode_class(c)) {
            None => None,
            Some(src) => match krakatau_assembly(src) {
                None => None,
                Some(cs) => if cs.len() == 0 {
                    None
                } else {
                    Some(cs.last())
                },
            },
        }
    }
}

/// The class written out, disassembled and assembled again: the bytes of
/// the last class the assembler makes of the disassembly.
pub fn reasm(class: &ClassFile) -> (r: Result<Vec<u8>, ReasmError>)
    ensures
        match r {
            Ok(b) => reassembly(*class) == Some(b@),
            Err(_) => reassembly(*class) is None,
        },
        !class_fits(*class) ==> r matches Err(ReasmError::Encode),
        class_fits(*class) ==> match krakatau_disassembly(encode_class(*class)) {
            None => r matches Err(ReasmError::Disassemble(_)),
            Some(src) => match krakatau_assembly(src) {
                None => r matches Err(ReasmError::Assemble(_)),
                Some(cs) => if cs.len() == 0 {
                    r matches Err(ReasmError::NothingAssembled)
                } else {
                    r matches Ok(b) && b@ == cs.last()
                },
            },
        },
{
    let bytes = match class.to_bytes() {
        Some(b) => b,
        None => return Err(ReasmError::Encode),
    };
    let source = match disassemble_class(bytes.as_slice()) {
        Ok(s) => s,
        Err(e) => return Err(ReasmError::Disassemble(e)),
    };
    let assembled = match assemble_source(source.as_str()) {
        Ok(v) => v,
        Err(e) => return Err(ReasmError::Assemble(e)),
    };
    if assembled.len() == 0 {
        return Err(ReasmError::NothingAssembled);
    }
    let ghost cs = assembled@.map_values(|b: Vec<u8>| b@);
    assert(cs.last() == assembled@.last()@);
    Ok(last_assembled_class(assembled))
}

} // verus!
