//! Analysis and recoloring of the Java class files inside a Bitwig Studio
//! JAR: finding the palette's named colors, reading their components from
//! bytecode, and rewriting them.
use vstd::prelude::*;

pub mod bytes;
pub mod classfile;
pub mod layout;
pub mod parse;
pub mod text;
pub mod mutf8;
pub mod types;
pub mod colors;
pub mod methods;
pub mod introspection;
pub mod invocations;
pub mod bytecode;
pub mod chars;
pub mod scanner;
pub mod extractor;
pub mod legacy;
pub mod goodies;
pub mod recolor;
pub mod assembly;
pub mod writer;
pub mod commands;
pub mod colorize;
pub mod exchange;
pub mod ask;
pub mod editor;
pub mod randomizer;

verus! {
} // verus!
