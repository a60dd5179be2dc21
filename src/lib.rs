//! A compiler for a small S-expression language with tagged 64-bit values,
//! lowering programs to x86-64 assembly text, together with the runtime
//! logic (value printing, structural equality, error messages) that the
//! generated code links against.
pub mod align;
pub mod arity;
pub mod ast;
pub mod compile;
pub mod env;
pub mod heap;
pub mod instr;
pub mod lower;
pub mod parse;
pub mod program;
pub mod sexpr;
pub mod text;
pub mod value;
