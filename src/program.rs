//! From source text to assembly text.
use vstd::prelude::*;

use crate::ast::Prog;
use crate::compile::compile;
use crate::lower::{lower_prog, program_text, CompileError};
use crate::parse::{parse_program, prog_error, prog_parses, source_reading, ParseError};

verus! {

#[derive(Debug)]
pub enum SourceError {
    Parse(ParseError),
    Compile(CompileError),
}

/// What compiling a parsed program owes.
pub open spec fn compiled(p: Prog, r: Result<String, SourceError>) -> bool {
    match lower_prog(p.0@, p.1) {
        Ok(code) => r matches Ok(t) && t@ == program_text(code),
        Err(x) => r == Err::<String, SourceError>(SourceError::Compile(x)),
    }
}

/// Compiles the text of a source file to NASM text.
pub fn compile_source(text: &str) -> (r: Result<String, SourceError>)
    ensures
        match source_reading(text@) {
            None => r == Err::<String, SourceError>(SourceError::Parse(ParseError::InvalidSexp)),
            Some(s) => match prog_error(s) {
                Some(err) => r == Err::<String, SourceError>(SourceError::Parse(err)),
                None => exists|p: Prog| prog_parses(s, p) && compiled(p, r),
            },
        },
{
    let p = match parse_program(text) {
        Ok(p) => p,
        Err(x) => {
            return Err(SourceError::Parse(x));
        },
    };
    match compile(&p) {
        Ok(t) => Ok(t),
        Err(x) => Err(SourceError::Compile(x)),
    }
}

} // verus!
