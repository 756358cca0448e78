//! JavaScript: the syntax tree, the reader and the printer, and a module as
//! the build holds it.

pub mod ast;
pub mod display;
pub mod error;
pub mod grammar;
pub mod lexer;
pub mod parser;
pub mod queries;
pub mod roundtrip;

pub mod statements;
pub mod syntax;
pub mod theorems;
pub mod unicode;
pub mod visit;

use vstd::prelude::*;
use crate::error::{BuildError, Failure};
use crate::io_utils::{file_at, read_file, FileSystem};
use crate::javascript::ast::Program;
use crate::javascript::statements::{describes_program, program};

verus! {

/// A module of the build: the canonical path of its file, the text of the
/// file and the tree that the text was read as.
#[derive(Debug, PartialEq)]
pub struct JsModule {
    pub source: String,
    pub program: Program,
    pub path: String,
}

/// Why the module at `path` cannot be had: the file cannot be read, or its
/// text is no module.
pub open spec fn module_failure(fs: FileSystem, path: Seq<char>) -> Option<Failure> {
    match file_at(fs, path) {
        Err(f) => Some(f),
        Ok((_, content)) => match program(content) {
            Err(e) => Some(Failure::Syntax(path, e)),
            Ok(_) => None,
        },
    }
}

/// Whether `m` is the module that reading and parsing the file at `path`
/// gives.
pub open spec fn is_module_at(m: JsModule, fs: FileSystem, path: Seq<char>) -> bool {
    &&& file_at(fs, path) == Ok::<(Seq<char>, Seq<char>), Failure>((m.path@, m.source@))
    &&& program(m.source@) is Ok
    &&& describes_program(program(m.source@)->Ok_0, m.program)
}

/// Reads the file at `path` and parses it as a module. A syntax error is
/// reported together with `path`.
pub fn parse_js_module(fs: &FileSystem, path: &str) -> (r: Result<JsModule, BuildError>)
    ensures
        match r {
            Ok(m) => is_module_at(m, *fs, path@),
            Err(e) => module_failure(*fs, path@) == Some(e@),
        },
{
    let (absolute_path, source) = match read_file(fs, path) {
        Ok(read) => read,
        Err(e) => {
            return Err(e);
        },
    };
    match crate::javascript::parser::parse(source.as_str()) {
        Ok(program) => Ok(JsModule { source, program, path: absolute_path }),
        Err(e) => Err(BuildError::Syntax(path.to_owned(), e)),
    }
}

} // verus!
