//! Files that are taken as they are.

use vstd::prelude::*;
use crate::error::{BuildError, Failure};
use crate::io_utils::{file_at, FileSystem};
use crate::modules::{module_type_of, Module};

verus! {

/// Whether `r` is the module that the file at `path` holds, without
/// dependencies.
pub open spec fn is_plain_module(r: Result<(Module, Vec<String>), BuildError>, fs: FileSystem, path: Seq<char>)
    -> bool {
    match r {
        Ok((m, deps)) => file_at(fs, path) == Ok::<(Seq<char>, Seq<char>), Failure>(
            (m.path@, m.content@),
        ) && m.mtype == module_type_of(m.path@) && deps@.len() == 0,
        Err(e) => file_at(fs, path) == Err::<(Seq<char>, Seq<char>), Failure>(e@),
    }
}

/// Reads a file as a module that depends on nothing.
pub fn parse_plaintext_module(fs: &FileSystem, input_path: &str) -> (r: Result<
    (Module, Vec<String>),
    BuildError,
>)
    ensures
        is_plain_module(r, *fs, input_path@),
{
    match Module::from_path(fs, input_path) {
        Ok(module) => Ok((module, Vec::new())),
        Err(e) => Err(e),
    }
}

/// Reads a file of a kind that the build does not know: as it is, and
/// depending on nothing.
pub fn parse_unknown_module(fs: &FileSystem, input_path: &str) -> (r: Result<
    (Module, Vec<String>),
    BuildError,
>)
    ensures
        is_plain_module(r, *fs, input_path@),
{
    parse_plaintext_module(fs, input_path)
}

} // verus!
