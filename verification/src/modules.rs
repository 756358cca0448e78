//! Files of any kind as modules: a path, the text, and what kind of file the
//! extension of the path says it is.

use vstd::prelude::*;
use crate::codegen::{generate_module_id, module_id, MAX_DIGEST_INPUT};
use crate::error::{BuildError, Failure};
use crate::io_utils::{file_at, read_file, FileSystem};
use crate::paths::{extension, extension_of};
use crate::text::equal;

verus! {

#[derive(Debug, Clone, Copy, PartialEq, Eq, Structural)]
pub enum ModuleType {
    JavaScript,
    Html,
    Css,
    PlainText,
}

/// The kind of file that a path names: by its extension `html`, `js` or
/// `css`; plain text with any other extension or none.
pub open spec fn module_type_of(path: Seq<char>) -> ModuleType {
    if extension_of(path) == Some("html"@) {
        ModuleType::Html
    } else if extension_of(path) == Some("js"@) {
        ModuleType::JavaScript
    } else if extension_of(path) == Some("css"@) {
        ModuleType::Css
    } else {
        ModuleType::PlainText
    }
}

impl ModuleType {
    /// The kind of file that `path` names.
    pub fn parse_from_path(path: &str) -> (t: ModuleType)
        ensures
            t == module_type_of(path@),
    {
        match extension(path) {
            None => ModuleType::PlainText,
            Some(e) => {
                if equal(e.as_str(), "html") {
                    ModuleType::Html
                } else if equal(e.as_str(), "js") {
                    ModuleType::JavaScript
                } else if equal(e.as_str(), "css") {
                    ModuleType::Css
                } else {
                    ModuleType::PlainText
                }
            },
        }
    }
}

#[derive(Debug, Clone, PartialEq)]
pub struct Module {
    pub path: String,
    pub content: String,
    pub mtype: ModuleType,
}

impl Module {
    /// The module that the file at `path` holds, under its canonical path.
    pub fn from_path(fs: &FileSystem, path: &str) -> (r: Result<Module, BuildError>)
        ensures
            match r {
                Ok(m) => file_at(*fs, path@) == Ok::<(Seq<char>, Seq<char>), Failure>(
                    (m.path@, m.content@),
                ) && m.mtype == module_type_of(m.path@),
                Err(e) => file_at(*fs, path@) == Err::<(Seq<char>, Seq<char>), Failure>(e@),
            },
    {
        match read_file(fs, path) {
            Ok((absolute_path, contents)) => Ok(Module::new(absolute_path.as_str(), contents)),
            Err(e) => Err(e),
        }
    }

    /// The module with the text `content` at `path`.
    pub fn new(path: &str, content: String) -> (m: Module)
        ensures
            m.path@ == path@,
            m.content == content,
            m.mtype == module_type_of(path@),
    {
        Module { path: path.to_owned(), content, mtype: ModuleType::parse_from_path(path) }
    }

    /// The identifier of the module, made from its text; nothing for a text
    /// too long for the digest.
    pub fn id(&self) -> (r: Option<String>)
        ensures
            match r {
                Some(id) => id@ == module_id(self.content@) && vstd::utf8::encode_utf8(
                    self.content@,
                ).len() <= MAX_DIGEST_INPUT,
                None => vstd::utf8::encode_utf8(self.content@).len() > MAX_DIGEST_INPUT,
            },
    {
        if self.content.as_str().as_bytes().len() as u64 > MAX_DIGEST_INPUT {
            None
        } else {
            Some(generate_module_id(self.content.as_str()))
        }
    }
}

} // verus!
