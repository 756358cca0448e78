//! What a build can fail with.

use vstd::prelude::*;
use crate::javascript::error::ParseError;
use crate::text::append_str;

verus! {

/// Why a build stopped. A build stops at its first error.
#[derive(Debug, Clone, PartialEq)]
pub enum BuildError {
    /// The view of the file system says nothing of this path: it has to be
    /// looked at before the build can go on.
    Unknown(String),
    /// This specifier cannot be mapped to a file that exists.
    NotFound(String),
    /// This path cannot be read as a file.
    Unreadable(String),
    /// The file at this path is no module of the grammar.
    Syntax(String, ParseError),
    /// The page at this path has not been looked through for what it refers
    /// to.
    Unscanned(String),
    /// An import names this path, and no module of the bundle has it.
    MissingModule(String),
    /// The graph has no module at the place of the entry point, or not a
    /// node for each of its modules.
    NoEntry,
    /// The build needs more modules, imports or bytes of source than the
    /// graph or the digest can take.
    TooLarge,
}

/// An error with its texts as sequences of characters.
pub enum Failure {
    Unknown(Seq<char>),
    NotFound(Seq<char>),
    Unreadable(Seq<char>),
    Syntax(Seq<char>, ParseError),
    Unscanned(Seq<char>),
    MissingModule(Seq<char>),
    NoEntry,
    TooLarge,
}

impl View for BuildError {
    type V = Failure;

    open spec fn view(&self) -> Failure {
        match *self {
            BuildError::Unknown(p) => Failure::Unknown(p@),
            BuildError::NotFound(p) => Failure::NotFound(p@),
            BuildError::Unreadable(p) => Failure::Unreadable(p@),
            BuildError::Syntax(p, e) => Failure::Syntax(p@, e),
            BuildError::Unscanned(p) => Failure::Unscanned(p@),
            BuildError::MissingModule(p) => Failure::MissingModule(p@),
            BuildError::NoEntry => Failure::NoEntry,
            BuildError::TooLarge => Failure::TooLarge,
        }
    }
}

/// The message of an error.
pub open spec fn message_text(f: Failure) -> Seq<char> {
    match f {
        Failure::Unknown(p) => "Nothing is known of '"@ + p + "'"@,
        Failure::NotFound(p) => "Could not find '"@ + p + "'"@,
        Failure::Unreadable(p) => "Could not read '"@ + p + "'"@,
        Failure::Syntax(p, e) => "Error in "@ + p + "\n"@ + e.kind.describe_text(),
        Failure::Unscanned(p) => "Nothing is known of what '"@ + p + "' refers to"@,
        Failure::MissingModule(p) => "No module for '"@ + p + "'"@,
        Failure::NoEntry => "The entry point is no module of the graph"@,
        Failure::TooLarge => "The build is too large"@,
    }
}

impl BuildError {
    /// The message to print for this error.
    pub fn to_string(&self) -> (s: String)
        ensures
            s@ == message_text(self@),
    {
        let mut out: Vec<char> = Vec::new();
        match self {
            BuildError::Unknown(p) => {
                append_str(&mut out, "Nothing is known of '");
                append_str(&mut out, p.as_str());
                append_str(&mut out, "'");
            },
            BuildError::NotFound(p) => {
                append_str(&mut out, "Could not find '");
                append_str(&mut out, p.as_str());
                append_str(&mut out, "'");
            },
            BuildError::Unreadable(p) => {
                append_str(&mut out, "Could not read '");
                append_str(&mut out, p.as_str());
                append_str(&mut out, "'");
            },
            BuildError::Syntax(p, e) => {
                append_str(&mut out, "Error in ");
                append_str(&mut out, p.as_str());
                append_str(&mut out, "\n");
                append_str(&mut out, e.kind.describe());
            },
            BuildError::Unscanned(p) => {
                append_str(&mut out, "Nothing is known of what '");
                append_str(&mut out, p.as_str());
                append_str(&mut out, "' refers to");
            },
            BuildError::MissingModule(p) => {
                append_str(&mut out, "No module for '");
                append_str(&mut out, p.as_str());
                append_str(&mut out, "'");
            },
            BuildError::NoEntry => {
                append_str(&mut out, "The entry point is no module of the graph");
            },
            BuildError::TooLarge => {
                append_str(&mut out, "The build is too large");
            },
        }
        proof {
            assert(out@ =~= message_text(self@));
            assert(out@.subrange(0, out@.len() as int) =~= out@);
        }
        crate::text::from_chars(&out, 0, out.len())
    }
}

} // verus!
