//! What the build knows of the file system: a list of paths, each with what
//! was found there. The library reads files through this view alone; whoever
//! runs a build fills it from the disk.

use vstd::prelude::*;
use crate::error::{BuildError, Failure};

verus! {

/// What stands at a path.
#[derive(Debug, Clone, Copy, PartialEq, Eq, Structural)]
pub enum FileKind {
    /// Nothing.
    Missing,
    Directory,
    File,
}

/// One path of the view: what stands there, the canonical form of the path,
/// and the text of the file where it is one.
#[derive(Debug, Clone, PartialEq)]
pub struct FileEntry {
    pub path: String,
    pub kind: FileKind,
    pub canonical: String,
    pub content: String,
}

/// A view of the file system. Of a path that has no entry nothing is known.
/// Where several entries have the same path the first one counts.
#[derive(Debug, Clone, PartialEq)]
pub struct FileSystem {
    pub entries: Vec<FileEntry>,
}

/// The place of the first entry at or after `from` whose path is `path`, or
/// the number of entries where there is none.
pub open spec fn find_entry(entries: Seq<FileEntry>, path: Seq<char>, from: int) -> int
    decreases entries.len() - from,
{
    if from < 0 || from >= entries.len() {
        entries.len() as int
    } else if entries[from].path@ == path {
        from
    } else {
        find_entry(entries, path, from + 1)
    }
}

impl FileSystem {
    /// The entry that counts for `path`, if the view has one.
    pub open spec fn entry(&self, path: Seq<char>) -> Option<FileEntry> {
        if find_entry(self.entries@, path, 0) < self.entries@.len() {
            Some(self.entries@[find_entry(self.entries@, path, 0)])
        } else {
            None
        }
    }

    /// A view that knows of no path.
    pub fn new() -> (fs: FileSystem)
        ensures
            fs.entries@.len() == 0,
    {
        FileSystem { entries: Vec::new() }
    }

    /// Adds an entry after those that are there.
    pub fn add(&mut self, entry: FileEntry)
        ensures
            final(self).entries@ == old(self).entries@.push(entry),
    {
        self.entries.push(entry);
    }

    /// Looks up the entry that counts for `path`.
    pub fn lookup(&self, path: &str) -> (r: Option<&FileEntry>)
        ensures
            match r {
                Some(e) => self.entry(path@) == Some(*e),
                None => self.entry(path@) is None,
            },
    {
        let mut i: usize = 0;
        while i < self.entries.len()
            invariant
                i <= self.entries@.len(),
                find_entry(self.entries@, path@, 0) == find_entry(self.entries@, path@, i as int),
            decreases self.entries@.len() - i,
        {
            if crate::text::equal(self.entries[i].path.as_str(), path) {
                return Some(&self.entries[i]);
            }
            i += 1;
        }
        None
    }
}

/// What reading the file at `path` gives: its canonical path and its text.
/// A path of which nothing is known, at which nothing stands, or at which a
/// directory stands cannot be read.
pub open spec fn file_at(fs: FileSystem, path: Seq<char>) -> Result<(Seq<char>, Seq<char>), Failure> {
    match fs.entry(path) {
        None => Err(Failure::Unknown(path)),
        Some(e) => match e.kind {
            FileKind::Missing => Err(Failure::NotFound(path)),
            FileKind::Directory => Err(Failure::Unreadable(path)),
            FileKind::File => Ok((e.canonical@, e.content@)),
        },
    }
}

/// Reads the file at `path`: its canonical path and its text.
pub fn read_file(fs: &FileSystem, path: &str) -> (r: Result<(String, String), BuildError>)
    ensures
        match r {
            Ok((canonical, content)) => file_at(*fs, path@) == Ok::<
                (Seq<char>, Seq<char>),
                Failure,
            >((canonical@, content@)),
            Err(e) => file_at(*fs, path@) == Err::<(Seq<char>, Seq<char>), Failure>(e@),
        },
{
    match fs.lookup(path) {
        None => Err(BuildError::Unknown(path.to_owned())),
        Some(e) => match e.kind {
            FileKind::Missing => Err(BuildError::NotFound(path.to_owned())),
            FileKind::Directory => Err(BuildError::Unreadable(path.to_owned())),
            FileKind::File => Ok((e.canonical.clone(), e.content.clone())),
        },
    }
}

} // verus!
