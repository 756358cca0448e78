//! What a build writes: the text of an output file and where it goes.

use vstd::prelude::*;

verus! {

#[derive(Debug, Clone, Copy, PartialEq, Eq, Structural)]
pub enum AssetType {
    JavaScriptChunk,
    Html,
    CssChunk,
}

/// An output file in the making.
#[derive(Debug, Clone, PartialEq)]
pub struct Asset {
    pub output_path: String,
    pub content: String,
    pub atype: AssetType,
}

impl Asset {
    /// An empty asset of the kind `atype` that is to go to `path`.
    pub fn new(path: &str, atype: AssetType) -> (asset: Asset)
        ensures
            asset.output_path@ == path@,
            asset.content@ == Seq::<char>::empty(),
            asset.atype == atype,
    {
        Asset { output_path: path.to_owned(), content: String::new(), atype }
    }

    /// Adds `s` at the end of the content.
    pub fn push_str(&mut self, s: &str)
        ensures
            final(self).content@ == old(self).content@ + s@,
            final(self).output_path == old(self).output_path,
            final(self).atype == old(self).atype,
    {
        self.content.append(s);
    }
}

} // verus!
