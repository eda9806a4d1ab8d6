use vstd::prelude::*;

use crate::text::{concat, concat3, has_prefix, starts_with};

verus! {

/// `rel` resolved against the directory `base`, as `Path::join` does for plain
/// relative and absolute paths: an absolute `rel` replaces `base`.
pub open spec fn join_path(base: Seq<char>, rel: Seq<char>) -> Seq<char> {
    if has_prefix(rel, "/"@) || base.len() == 0 {
        rel
    } else if base.last() == '/' {
        base + rel
    } else {
        base + "/"@ + rel
    }
}

/// Where a guideline index finds its collaborators.
#[derive(Debug, Clone)]
pub struct Config {
    /// Connection URL of the key-value store; `None` runs without a cache.
    pub redis_url: Option<String>,
    /// Directory of the vector database.
    pub lancedb_path: String,
    /// Directory of the corpus repository.
    pub repo_path: String,
    /// Path of the corpus's main file, relative to the repository.
    pub corpus_file: String,
}

impl Config {
    /// The corpus repository's directory.
    pub fn repo_path(&self) -> (r: String)
        ensures
            r@ == self.repo_path@,
    {
        self.repo_path.clone()
    }

    /// Path of the corpus's main file.
    pub fn guidelines_file_path(&self) -> (r: String)
        ensures
            r@ == join_path(self.repo_path@, self.corpus_file@),
    {
        let base = self.repo_path.as_str();
        let rel = self.corpus_file.as_str();
        let n = base.unicode_len();
        if starts_with(rel, "/") || n == 0 {
            rel.to_owned()
        } else if base.get_char(n - 1) == '/' {
            concat(base, rel)
        } else {
            concat3(base, "/", rel)
        }
    }
}

} // verus!
