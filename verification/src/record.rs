//! A plain record type implementing the record capability.
//!
//! It carries exactly what the engine reads: identity, optional prefix,
//! year and sort index, its current directory and file, a searchable text
//! and an archive-readiness flag.  Search matching is substring containment
//! over the stored text; store the text lowercased so that the engine's
//! lowercased search terms match case-insensitively.

use vstd::prelude::*;

use crate::error::StorageError;
use crate::paths::{FsPath, PathModel};
use crate::storable::{GitStatus, Storable};
use crate::textops::lowercase;
use crate::Year;

verus! {

/// Whether `n` occurs as a contiguous run inside `h`.
pub open spec fn contains_sub(h: Seq<char>, n: Seq<char>) -> bool {
    exists|k: int| 0 <= k <= h.len() - n.len() && #[trigger] h.subrange(k, k + n.len()) == n
}

/// Substring search, verified against [`contains_sub`].
pub fn str_contains(h: &str, n: &str) -> (r: bool)
    ensures
        r == contains_sub(h@, n@),
{
    let hl = h.unicode_len();
    let nl = n.unicode_len();
    if nl > hl {
        return false;
    }
    let mut k: usize = 0;
    while k <= hl - nl
        invariant
            hl == h@.len(),
            nl == n@.len(),
            nl <= hl,
            k <= hl - nl + 1,
            forall|k2: int| 0 <= k2 < k ==> #[trigger] h@.subrange(k2, k2 + nl) != n@,
        decreases hl - nl + 1 - k,
    {
        let mut i: usize = 0;
        while i < nl && h.get_char(k + i) == n.get_char(i)
            invariant
                hl == h@.len(),
                nl == n@.len(),
                k + nl <= hl,
                i <= nl,
                forall|j: int| 0 <= j < i ==> h@[k + j] == n@[j],
            decreases nl - i,
        {
            i = i + 1;
        }
        if i == nl {
            proof {
                assert(h@.subrange(k as int, k + nl) =~= n@);
            }
            return true;
        }
        proof {
            assert(h@.subrange(k as int, k + nl)[i as int] != n@[i as int]);
        }
        k = k + 1;
    }
    false
}

/// A record held as plain values.
#[derive(Debug, Clone)]
pub struct Record {
    ident: String,
    prefix: Option<String>,
    year: Option<Year>,
    index: Option<String>,
    dir: FsPath,
    file: FsPath,
    text: String,
    ready: bool,
    git_status: Option<GitStatus>,
}

impl Record {
    /// Builds a record from its parts.
    pub fn new(
        ident: String,
        prefix: Option<String>,
        year: Option<Year>,
        index: Option<String>,
        dir: FsPath,
        file: FsPath,
        text: String,
        ready: bool,
    ) -> (r: Record)
        ensures
            r.ident_spec() == ident@,
            r.prefix_spec() == prefix.deep_view(),
            r.year_spec() == year,
            r.index_spec() == index.deep_view(),
            r.dir_spec() == dir@,
            r.file_spec() == file@,
            r.ready_spec() == ready,
            r.git_status_spec() === None::<GitStatus>,
            forall|t: Seq<char>| r.matches_spec(t) == contains_sub(text@, t),
    {
        Record { ident, prefix, year, index, dir, file, text, ready, git_status: None }
    }

    /// The searchable text this record matches against.
    pub fn text(&self) -> (r: &String)
        ensures
            forall|t: Seq<char>| self.matches_spec(t) == contains_sub(r@, t),
    {
        &self.text
    }

    /// The attached version-control status, if any.
    pub fn git_status(&self) -> (r: Option<GitStatus>)
        ensures
            r == self.git_status_spec(),
    {
        self.git_status
    }
}

impl Storable for Record {
    closed spec fn ext_spec() -> Seq<char> {
        "yml"@
    }

    closed spec fn ident_spec(&self) -> Seq<char> {
        self.ident@
    }

    closed spec fn prefix_spec(&self) -> Option<Seq<char>> {
        self.prefix.deep_view()
    }

    closed spec fn year_spec(&self) -> Option<Year> {
        self.year
    }

    closed spec fn index_spec(&self) -> Option<Seq<char>> {
        self.index.deep_view()
    }

    closed spec fn dir_spec(&self) -> PathModel {
        self.dir@
    }

    closed spec fn file_spec(&self) -> PathModel {
        self.file@
    }

    closed spec fn git_status_spec(&self) -> Option<GitStatus> {
        self.git_status
    }

    closed spec fn matches_spec(&self, term: Seq<char>) -> bool {
        contains_sub(self.text@, term)
    }

    closed spec fn ready_spec(&self) -> bool {
        self.ready
    }

    fn file_extension() -> (r: String) {
        "yml".to_owned()
    }

    fn ident(&self) -> (r: String) {
        self.ident.clone()
    }

    fn short_desc(&self) -> String {
        self.ident.clone()
    }

    fn prefix(&self) -> (r: Option<String>) {
        match &self.prefix {
            Some(p) => Some(p.clone()),
            None => None,
        }
    }

    fn year(&self) -> (r: Option<Year>) {
        self.year
    }

    fn index(&self) -> (r: Option<String>) {
        match &self.index {
            Some(s) => Some(s.clone()),
            None => None,
        }
    }

    fn dir(&self) -> (r: FsPath) {
        self.dir.duplicate()
    }

    fn file(&self) -> (r: FsPath) {
        self.file.duplicate()
    }

    fn set_file(&mut self, f: &FsPath) {
        self.file = f.duplicate();
    }

    fn set_git_status(&mut self, s: GitStatus) {
        self.git_status = Some(s);
    }

    fn matches_search(&self, term: &str) -> (r: bool) {
        str_contains(self.text.as_str(), term)
    }

    fn is_ready_for_archive(&self) -> (r: bool) {
        self.ready
    }

    fn from_template(name: &str, template: &FsPath, _fill_data: &Vec<(String, String)>) -> Result<
        Self,
        StorageError,
    > {
        let dir = match template.parent() {
            Some(p) => p,
            None => template.duplicate(),
        };
        Ok(
            Record {
                ident: name.to_owned(),
                prefix: None,
                year: None,
                index: None,
                dir,
                file: template.duplicate(),
                text: lowercase(name),
                ready: false,
                git_status: None,
            },
        )
    }
}

} // verus!
