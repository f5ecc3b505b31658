//! The record capability: what the storage engine requires of any concrete
//! record type it manages.
//!
//! The engine is generic over this trait.  A concrete record type supplies
//! identity, naming, its current location, search matching and archive
//! readiness; the engine's contracts are stated over the trait's
//! specification functions.  [`crate::record::Record`] is a plain record
//! type of this crate implementing the capability.

use vstd::prelude::*;

use crate::error::StorageError;
use crate::paths::{FsPath, PathModel};
use crate::Year;

verus! {

/// Version-control state of a record's directory, as the attached
/// repository reports it.
#[derive(Debug, Clone, Copy, PartialEq, Eq, Structural)]
pub enum GitStatus {
    Unknown,
    Clean,
    Modified,
    Added,
    Removed,
    Untracked,
    Conflict,
}

/// The capability set consumed by the storage engine.
///
/// Opening a record from a file or folder and removing its directory are
/// input/output work of the concrete record type; the engine only decides
/// which paths to open or remove, so those routines live with the
/// application's record type and are not part of this trait.
pub trait Storable: Sized {
    /// The file extension that marks a record file inside its directory.
    spec fn ext_spec() -> Seq<char>;

    /// The record's identifying name, used as its directory name.
    spec fn ident_spec(&self) -> Seq<char>;

    /// An optional sequence prefix put ahead of the name when archived.
    spec fn prefix_spec(&self) -> Option<Seq<char>>;

    /// The year the record belongs to, when it declares one.
    spec fn year_spec(&self) -> Option<Year>;

    /// The record's sortable index, when it declares one.
    spec fn index_spec(&self) -> Option<Seq<char>>;

    /// The directory the record currently resides in.
    spec fn dir_spec(&self) -> PathModel;

    /// The record's file.
    spec fn file_spec(&self) -> PathModel;

    /// The version-control status attached to the record, if any.
    spec fn git_status_spec(&self) -> Option<GitStatus>;

    /// Whether the record's text matches a search term.
    spec fn matches_spec(&self, term: Seq<char>) -> bool;

    /// Whether the record reports itself ready for archival.
    spec fn ready_spec(&self) -> bool;

    fn file_extension() -> (r: String)
        ensures
            r@ == Self::ext_spec(),
    ;

    fn ident(&self) -> (r: String)
        ensures
            r@ == self.ident_spec(),
    ;

    /// A short human-readable description, for logs and listings.
    fn short_desc(&self) -> String;

    fn prefix(&self) -> (r: Option<String>)
        ensures
            r.deep_view() == self.prefix_spec(),
    ;

    fn year(&self) -> (r: Option<Year>)
        ensures
            r == self.year_spec(),
    ;

    fn index(&self) -> (r: Option<String>)
        ensures
            r.deep_view() == self.index_spec(),
    ;

    fn dir(&self) -> (r: FsPath)
        ensures
            r@ == self.dir_spec(),
    ;

    fn file(&self) -> (r: FsPath)
        ensures
            r@ == self.file_spec(),
    ;

    /// Points the record at a new file, leaving everything else unchanged.
    fn set_file(&mut self, f: &FsPath)
        ensures
            final(self).file_spec() == f@,
            final(self).ident_spec() == old(self).ident_spec(),
            final(self).prefix_spec() == old(self).prefix_spec(),
            final(self).year_spec() == old(self).year_spec(),
            final(self).index_spec() == old(self).index_spec(),
            final(self).dir_spec() == old(self).dir_spec(),
            final(self).git_status_spec() == old(self).git_status_spec(),
            final(self).ready_spec() == old(self).ready_spec(),
            forall|t: Seq<char>| final(self).matches_spec(t) == old(self).matches_spec(t),
    ;

    /// Attaches a version-control status, leaving everything else unchanged.
    fn set_git_status(&mut self, s: GitStatus)
        ensures
            final(self).git_status_spec() == Some(s),
            final(self).ident_spec() == old(self).ident_spec(),
            final(self).prefix_spec() == old(self).prefix_spec(),
            final(self).year_spec() == old(self).year_spec(),
            final(self).index_spec() == old(self).index_spec(),
            final(self).dir_spec() == old(self).dir_spec(),
            final(self).file_spec() == old(self).file_spec(),
            final(self).ready_spec() == old(self).ready_spec(),
            forall|t: Seq<char>| final(self).matches_spec(t) == old(self).matches_spec(t),
    ;

    fn matches_search(&self, term: &str) -> (r: bool)
        ensures
            r == self.matches_spec(term@),
    ;

    fn is_ready_for_archive(&self) -> (r: bool)
        ensures
            r == self.ready_spec(),
    ;

    /// Builds a record from a template file.  What the instantiated record
    /// holds is the concrete type's business; the engine only hands over
    /// the name, the template location and the fill-in data.
    fn from_template(name: &str, template: &FsPath, fill_data: &Vec<(String, String)>) -> Result<
        Self,
        StorageError,
    >;
}

} // verus!
