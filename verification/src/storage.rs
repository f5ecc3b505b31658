//! The storage engine: layout of the store, lifecycle transitions and
//! selection.
//!
//! A store lives under one absolute root with a working directory for
//! active records, an archive partitioned by year, a template directory
//! and a directory for extras.  The engine here decides everything about
//! that layout — which paths operations read and move, in what order, and
//! when they must fail — while the application layer performs the actual
//! directory calls and feeds their observations (listings, existence
//! flags, rename outcomes) back in as plain values.

use vstd::prelude::*;

use crate::error::StorageError;
use crate::numbers::int_to_dec_str;
use crate::numbers::year_string;
use crate::paths::{is_hidden, FsPath, PathModel};
use crate::project_list::ProjectList;
use crate::storable::Storable;
use crate::textops::{slug_of, slugify};
use crate::Year;

verus! {

/// Which part of the store an operation speaks about.
#[derive(Debug, Clone, Copy, PartialEq, Eq, Structural)]
pub enum StorageDir {
    /// Exclusively the working directory.
    Working,
    /// Exclusively one year's archive partition.
    Archive(Year),
    /// The year's archive partition together with the working directory.
    Year(Year),
    /// The root above working, archive and templates.
    Root,
    /// The template directory.
    Templates,
    /// The extras directory.
    Extras,
    /// Every archive partition and the working directory.
    All,
}

/// A description of which records an operation should act on.
#[derive(Debug, Clone)]
pub enum StorageSelection {
    DirAndSearch(StorageDir, Vec<String>),
    Dir(StorageDir),
    Paths(Vec<FsPath>),
    Uninitialized,
}

impl From<StorageDir> for StorageSelection {
    fn from(val: StorageDir) -> (r: Self) {
        StorageSelection::Dir(val)
    }
}

impl vstd::std_specs::convert::FromSpecImpl<StorageDir> for StorageSelection {
    open spec fn obeys_from_spec() -> bool {
        true
    }

    open spec fn from_spec(t: StorageDir) -> Self {
        StorageSelection::Dir(t)
    }
}

impl Default for StorageSelection {
    /// The default selection: everything in the working directory.
    fn default() -> (r: Self)
        ensures
            match r {
                StorageSelection::DirAndSearch(d, terms) => d == StorageDir::Working && terms@
                    =~= Seq::<String>::empty(),
                _ => false,
            },
    {
        StorageSelection::DirAndSearch(StorageDir::Working, Vec::new())
    }
}

/// The entries that a directory listing shows: the hidden ones (leading
/// dot) are dropped.
pub open spec fn visible_pred() -> spec_fn(FsPath) -> bool {
    |p: FsPath| !is_hidden(p@)
}

/// Whether a path's extension matches, a missing extension counting as the
/// empty one.
pub open spec fn ext_matches(m: PathModel, ext: Seq<char>) -> bool {
    match m.extension() {
        Some(e) => e == ext,
        None => ext.len() == 0,
    }
}

/// The entries carrying a given extension.
pub open spec fn ext_pred(ext: Seq<char>) -> spec_fn(FsPath) -> bool {
    |p: FsPath| ext_matches(p@, ext)
}

/// The first element satisfying a predicate, if any.
pub open spec fn first_match(s: Seq<FsPath>, pred: spec_fn(FsPath) -> bool) -> Option<FsPath>
    decreases s.len(),
{
    if s.len() == 0 {
        None
    } else if pred(s[0]) {
        Some(s[0])
    } else {
        first_match(s.skip(1), pred)
    }
}

/// Drops the hidden entries of a raw directory listing; this is the
/// filtering half of listing a path's content, the reading half being the
/// application's.
pub fn filter_hidden(entries: Vec<FsPath>) -> (r: Vec<FsPath>)
    ensures
        r@ == entries@.filter(visible_pred()),
{
    let ghost whole = entries@;
    let ghost pred = visible_pred();
    let mut rest = entries;
    let mut out: Vec<FsPath> = Vec::new();
    let n = rest.len();
    proof {
        reveal(Seq::filter);
        assert(whole.len() == n);
        assert(whole.take(0) =~= Seq::<FsPath>::empty());
    }
    let mut i: usize = 0;
    while rest.len() > 0
        invariant
            pred == visible_pred(),
            i <= whole.len(),
            whole.len() <= usize::MAX,
            rest@ == whole.skip(i as int),
            out@ == whole.take(i as int).filter(pred),
        decreases rest.len(),
    {
        let p = rest.remove(0);
        proof {
            assert(p == whole[i as int]);
            assert(rest@ =~= whole.skip(i + 1));
            reveal(Seq::filter);
            assert(whole.take(i + 1).drop_last() =~= whole.take(i as int));
            assert(whole.take(i + 1).last() == p);
        }
        let keep = !crate::paths::is_dot_file(&p);
        proof {
            assert(keep == pred(whole[i as int]));
        }
        if keep {
            out.push(p);
        }
        proof {
            reveal(Seq::filter);
            assert(out@ == whole.take(i + 1).filter(pred));
        }
        i = i + 1;
    }
    proof {
        assert(whole.take(i as int) =~= whole);
    }
    out
}

/// Keeps the entries carrying the given extension.
fn filter_by_extension(entries: Vec<FsPath>, ext: &str) -> (r: Vec<FsPath>)
    ensures
        r@ == entries@.filter(ext_pred(ext@)),
{
    let ghost whole = entries@;
    let ghost pred = ext_pred(ext@);
    let mut rest = entries;
    let mut out: Vec<FsPath> = Vec::new();
    let n = rest.len();
    proof {
        reveal(Seq::filter);
        assert(whole.len() == n);
        assert(whole.take(0) =~= Seq::<FsPath>::empty());
    }
    let mut i: usize = 0;
    while rest.len() > 0
        invariant
            pred == ext_pred(ext@),
            i <= whole.len(),
            whole.len() <= usize::MAX,
            rest@ == whole.skip(i as int),
            out@ == whole.take(i as int).filter(pred),
        decreases rest.len(),
    {
        let p = rest.remove(0);
        proof {
            assert(p == whole[i as int]);
            assert(rest@ =~= whole.skip(i + 1));
            reveal(Seq::filter);
            assert(whole.take(i + 1).drop_last() =~= whole.take(i as int));
            assert(whole.take(i + 1).last() == p);
        }
        let keep = match p.extension() {
            Some(e) => crate::paths::string_eq(&e, &ext.to_owned()),
            None => ext.unicode_len() == 0,
        };
        proof {
            assert(keep == pred(whole[i as int]));
        }
        if keep {
            out.push(p);
        }
        proof {
            reveal(Seq::filter);
            assert(out@ == whole.take(i + 1).filter(pred));
        }
        i = i + 1;
    }
    proof {
        assert(whole.take(i as int) =~= whole);
    }
    out
}

/// The position of the first entry carrying the given extension.
fn find_by_extension(entries: &Vec<FsPath>, ext: &str) -> (r: Option<usize>)
    ensures
        match r {
            Some(i) => i < entries@.len() && first_match(entries@, ext_pred(ext@)) == Some(
                entries@[i as int],
            ),
            None => first_match(entries@, ext_pred(ext@)) is None,
        },
{
    let ghost whole = entries@;
    let ghost pred = ext_pred(ext@);
    let mut i: usize = 0;
    let n = entries.len();
    proof {
        assert(whole.skip(0) =~= whole);
    }
    while i < n
        invariant
            pred == ext_pred(ext@),
            whole == entries@,
            n == whole.len(),
            i <= n,
            first_match(whole, pred) == first_match(whole.skip(i as int), pred),
        decreases n - i,
    {
        let p = &entries[i];
        proof {
            assert(whole.skip(i as int)[0] == whole[i as int]);
            assert(whole.skip(i as int).skip(1) =~= whole.skip(i + 1));
        }
        let matched = match p.extension() {
            Some(e) => crate::paths::string_eq(&e, &ext.to_owned()),
            None => ext.unicode_len() == 0,
        };
        proof {
            assert(matched == pred(whole[i as int]));
        }
        if matched {
            return Some(i);
        }
        i = i + 1;
    }
    proof {
        assert(whole.skip(i as int).len() == 0);
    }
    None
}

/// Entries whose name stem equals the given name, an absent stem counting
/// as the empty one.
pub open spec fn stem_pred(name: Seq<char>) -> spec_fn(FsPath) -> bool {
    |p: FsPath|
        match p@.file_stem() {
            Some(s) => s == name,
            None => name.len() == 0,
        }
}

/// Entries that have a name stem at all.
pub open spec fn has_stem_pred() -> spec_fn(FsPath) -> bool {
    |p: FsPath| p@.file_stem() is Some
}

pub open spec fn stem_or_empty(m: PathModel) -> Seq<char> {
    match m.file_stem() {
        Some(s) => s,
        None => Seq::empty(),
    }
}

/// An entry's name stem.
pub open spec fn stem_fn() -> spec_fn(FsPath) -> Seq<char> {
    |p: FsPath| stem_or_empty(p@)
}

/// The year an archive entry is named after, when its stem parses as one.
pub open spec fn year_of_entry(p: FsPath) -> Option<Year> {
    match p@.file_stem() {
        Some(s) => crate::numbers::parse_i32_spec(s),
        None => None,
    }
}

pub open spec fn has_year_pred() -> spec_fn(FsPath) -> bool {
    |p: FsPath| year_of_entry(p) is Some
}

pub open spec fn year_fn() -> spec_fn(FsPath) -> Year {
    |p: FsPath|
        match year_of_entry(p) {
            Some(y) => y,
            None => 0,
        }
}

/// The years named by archive entries, in listing order.
pub open spec fn years_of(entries: Seq<FsPath>) -> Seq<Year> {
    entries.filter(has_year_pred()).map_values(year_fn())
}

/// `y` inserted after every year less than or equal to it: the insertion
/// step of a stable insertion sort, ascending.
pub open spec fn insert_year_sorted(s: Seq<Year>, y: Year) -> Seq<Year>
    decreases s.len(),
{
    if s.len() > 0 && s.last() > y {
        insert_year_sorted(s.drop_last(), y).push(s.last())
    } else {
        s.push(y)
    }
}

/// The years sorted ascending.
pub open spec fn sort_years(s: Seq<Year>) -> Seq<Year>
    decreases s.len(),
{
    if s.len() == 0 {
        Seq::empty()
    } else {
        insert_year_sorted(sort_years(s.drop_last()), s.last())
    }
}

proof fn lemma_insert_year_shape(s: Seq<Year>, y: Year, pos: int)
    requires
        0 <= pos <= s.len(),
        forall|j: int| pos <= j < s.len() ==> #[trigger] s[j] > y,
        pos > 0 ==> s[pos - 1] <= y,
    ensures
        insert_year_sorted(s, y) == s.subrange(0, pos) + seq![y] + s.subrange(pos, s.len() as int),
    decreases s.len() - pos,
{
    if pos == s.len() {
        assert(insert_year_sorted(s, y) == s.push(y));
        assert(s.push(y) =~= s.subrange(0, pos) + seq![y] + s.subrange(pos, s.len() as int));
    } else {
        assert(s[s.len() - 1] > y);
        if pos > 0 {
            assert(s.drop_last()[pos - 1] == s[pos - 1]);
        }
        lemma_insert_year_shape(s.drop_last(), y, pos);
        assert((s.drop_last().subrange(0, pos) + seq![y] + s.drop_last().subrange(
            pos,
            s.drop_last().len() as int,
        )).push(s.last()) =~= s.subrange(0, pos) + seq![y] + s.subrange(pos, s.len() as int));
    }
}

proof fn lemma_insert_year_elems(s: Seq<Year>, y: Year)
    ensures
        insert_year_sorted(s, y).len() == s.len() + 1,
        forall|i: int|
            0 <= i < insert_year_sorted(s, y).len() ==> (#[trigger] insert_year_sorted(s, y)[i])
                == y || s.contains(insert_year_sorted(s, y)[i]),
    decreases s.len(),
{
    let r = insert_year_sorted(s, y);
    if s.len() > 0 && s.last() > y {
        lemma_insert_year_elems(s.drop_last(), y);
        let r0 = insert_year_sorted(s.drop_last(), y);
        assert forall|i: int| 0 <= i < r.len() implies (#[trigger] r[i]) == y || s.contains(
            r[i],
        ) by {
            if i < r.len() - 1 {
                assert(r[i] == r0[i]);
                if r0[i] != y {
                    let j = choose|j: int|
                        0 <= j < s.drop_last().len() && s.drop_last()[j] == r0[i];
                    assert(s[j] == r0[i]);
                }
            } else {
                assert(r[i] == s.last());
                assert(s[s.len() - 1] == s.last());
            }
        }
    } else {
        assert forall|i: int| 0 <= i < r.len() implies (#[trigger] r[i]) == y || s.contains(
            r[i],
        ) by {
            if i < s.len() {
                assert(r[i] == s[i]);
            }
        }
    }
}

proof fn lemma_insert_year_sorted(s: Seq<Year>, y: Year)
    requires
        forall|i: int, j: int| 0 <= i < j < s.len() ==> #[trigger] s[i] <= #[trigger] s[j],
    ensures
        forall|i: int, j: int|
            0 <= i < j < insert_year_sorted(s, y).len() ==> #[trigger] insert_year_sorted(s, y)[i]
                <= #[trigger] insert_year_sorted(s, y)[j],
    decreases s.len(),
{
    let r = insert_year_sorted(s, y);
    lemma_insert_year_elems(s, y);
    if s.len() > 0 && s.last() > y {
        let r0 = insert_year_sorted(s.drop_last(), y);
        assert forall|i: int, j: int|
            0 <= i < j < s.drop_last().len() implies #[trigger] s.drop_last()[i]
            <= #[trigger] s.drop_last()[j] by {
            assert(s.drop_last()[i] == s[i]);
            assert(s.drop_last()[j] == s[j]);
        }
        lemma_insert_year_sorted(s.drop_last(), y);
        lemma_insert_year_elems(s.drop_last(), y);
        assert forall|i: int, j: int| 0 <= i < j < r.len() implies #[trigger] r[i]
            <= #[trigger] r[j] by {
            if j < r.len() - 1 {
                assert(r[i] == r0[i]);
                assert(r[j] == r0[j]);
            } else {
                assert(r[j] == s.last());
                assert(r[i] == r0[i]);
                if r0[i] == y {
                } else {
                    let k = choose|k: int|
                        0 <= k < s.drop_last().len() && s.drop_last()[k] == r0[i];
                    assert(s[k] == r0[i]);
                    if k < s.len() - 1 {
                        assert(s[k] <= s[s.len() - 1]);
                    }
                    assert(s[s.len() - 1] == s.last());
                }
            }
        }
    } else {
        assert forall|i: int, j: int| 0 <= i < j < r.len() implies #[trigger] r[i]
            <= #[trigger] r[j] by {
            if j < r.len() - 1 {
                assert(r[i] == s[i]);
                assert(r[j] == s[j]);
            } else {
                assert(r[j] == y);
                if i < s.len() {
                    assert(r[i] == s[i]);
                    if s.len() > 0 && i < s.len() - 1 {
                        assert(s[i] <= s[s.len() - 1]);
                    }
                    assert(s[s.len() - 1] == s.last());
                }
            }
        }
    }
}

/// The sorted years are ascending.
pub proof fn lemma_sort_years_sorted(s: Seq<Year>)
    ensures
        forall|i: int, j: int|
            0 <= i < j < sort_years(s).len() ==> #[trigger] sort_years(s)[i]
                <= #[trigger] sort_years(s)[j],
    decreases s.len(),
{
    if s.len() > 0 {
        lemma_sort_years_sorted(s.drop_last());
        lemma_insert_year_sorted(sort_years(s.drop_last()), s.last());
    }
}

/// Sorting the years keeps exactly the same years.
pub proof fn lemma_sort_years_permutes(s: Seq<Year>)
    ensures
        sort_years(s).to_multiset() == s.to_multiset(),
        sort_years(s).len() == s.len(),
    decreases s.len(),
{
    broadcast use vstd::seq_lib::group_to_multiset_ensures;

    if s.len() > 0 {
        lemma_sort_years_permutes(s.drop_last());
        lemma_insert_year_multiset(sort_years(s.drop_last()), s.last());
        lemma_insert_year_elems(sort_years(s.drop_last()), s.last());
        assert(s.drop_last().push(s.last()) =~= s);
    }
}

proof fn lemma_insert_year_multiset(s: Seq<Year>, y: Year)
    ensures
        insert_year_sorted(s, y).to_multiset() == s.to_multiset().insert(y),
    decreases s.len(),
{
    broadcast use vstd::seq_lib::group_to_multiset_ensures;

    if s.len() > 0 && s.last() > y {
        lemma_insert_year_multiset(s.drop_last(), y);
        assert(s.drop_last().push(s.last()) =~= s);
        assert(s.drop_last().to_multiset().insert(y).insert(s.last())
            =~= s.drop_last().to_multiset().insert(s.last()).insert(y));
    }
}

/// Inserts a year at its sorted place.
fn insert_year(out: &mut Vec<Year>, y: Year)
    ensures
        final(out)@ == insert_year_sorted(old(out)@, y),
{
    let mut pos = out.len();
    let mut scanning = true;
    while scanning && pos > 0
        invariant
            pos <= out@.len(),
            out@ == old(out)@,
            forall|j: int| pos <= j < out@.len() ==> #[trigger] out@[j] > y,
            !scanning ==> pos > 0 && out@[pos - 1] <= y,
        decreases pos + (if scanning {
            1int
        } else {
            0int
        }),
    {
        if out[pos - 1] <= y {
            scanning = false;
        } else {
            pos = pos - 1;
        }
    }
    let ghost orig = out@;
    let ghost gpos = pos as int;
    out.insert(pos, y);
    proof {
        lemma_insert_year_shape(orig, y, gpos);
        assert(orig.insert(gpos, y) =~= orig.subrange(0, gpos) + seq![y] + orig.subrange(
            gpos,
            orig.len() as int,
        ));
    }
}

/// The position of the first entry whose stem equals the name.
fn find_by_stem(entries: &Vec<FsPath>, name: &str) -> (r: Option<usize>)
    ensures
        match r {
            Some(i) => i < entries@.len() && first_match(entries@, stem_pred(name@)) == Some(
                entries@[i as int],
            ),
            None => first_match(entries@, stem_pred(name@)) is None,
        },
{
    let ghost whole = entries@;
    let ghost pred = stem_pred(name@);
    let mut i: usize = 0;
    let n = entries.len();
    proof {
        assert(whole.skip(0) =~= whole);
    }
    while i < n
        invariant
            pred == stem_pred(name@),
            whole == entries@,
            n == whole.len(),
            i <= n,
            first_match(whole, pred) == first_match(whole.skip(i as int), pred),
        decreases n - i,
    {
        let p = &entries[i];
        proof {
            assert(whole.skip(i as int)[0] == whole[i as int]);
            assert(whole.skip(i as int).skip(1) =~= whole.skip(i + 1));
        }
        let matched = match p.file_stem() {
            Some(s) => crate::paths::string_eq(&s, &name.to_owned()),
            None => name.unicode_len() == 0,
        };
        proof {
            assert(matched == pred(whole[i as int]));
        }
        if matched {
            return Some(i);
        }
        i = i + 1;
    }
    proof {
        assert(whole.skip(i as int).len() == 0);
    }
    None
}

/// The position of the first entry whose final component equals the name.
fn find_by_file_name(entries: &Vec<FsPath>, wanted: &str) -> (r: Option<usize>)
    ensures
        match r {
            Some(i) => i < entries@.len() && first_match(entries@, name_file_pred(wanted@)) == Some(
                entries@[i as int],
            ),
            None => first_match(entries@, name_file_pred(wanted@)) is None,
        },
{
    let ghost whole = entries@;
    let ghost pred = name_file_pred(wanted@);
    let mut i: usize = 0;
    let n = entries.len();
    proof {
        assert(whole.skip(0) =~= whole);
    }
    while i < n
        invariant
            pred == name_file_pred(wanted@),
            whole == entries@,
            n == whole.len(),
            i <= n,
            first_match(whole, pred) == first_match(whole.skip(i as int), pred),
        decreases n - i,
    {
        let p = &entries[i];
        proof {
            assert(whole.skip(i as int)[0] == whole[i as int]);
            assert(whole.skip(i as int).skip(1) =~= whole.skip(i + 1));
        }
        let matched = match p.file_name() {
            Some(name) => crate::paths::string_eq(&name, &wanted.to_owned()),
            None => false,
        };
        proof {
            assert(matched == pred(whole[i as int]));
        }
        if matched {
            return Some(i);
        }
        i = i + 1;
    }
    proof {
        assert(whole.skip(i as int).len() == 0);
    }
    None
}

/// The directory name a record archives under: `prefix_ident` when the
/// record declares a prefix, else its plain identity.
pub open spec fn archive_name_spec<L: Storable>(p: L) -> Seq<char> {
    match p.prefix_spec() {
        Some(pre) => pre + seq!['_'] + p.ident_spec(),
        None => p.ident_spec(),
    }
}

/// Entries whose final component equals the given file name.
pub open spec fn name_file_pred(file_name: Seq<char>) -> spec_fn(FsPath) -> bool {
    |p: FsPath|
        match p@.file_name() {
            Some(n) => n == file_name,
            None => false,
        }
}

/// Whether a path's parent is named after a year.
pub open spec fn parent_is_year(m: PathModel) -> bool {
    m.has_parent() && match m.parent().file_stem() {
        Some(s) => crate::numbers::parse_i32_spec(s) is Some,
        None => false,
    }
}

/// What the application observed about one archived record directory: the
/// directory's entries and whether the working-directory slot the record
/// would return to is already occupied.
pub struct UnarchiveFacts {
    pub entries: Vec<FsPath>,
    pub target_exists: bool,
}

/// A version-control side-channel attached to a store.
///
/// The engine never inspects the repository; it only remembers where it
/// is rooted and which paths must be staged after moves.  Running the
/// version-control commands is the application layer's work.
#[derive(Debug, Clone)]
pub struct Repository {
    root: FsPath,
}

impl Repository {
    pub closed spec fn root_spec(self) -> PathModel {
        self.root@
    }

    pub fn try_new(root: &FsPath) -> (r: Repository)
        ensures
            r.root_spec() == root@,
    {
        Repository { root: root.duplicate() }
    }

    pub fn root(&self) -> (r: &FsPath)
        ensures
            r@ == self.root_spec(),
    {
        &self.root
    }
}

/// The raw entries listed for a year's partition: those of the first
/// listing carrying that year, or nothing when the partition is missing.
pub open spec fn year_listing(years: Seq<(Year, Vec<FsPath>)>, y: Year) -> Seq<FsPath>
    decreases years.len(),
{
    if years.len() == 0 {
        Seq::empty()
    } else if years[0].0 == y {
        years[0].1@
    } else {
        year_listing(years.skip(1), y)
    }
}

/// Every partition's visible entries, in the order the listings come.
pub open spec fn all_folders_spec(years: Seq<(Year, Vec<FsPath>)>) -> Seq<FsPath>
    decreases years.len(),
{
    if years.len() == 0 {
        Seq::empty()
    } else {
        years[0].1@.filter(visible_pred()) + all_folders_spec(years.skip(1))
    }
}

/// Which of the required directories exist on disk right now.
#[derive(Debug, Clone, Copy, PartialEq, Eq, Structural)]
pub struct DirsPresent {
    pub root: bool,
    pub working: bool,
    pub archive: bool,
    pub templates: bool,
}

impl DirsPresent {
    pub open spec fn all(self) -> bool {
        self.root && self.working && self.archive && self.templates
    }
}

/// The configured paths of a store, for callers that report them.
#[derive(Debug)]
pub struct Paths {
    pub storage: FsPath,
    pub working: FsPath,
    pub archive: FsPath,
    pub templates: FsPath,
}

/// Manages record storage: working records, archive partitions, templates
/// and the optional version-control side-channel.
#[derive(Debug)]
pub struct Storage<L: Storable> {
    /// Root of the entire structure.
    root: FsPath,
    /// Where active record directories live.
    working: FsPath,
    /// Where year partitions live, each holding archived record
    /// directories.
    archive: FsPath,
    /// Where template files live.
    templates: FsPath,
    /// Where extra files live.
    extras: FsPath,
    /// Extension of a template file.
    template_extension: String,
    project_type: core::marker::PhantomData<L>,
    repository: Option<Repository>,
}

impl<L: Storable> Storage<L> {
    pub closed spec fn root_spec(self) -> PathModel {
        self.root@
    }

    pub closed spec fn working_spec(self) -> PathModel {
        self.working@
    }

    pub closed spec fn archive_spec(self) -> PathModel {
        self.archive@
    }

    pub closed spec fn templates_spec(self) -> PathModel {
        self.templates@
    }

    pub closed spec fn extras_spec(self) -> PathModel {
        self.extras@
    }

    pub closed spec fn template_ext_spec(self) -> Seq<char> {
        self.template_extension@
    }

    /// The attached repository's root, when one is attached.
    pub closed spec fn repository_spec(self) -> Option<PathModel> {
        match self.repository {
            Some(r) => Some(r.root_spec()),
            None => None,
        }
    }

    /// A healthy store: every configured path is absolute.
    pub open spec fn wf(self) -> bool {
        &&& self.root_spec().absolute
        &&& self.working_spec().absolute
        &&& self.archive_spec().absolute
        &&& self.templates_spec().absolute
        &&& self.extras_spec().absolute
    }

    /// Builds a store under an absolute root; the named children and the
    /// `extras` directory hang directly below it.
    pub fn try_new(
        root: &FsPath,
        working: &str,
        archive: &str,
        template: &str,
        template_extension: &str,
    ) -> (r: Result<Self, StorageError>)
        ensures
            match r {
                Ok(s) => {
                    &&& root@.absolute
                    &&& s.wf()
                    &&& s.root_spec() == root@
                    &&& s.working_spec() == root@.join(working@)
                    &&& s.archive_spec() == root@.join(archive@)
                    &&& s.templates_spec() == root@.join(template@)
                    &&& s.extras_spec() == root@.join("extras"@)
                    &&& s.template_ext_spec() == template_extension@
                    &&& s.repository_spec() is None
                },
                Err(e) => e == StorageError::StoragePathNotAbsolute && !root@.absolute,
            },
    {
        if root.is_absolute() {
            Ok(
                Storage {
                    root: root.duplicate(),
                    working: root.join(working),
                    archive: root.join(archive),
                    templates: root.join(template),
                    extras: root.join("extras"),
                    template_extension: template_extension.to_owned(),
                    project_type: core::marker::PhantomData,
                    repository: None,
                },
            )
        } else {
            Err(StorageError::StoragePathNotAbsolute)
        }
    }

    /// Builds a store with the version-control side-channel attached,
    /// rooted at the store's root.
    pub fn try_new_with_git(
        root: &FsPath,
        working: &str,
        archive: &str,
        template: &str,
        template_extension: &str,
    ) -> (r: Result<Self, StorageError>)
        ensures
            match r {
                Ok(s) => {
                    &&& root@.absolute
                    &&& s.wf()
                    &&& s.root_spec() == root@
                    &&& s.working_spec() == root@.join(working@)
                    &&& s.archive_spec() == root@.join(archive@)
                    &&& s.templates_spec() == root@.join(template@)
                    &&& s.extras_spec() == root@.join("extras"@)
                    &&& s.template_ext_spec() == template_extension@
                    &&& s.repository_spec() == Some(root@)
                },
                Err(e) => e == StorageError::StoragePathNotAbsolute && !root@.absolute,
            },
    {
        let mut s = Self::try_new(root, working, archive, template, template_extension)?;
        s.repository = Some(Repository::try_new(root));
        Ok(s)
    }

    /// Checks that the folder structure is as it is supposed to be: the
    /// root, working, archive and template directories must all exist.
    pub fn health_check(&self, present: &DirsPresent) -> (r: Result<(), StorageError>)
        ensures
            r is Ok <==> present.all(),
            r is Err ==> r == Err::<(), StorageError>(StorageError::InvalidDirStructure),
    {
        if present.root && present.working && present.archive && present.templates {
            Ok(())
        } else {
            Err(StorageError::InvalidDirStructure)
        }
    }

    pub fn root_dir(&self) -> (r: &FsPath)
        ensures
            r@ == self.root_spec(),
    {
        &self.root
    }

    pub fn working_dir(&self) -> (r: &FsPath)
        ensures
            r@ == self.working_spec(),
    {
        &self.working
    }

    pub fn archive_dir(&self) -> (r: &FsPath)
        ensures
            r@ == self.archive_spec(),
    {
        &self.archive
    }

    pub fn templates_dir(&self) -> (r: &FsPath)
        ensures
            r@ == self.templates_spec(),
    {
        &self.templates
    }

    pub fn extras_dir(&self) -> (r: &FsPath)
        ensures
            r@ == self.extras_spec(),
    {
        &self.extras
    }

    pub fn repository(&self) -> (r: Option<&Repository>)
        ensures
            match r {
                Some(repo) => self.repository_spec() == Some(repo.root_spec()),
                None => self.repository_spec() is None,
            },
    {
        self.repository.as_ref()
    }

    /// The attached repository, or the error that says none was attached.
    pub fn get_repository(&self) -> (r: Result<&Repository, StorageError>)
        ensures
            match r {
                Ok(repo) => self.repository_spec() == Some(repo.root_spec()),
                Err(e) => e == StorageError::RepoUninitialized && self.repository_spec() is None,
            },
    {
        match self.repository.as_ref() {
            Some(repo) => Ok(repo),
            None => Err(StorageError::RepoUninitialized),
        }
    }

    /// All configured paths of this store.
    pub fn paths(&self) -> (r: Paths)
        ensures
            r.storage@ == self.root_spec(),
            r.working@ == self.working_spec(),
            r.archive@ == self.archive_spec(),
            r.templates@ == self.templates_spec(),
    {
        Paths {
            storage: self.root.duplicate(),
            working: self.working.duplicate(),
            archive: self.archive.duplicate(),
            templates: self.templates.duplicate(),
        }
    }

    /// The directories a `create_dirs` run must create: of root, working,
    /// archive and templates, those that are absent, in that order.
    pub open spec fn create_dirs_spec(self, present: DirsPresent) -> Seq<PathModel> {
        (if !present.root {
            seq![self.root_spec()]
        } else {
            Seq::empty()
        }) + (if !present.working {
            seq![self.working_spec()]
        } else {
            Seq::empty()
        }) + (if !present.archive {
            seq![self.archive_spec()]
        } else {
            Seq::empty()
        }) + (if !present.templates {
            seq![self.templates_spec()]
        } else {
            Seq::empty()
        })
    }

    /// Plans the creation of the basic directory structure: the returned
    /// directories are the absent ones, in creation order.  Creating them
    /// and running the plan again yields an empty plan — the operation is
    /// idempotent.
    pub fn create_dirs(&self, present: &DirsPresent) -> (r: Result<Vec<FsPath>, StorageError>)
        ensures
            match r {
                Ok(plan) => self.root_spec().absolute && plan.deep_view() == self.create_dirs_spec(
                    *present,
                ),
                Err(e) => e == StorageError::StoragePathNotAbsolute && !self.root_spec().absolute,
            },
    {
        if !self.root.is_absolute() {
            return Err(StorageError::StoragePathNotAbsolute);
        }
        let mut plan: Vec<FsPath> = Vec::new();
        if !present.root {
            plan.push(self.root.duplicate());
        }
        if !present.working {
            plan.push(self.working.duplicate());
        }
        if !present.archive {
            plan.push(self.archive.duplicate());
        }
        if !present.templates {
            plan.push(self.templates.duplicate());
        }
        proof {
            assert(plan.deep_view() =~= self.create_dirs_spec(*present));
        }
        Ok(plan)
    }

    /// After the planned directories are created, nothing is left to
    /// create: planning again returns the empty plan.
    pub proof fn lemma_create_dirs_idempotent(self, present: DirsPresent, after: DirsPresent)
        requires
            after.root == (present.root || self.create_dirs_spec(present).contains(
                self.root_spec(),
            )),
            after.working == (present.working || self.create_dirs_spec(present).contains(
                self.working_spec(),
            )),
            after.archive == (present.archive || self.create_dirs_spec(present).contains(
                self.archive_spec(),
            )),
            after.templates == (present.templates || self.create_dirs_spec(present).contains(
                self.templates_spec(),
            )),
        ensures
            self.create_dirs_spec(after) == Seq::<PathModel>::empty(),
    {
        let plan = self.create_dirs_spec(present);
        if !present.root {
            assert(plan.contains(self.root_spec())) by {
                assert(plan[0] == self.root_spec());
            }
        }
        if !present.working {
            let i = if present.root {
                0int
            } else {
                1int
            };
            assert(plan[i] == self.working_spec());
        }
        if !present.archive {
            let i = (if present.root {
                0int
            } else {
                1int
            }) + (if present.working {
                0int
            } else {
                1int
            });
            assert(plan[i] == self.archive_spec());
        }
        if !present.templates {
            let i = (if present.root {
                0int
            } else {
                1int
            }) + (if present.working {
                0int
            } else {
                1int
            }) + (if present.archive {
                0int
            } else {
                1int
            });
            assert(plan[i] == self.templates_spec());
        }
        assert(self.create_dirs_spec(after) =~= Seq::<PathModel>::empty());
    }

    /// The path of a year's archive partition.
    pub open spec fn partition_spec(self, year: Year) -> PathModel {
        self.archive_spec().join(int_to_dec_str(year as int))
    }

    /// Plans an archive partition for a year: returns its path and
    /// whether it still has to be created.  The archive root must already
    /// exist.
    pub fn create_archive(&self, year: Year, partition_present: bool) -> (r: (FsPath, bool))
        ensures
            r.0@ == self.partition_spec(year),
            r.1 == !partition_present,
    {
        let ys = year_string(year);
        (self.archive.join(ys.as_str()), !partition_present)
    }

    /// The path an extra file of the given name would have.
    pub fn get_extra_file(&self, name: &str) -> (r: FsPath)
        ensures
            r@ == self.extras_spec().join(name@),
    {
        self.extras.join(name)
    }

    /// The template files among a listing of the template directory: the
    /// entries carrying the configured template extension.  A store with
    /// no template files is an error.
    pub fn list_template_files(&self, entries: Vec<FsPath>) -> (r: Result<
        Vec<FsPath>,
        StorageError,
    >)
        ensures
            match r {
                Ok(files) => files@ == entries@.filter(ext_pred(self.template_ext_spec()))
                    && files@.len() > 0,
                Err(e) => e == StorageError::TemplateNotFound && entries@.filter(
                    ext_pred(self.template_ext_spec()),
                ).len() == 0,
            },
    {
        let files = filter_by_extension(entries, self.template_extension.as_str());
        if files.len() == 0 {
            Err(StorageError::TemplateNotFound)
        } else {
            Ok(files)
        }
    }

    /// The names (stems) of the template files, in order.
    pub fn list_template_names(&self, entries: Vec<FsPath>) -> (r: Result<
        Vec<String>,
        StorageError,
    >)
        ensures
            match r {
                Ok(names) => {
                    let files = entries@.filter(ext_pred(self.template_ext_spec()));
                    files.len() > 0 && names.deep_view() == files.filter(
                        has_stem_pred(),
                    ).map_values(stem_fn())
                },
                Err(e) => e == StorageError::TemplateNotFound && entries@.filter(
                    ext_pred(self.template_ext_spec()),
                ).len() == 0,
            },
    {
        let files = self.list_template_files(entries)?;
        let ghost fseq = files@;
        let ghost pred = has_stem_pred();
        let ghost f = stem_fn();
        let mut rest = files;
        let mut out: Vec<String> = Vec::new();
        let n = rest.len();
        proof {
            reveal(Seq::filter);
            assert(fseq.len() == n);
            assert(fseq.take(0) =~= Seq::<FsPath>::empty());
            assert(out.deep_view() =~= fseq.take(0).filter(pred).map_values(f));
        }
        let mut i: usize = 0;
        while rest.len() > 0
            invariant
                pred == has_stem_pred(),
                f == stem_fn(),
                i <= fseq.len(),
                fseq.len() <= usize::MAX,
                rest@ == fseq.skip(i as int),
                out.deep_view() == fseq.take(i as int).filter(pred).map_values(f),
            decreases rest.len(),
        {
            let p = rest.remove(0);
            proof {
                assert(p == fseq[i as int]);
                assert(rest@ =~= fseq.skip(i + 1));
                reveal(Seq::filter);
                assert(fseq.take(i + 1).drop_last() =~= fseq.take(i as int));
                assert(fseq.take(i + 1).last() == p);
            }
            let ghost prev = out.deep_view();
            match p.file_stem() {
                Some(s) => {
                    out.push(s);
                    proof {
                        assert(out.deep_view() =~= prev.push(stem_or_empty(p@)));
                        assert(fseq.take(i as int).filter(pred).push(p).map_values(f)
                            =~= fseq.take(i as int).filter(pred).map_values(f).push(f(p)));
                    }
                },
                None => (),
            }
            proof {
                assert(out.deep_view() =~= fseq.take(i + 1).filter(pred).map_values(f));
            }
            i = i + 1;
        }
        proof {
            assert(fseq.take(i as int) =~= fseq);
        }
        Ok(out)
    }

    /// The template file of the given name: the first template file whose
    /// stem equals the name.
    pub fn get_template_file(&self, name: &str, entries: Vec<FsPath>) -> (r: Result<
        FsPath,
        StorageError,
    >)
        ensures
            ({
                let files = entries@.filter(ext_pred(self.template_ext_spec()));
                match r {
                    Ok(file) => files.len() > 0 && first_match(files, stem_pred(name@)) == Some(
                        file,
                    ),
                    Err(e) => e == StorageError::TemplateNotFound && (files.len() == 0
                        || first_match(files, stem_pred(name@)) is None),
                }
            }),
    {
        let mut files = self.list_template_files(entries)?;
        match find_by_stem(&files, name) {
            Some(i) => Ok(files.remove(i)),
            None => Err(StorageError::TemplateNotFound),
        }
    }

    /// The years for which there is an archive partition, ascending: the
    /// archive entries whose names parse as a year.
    pub fn list_years(&self, archive_entries: Vec<FsPath>) -> (r: Vec<Year>)
        ensures
            r@ == sort_years(years_of(archive_entries@)),
    {
        let ghost whole = archive_entries@;
        let ghost pred = has_year_pred();
        let ghost f = year_fn();
        let mut rest = archive_entries;
        let mut parsed: Vec<Year> = Vec::new();
        let n = rest.len();
        proof {
            reveal(Seq::filter);
            assert(whole.len() == n);
            assert(whole.take(0) =~= Seq::<FsPath>::empty());
            assert(parsed@ =~= whole.take(0).filter(pred).map_values(f));
        }
        let mut i: usize = 0;
        while rest.len() > 0
            invariant
                pred == has_year_pred(),
                f == year_fn(),
                i <= whole.len(),
                whole.len() <= usize::MAX,
                rest@ == whole.skip(i as int),
                parsed@ == whole.take(i as int).filter(pred).map_values(f),
            decreases rest.len(),
        {
            let p = rest.remove(0);
            proof {
                assert(p == whole[i as int]);
                assert(rest@ =~= whole.skip(i + 1));
                reveal(Seq::filter);
                assert(whole.take(i + 1).drop_last() =~= whole.take(i as int));
                assert(whole.take(i + 1).last() == p);
            }
            let ghost prev = parsed@;
            let stem = p.file_stem();
            match stem {
                Some(s) => {
                    match crate::numbers::parse_i32(s.as_str()) {
                        Some(y) => {
                            parsed.push(y);
                            proof {
                                assert(f(p) == y);
                                assert(whole.take(i as int).filter(pred).push(p).map_values(f)
                                    =~= whole.take(i as int).filter(pred).map_values(f).push(
                                    f(p),
                                ));
                            }
                        },
                        None => (),
                    }
                },
                None => (),
            }
            proof {
                assert(parsed@ =~= whole.take(i + 1).filter(pred).map_values(f));
            }
            i = i + 1;
        }
        proof {
            assert(whole.take(i as int) =~= whole);
        }
        // insertion sort, ascending
        let ghost pseq = parsed@;
        let mut rest2 = parsed;
        let mut out: Vec<Year> = Vec::new();
        let n2 = rest2.len();
        proof {
            assert(pseq.len() == n2);
            assert(pseq.take(0) =~= Seq::<Year>::empty());
            assert(out@ =~= sort_years(pseq.take(0)));
        }
        let mut j: usize = 0;
        while rest2.len() > 0
            invariant
                j <= pseq.len(),
                pseq.len() <= usize::MAX,
                rest2@ == pseq.skip(j as int),
                out@ == sort_years(pseq.take(j as int)),
            decreases rest2.len(),
        {
            let y = rest2.remove(0);
            proof {
                assert(y == pseq[j as int]);
                assert(rest2@ =~= pseq.skip(j + 1));
            }
            insert_year(&mut out, y);
            proof {
                assert(pseq.take(j + 1).drop_last() =~= pseq.take(j as int));
                assert(pseq.take(j + 1).last() == pseq[j as int]);
            }
            j = j + 1;
        }
        proof {
            assert(pseq.take(j as int) =~= pseq);
        }
        out
    }

    /// The visible record folders of the chosen part of the store.  Only
    /// the working directory, one year's partition, or the whole store can
    /// be asked for folders; a missing partition lists as empty.
    pub fn list_project_folders(
        &self,
        directory: StorageDir,
        working_entries: Vec<FsPath>,
        year_listings: Vec<(Year, Vec<FsPath>)>,
    ) -> (r: Result<Vec<FsPath>, StorageError>)
        ensures
            match directory {
                StorageDir::Working => r matches Ok(folders) && folders@
                    == working_entries@.filter(visible_pred()),
                StorageDir::Archive(y) => r matches Ok(folders) && folders@ == year_listing(
                    year_listings@,
                    y,
                ).filter(visible_pred()),
                StorageDir::All => r matches Ok(folders) && folders@ == all_folders_spec(
                    year_listings@,
                ) + working_entries@.filter(visible_pred()),
                _ => r == Err::<Vec<FsPath>, StorageError>(StorageError::BadChoice),
            },
    {
        match directory {
            StorageDir::Working => Ok(filter_hidden(working_entries)),
            StorageDir::Archive(year) => {
                let ghost yearsq = year_listings@;
                let mut years = year_listings;
                proof {
                    assert(yearsq.skip(0) =~= yearsq);
                }
                let mut i: usize = 0;
                let n = years.len();
                while i < n
                    invariant
                        directory == StorageDir::Archive(year),
                        yearsq == year_listings@,
                        yearsq == years@,
                        n == yearsq.len(),
                        i <= n,
                        year_listing(yearsq, year) == year_listing(yearsq.skip(i as int), year),
                    decreases n - i,
                {
                    proof {
                        assert(yearsq.skip(i as int)[0] == yearsq[i as int]);
                        assert(yearsq.skip(i as int).skip(1) =~= yearsq.skip(i + 1));
                    }
                    if years[i].0 == year {
                        let (_, entries) = years.remove(i);
                        proof {
                            assert(year_listing(yearsq.skip(i as int), year) == yearsq.skip(
                                i as int,
                            )[0].1@);
                            assert(yearsq.skip(i as int)[0] == yearsq[i as int]);
                            assert(entries@ == yearsq[i as int].1@);
                            assert(year_listing(yearsq, year) == entries@);
                        }
                        let folders = filter_hidden(entries);
                        proof {
                            assert(folders@ == year_listing(yearsq, year).filter(visible_pred()));
                        }
                        return Ok(folders);
                    }
                    i = i + 1;
                }
                proof {
                    assert(year_listing(yearsq.skip(i as int), year) =~= Seq::<FsPath>::empty());
                    assert(Seq::<FsPath>::empty().filter(visible_pred())
                        =~= Seq::<FsPath>::empty()) by {
                        reveal(Seq::filter);
                    }
                }
                Ok(Vec::new())
            },
            StorageDir::All => {
                let ghost yearsq = year_listings@;
                let mut rest = year_listings;
                let mut all: Vec<FsPath> = Vec::new();
                let n = rest.len();
                proof {
                    assert(yearsq.len() == n);
                    assert(yearsq.skip(0) =~= yearsq);
                    assert(all@ + all_folders_spec(yearsq.skip(0)) =~= all_folders_spec(yearsq));
                }
                let mut i: usize = 0;
                while rest.len() > 0
                    invariant
                        i <= yearsq.len(),
                        yearsq.len() <= usize::MAX,
                        rest@ == yearsq.skip(i as int),
                        all_folders_spec(yearsq) == all@ + all_folders_spec(yearsq.skip(i as int)),
                    decreases rest.len(),
                {
                    let (_, entries) = rest.remove(0);
                    proof {
                        assert(yearsq.skip(i as int)[0] == yearsq[i as int]);
                        assert(rest@ =~= yearsq.skip(i + 1));
                    }
                    let mut part = filter_hidden(entries);
                    let ghost prev = all@;
                    all.append(&mut part);
                    proof {
                        assert(all@ + all_folders_spec(yearsq.skip(i + 1)) =~= prev
                            + all_folders_spec(yearsq.skip(i as int)));
                    }
                    i = i + 1;
                }
                let mut work = filter_hidden(working_entries);
                let ghost prev = all@;
                all.append(&mut work);
                proof {
                    assert(all_folders_spec(yearsq.skip(i as int)) =~= Seq::<FsPath>::empty());
                    assert(prev =~= all_folders_spec(yearsq));
                }
                Ok(all)
            },
            _ => Err(StorageError::BadChoice),
        }
    }

    /// The record file inside a folder: the first entry carrying the
    /// record type's extension.  A folder without one holds no valid
    /// record.
    pub fn get_project_file(&self, entries: Vec<FsPath>) -> (r: Result<FsPath, StorageError>)
        ensures
            match r {
                Ok(file) => first_match(entries@, ext_pred(L::ext_spec())) == Some(file),
                Err(e) => e == StorageError::ProjectDoesNotExist && first_match(
                    entries@,
                    ext_pred(L::ext_spec()),
                ) is None,
            },
    {
        let ext = L::file_extension();
        let mut entries = entries;
        match find_by_extension(&entries, ext.as_str()) {
            Some(i) => Ok(entries.remove(i)),
            None => Err(StorageError::ProjectDoesNotExist),
        }
    }

    /// The name a record folder unarchives under: the stem of its record
    /// file.
    fn get_project_name(&self, entries: Vec<FsPath>) -> (r: Result<String, StorageError>)
        ensures
            match r {
                Ok(name) => (match first_match(entries@, ext_pred(L::ext_spec())) {
                    Some(file) => file@.file_stem() == Some(name@),
                    None => false,
                }),
                Err(e) => match first_match(entries@, ext_pred(L::ext_spec())) {
                    Some(file) => e == StorageError::BadProjectFileName
                        && file@.file_stem() is None,
                    None => e == StorageError::ProjectDoesNotExist,
                },
            },
    {
        let file = self.get_project_file(entries)?;
        match file.file_stem() {
            Some(stem) => Ok(stem),
            None => Err(StorageError::BadProjectFileName),
        }
    }

    /// The folders among the given ones whose contents hold no record
    /// file, from position `i` on: the "empty" record directories.
    pub open spec fn empty_dirs_spec(
        self,
        folders: Seq<FsPath>,
        contents: Seq<Vec<FsPath>>,
        i: int,
    ) -> Seq<FsPath>
        decreases folders.len() - i,
    {
        if i < 0 || i >= folders.len() {
            Seq::empty()
        } else {
            let rest = self.empty_dirs_spec(folders, contents, i + 1);
            if first_match(contents[i]@, ext_pred(L::ext_spec())) is None {
                seq![folders[i]] + rest
            } else {
                rest
            }
        }
    }

    /// Keeps the folders that hold no record file, given each folder's
    /// entries.
    pub fn list_empty_project_dirs(&self, folders: Vec<FsPath>, contents: Vec<Vec<FsPath>>) -> (r:
        Vec<FsPath>)
        requires
            folders@.len() == contents@.len(),
        ensures
            r@ == self.empty_dirs_spec(folders@, contents@, 0),
    {
        let ghost fwhole = folders@;
        let ghost cwhole = contents@;
        let mut frest = folders;
        let mut crest = contents;
        let mut out: Vec<FsPath> = Vec::new();
        let n = frest.len();
        proof {
            assert(fwhole.len() == n);
            assert(out@ + self.empty_dirs_spec(fwhole, cwhole, 0) =~= self.empty_dirs_spec(
                fwhole,
                cwhole,
                0,
            ));
        }
        let mut i: usize = 0;
        while frest.len() > 0
            invariant
                i <= fwhole.len() == cwhole.len(),
                fwhole.len() <= usize::MAX,
                frest@ == fwhole.skip(i as int),
                crest@ == cwhole.skip(i as int),
                self.empty_dirs_spec(fwhole, cwhole, 0) == out@ + self.empty_dirs_spec(
                    fwhole,
                    cwhole,
                    i as int,
                ),
            decreases frest.len(),
        {
            let folder = frest.remove(0);
            let entries = crest.remove(0);
            proof {
                assert(folder == fwhole[i as int]);
                assert(entries == cwhole[i as int]);
                assert(frest@ =~= fwhole.skip(i + 1));
                assert(crest@ =~= cwhole.skip(i + 1));
            }
            let ghost prev = out@;
            let ext = L::file_extension();
            match find_by_extension(&entries, ext.as_str()) {
                Some(_) => (),
                None => {
                    out.push(folder);
                },
            }
            proof {
                assert(out@ + self.empty_dirs_spec(fwhole, cwhole, i + 1) =~= prev
                    + self.empty_dirs_spec(fwhole, cwhole, i as int));
            }
            i = i + 1;
        }
        proof {
            assert(self.empty_dirs_spec(fwhole, cwhole, i as int).len() == 0);
        }
        out
    }

    /// The record files of the given folders, or the first failure: a
    /// folder without a record file fails the whole listing.
    pub open spec fn project_files_spec(self, contents: Seq<Vec<FsPath>>, i: int) -> Result<
        Seq<FsPath>,
        StorageError,
    >
        decreases contents.len() - i,
    {
        if i < 0 || i >= contents.len() {
            Ok(Seq::empty())
        } else {
            match first_match(contents[i]@, ext_pred(L::ext_spec())) {
                None => Err(StorageError::ProjectDoesNotExist),
                Some(f) => match self.project_files_spec(contents, i + 1) {
                    Ok(rest) => Ok(seq![f] + rest),
                    Err(e) => Err(e),
                },
            }
        }
    }

    /// The record file of every folder, in order, given each folder's
    /// entries; a folder lacking one fails the listing.
    pub fn list_project_files(&self, contents: Vec<Vec<FsPath>>) -> (r: Result<
        Vec<FsPath>,
        StorageError,
    >)
        ensures
            ({
                let spec_r = self.project_files_spec(contents@, 0);
                match r {
                    Ok(files) => spec_r == Ok::<Seq<FsPath>, StorageError>(files@),
                    Err(e) => spec_r == Err::<Seq<FsPath>, StorageError>(e),
                }
            }),
    {
        let ghost cwhole = contents@;
        let mut crest = contents;
        let mut out: Vec<FsPath> = Vec::new();
        let n = crest.len();
        proof {
            assert(cwhole.len() == n);
        }
        let mut i: usize = 0;
        while crest.len() > 0
            invariant
                cwhole == contents@,
                i <= cwhole.len(),
                cwhole.len() <= usize::MAX,
                crest@ == cwhole.skip(i as int),
                match self.project_files_spec(cwhole, i as int) {
                    Ok(res) => self.project_files_spec(cwhole, 0) == Ok::<
                        Seq<FsPath>,
                        StorageError,
                    >(out@ + res),
                    Err(e) => self.project_files_spec(cwhole, 0) == Err::<
                        Seq<FsPath>,
                        StorageError,
                    >(e),
                },
            decreases crest.len(),
        {
            let mut entries = crest.remove(0);
            proof {
                assert(entries == cwhole[i as int]);
                assert(crest@ =~= cwhole.skip(i + 1));
            }
            let ghost prev = out@;
            let file = match self.get_project_file(entries) {
                Ok(f) => f,
                Err(e) => {
                    proof {
                        assert(self.project_files_spec(cwhole, i as int) == Err::<
                            Seq<FsPath>,
                            StorageError,
                        >(StorageError::ProjectDoesNotExist));
                    }
                    return Err(e);
                },
            };
            out.push(file);
            proof {
                match self.project_files_spec(cwhole, i + 1) {
                    Ok(res) => {
                        assert(self.project_files_spec(cwhole, i as int) == Ok::<
                            Seq<FsPath>,
                            StorageError,
                        >(seq![file] + res));
                        assert(prev + (seq![file] + res) =~= out@ + res);
                    },
                    Err(_e) => {},
                }
            }
            i = i + 1;
        }
        proof {
            assert(self.project_files_spec(cwhole, i as int) == Ok::<Seq<FsPath>, StorageError>(
                Seq::empty(),
            ));
            assert(out@ + Seq::<FsPath>::empty() =~= out@);
        }
        Ok(out)
    }

    /// Keeps the record files the caller's filter accepts.  The filter is
    /// the caller's own code, so only this much is promised: everything
    /// kept came from the given files and was accepted by some call of
    /// the filter.
    pub fn filter_project_files<F: Fn(&FsPath) -> bool>(&self, files: Vec<FsPath>, filter: F) -> (r:
        Vec<FsPath>)
        requires
            forall|p: &FsPath| #[trigger] filter.requires((p,)),
        ensures
            r@.len() <= files@.len(),
            forall|i: int|
                0 <= i < r@.len() ==> files@.contains(#[trigger] r@[i]) && filter.ensures(
                    (&r@[i],),
                    true,
                ),
    {
        let ghost whole = files@;
        let mut rest = files;
        let mut out: Vec<FsPath> = Vec::new();
        let n = rest.len();
        proof {
            assert(whole.len() == n);
        }
        let mut i: usize = 0;
        while rest.len() > 0
            invariant
                forall|p: &FsPath| #[trigger] filter.requires((p,)),
                i <= whole.len(),
                whole.len() <= usize::MAX,
                rest@ == whole.skip(i as int),
                out@.len() <= i,
                forall|j: int|
                    0 <= j < out@.len() ==> whole.contains(#[trigger] out@[j]) && filter.ensures(
                        (&out@[j],),
                        true,
                    ),
            decreases rest.len(),
        {
            let p = rest.remove(0);
            proof {
                assert(p == whole[i as int]);
                assert(rest@ =~= whole.skip(i + 1));
            }
            if filter(&p) {
                out.push(p);
            }
            i = i + 1;
        }
        out
    }

    /// Plans the archival of a record into a year's partition: the record
    /// directory is renamed to `archive/<year>/<[prefix_]ident>`.  Returns
    /// the old and the new path, in that order; the application performs
    /// the rename and notifies the version-control side-channel.
    pub fn archive_project(&self, project: &L, year: Year) -> (r: Vec<FsPath>)
        ensures
            r.deep_view() == seq![
                project.dir_spec(),
                self.partition_spec(year).join(archive_name_spec(*project)),
            ],
    {
        let name_in_archive = match project.prefix() {
            Some(pre) => pre.concat("_").concat(project.ident().as_str()),
            None => project.ident(),
        };
        proof {
            reveal_strlit("_");
            assert("_"@ =~= seq!['_']);
            assert(name_in_archive@ == archive_name_spec(*project));
        }
        let ys = year_string(year);
        let target = self.archive.join(ys.as_str()).join(name_in_archive.as_str());
        let mut moved: Vec<FsPath> = Vec::new();
        moved.push(project.dir());
        moved.push(target);
        proof {
            assert(moved.deep_view() =~= seq![
                project.dir_spec(),
                self.partition_spec(year).join(archive_name_spec(*project)),
            ]);
        }
        moved
    }

    /// Plans the archival of a working record found by name: the target is
    /// `archive/<year>/<[prefix_]slug>`.  The record's directory under
    /// working must exist, as the given flag reports.
    pub fn archive_project_by_name(
        &self,
        name: &str,
        year: Year,
        prefix: Option<String>,
        project_dir_present: bool,
    ) -> (r: Result<FsPath, StorageError>)
        ensures
            match r {
                Ok(target) => project_dir_present && target@ == self.partition_spec(year).join(
                    match prefix.deep_view() {
                        Some(pre) => pre + seq!['_'] + slug_of(name@),
                        None => slug_of(name@),
                    },
                ),
                Err(e) => e == StorageError::ProjectDoesNotExist && !project_dir_present,
            },
    {
        let slugged = slugify(name);
        let name_in_archive = match prefix {
            Some(pre) => pre.concat("_").concat(slugged.as_str()),
            None => slugged,
        };
        proof {
            reveal_strlit("_");
            assert("_"@ =~= seq!['_']);
        }
        let (partition, _create) = self.create_archive(year, true);
        let _folder = self.get_project_dir(name, StorageDir::Working, project_dir_present,
            Vec::new())?;
        Ok(partition.join(name_in_archive.as_str()))
    }

    /// Finds a concrete record directory: under working it is the slugged
    /// name, under a year's archive it is the parent of the record file
    /// named after the slug.  The flag reports whether the directory
    /// exists on disk.
    pub fn get_project_dir(
        &self,
        name: &str,
        directory: StorageDir,
        dir_present: bool,
        year_files: Vec<FsPath>,
    ) -> (r: Result<FsPath, StorageError>)
        ensures
            match directory {
                StorageDir::Working => match r {
                    Ok(p) => dir_present && p@ == self.working_spec().join(slug_of(name@)),
                    Err(e) => e == StorageError::ProjectDoesNotExist && !dir_present,
                },
                StorageDir::Archive(_y) => {
                    let found = first_match(
                        year_files@,
                        name_file_pred(slug_of(name@) + seq!['.'] + L::ext_spec()),
                    );
                    match r {
                        Ok(p) => dir_present && (match found {
                            Some(f) => f@.has_parent() && p@ == f@.parent(),
                            None => false,
                        }),
                        Err(e) => e == StorageError::ProjectDoesNotExist && (!dir_present
                            || found is None || (found matches Some(f) && !f@.has_parent())),
                    }
                },
                _ => r == Err::<FsPath, StorageError>(StorageError::BadChoice),
            },
    {
        match directory {
            StorageDir::Working => {
                if dir_present {
                    let slugged = slugify(name);
                    Ok(self.working.join(slugged.as_str()))
                } else {
                    Err(StorageError::ProjectDoesNotExist)
                }
            },
            StorageDir::Archive(_year) => {
                let slugged = slugify(name);
                let ext = L::file_extension();
                let wanted = slugged.concat(".").concat(ext.as_str());
                proof {
                    reveal_strlit(".");
                    assert("."@ =~= seq!['.']);
                    assert(wanted@ == slug_of(name@) + seq!['.'] + L::ext_spec());
                }
                let mut files = year_files;
                match find_by_file_name(&files, wanted.as_str()) {
                    Some(i) => {
                        let f = files.remove(i);
                        match f.parent() {
                            Some(parent) => {
                                if dir_present {
                                    Ok(parent)
                                } else {
                                    Err(StorageError::ProjectDoesNotExist)
                                }
                            },
                            None => Err(StorageError::ProjectDoesNotExist),
                        }
                    },
                    None => Err(StorageError::ProjectDoesNotExist),
                }
            },
            _ => Err(StorageError::BadChoice),
        }
    }

    /// What unarchiving a record directory must do or report, given the
    /// directory's entries and whether the working slot is occupied: the
    /// directory must hold a record file with a proper stem, the slot must
    /// be free, and the directory must sit strictly inside the archive
    /// under a year-named parent.
    pub open spec fn unarchive_spec(
        self,
        archived_dir: PathModel,
        entries: Seq<FsPath>,
        target_exists: bool,
    ) -> Result<PathModel, StorageError> {
        match first_match(entries, ext_pred(L::ext_spec())) {
            None => Err(StorageError::ProjectDoesNotExist),
            Some(file) => match file@.file_stem() {
                None => Err(StorageError::BadProjectFileName),
                Some(name) => if target_exists {
                    Err(StorageError::ProjectFileExists)
                } else if archived_dir.starts_with(self.archive_spec()) && archived_dir
                    != self.archive_spec() && parent_is_year(archived_dir) {
                    Ok(self.working_spec().join(name))
                } else {
                    Err(StorageError::InvalidDirStructure)
                },
            },
        }
    }

    /// Plans moving a record directory out of the archive back into the
    /// working directory.  The preconditions are checked, not assumed: a
    /// source that is the archive root itself, or lies outside it, or
    /// whose parent is not a year, is rejected with `InvalidDirStructure`;
    /// an occupied working slot with `ProjectFileExists`.
    pub fn unarchive_project_dir(
        &self,
        archived_dir: &FsPath,
        entries: Vec<FsPath>,
        target_exists: bool,
    ) -> (r: Result<FsPath, StorageError>)
        ensures
            ({
                let plan = self.unarchive_spec(archived_dir@, entries@, target_exists);
                match r {
                    Ok(p) => plan == Ok::<PathModel, StorageError>(p@),
                    Err(e) => plan == Err::<PathModel, StorageError>(e),
                }
            }),
    {
        let child_of_archive = archived_dir.starts_with(&self.archive);
        let archive_itself = archived_dir.path_eq(&self.archive);
        let parent_is_num = match archived_dir.parent() {
            Some(par) => match par.file_stem() {
                Some(s) => crate::numbers::parse_i32(s.as_str()).is_some(),
                None => false,
            },
            None => false,
        };
        let name = self.get_project_name(entries)?;
        let target = self.working.join(name.as_str());
        if target_exists {
            return Err(StorageError::ProjectFileExists);
        }
        if child_of_archive && !archive_itself && parent_is_num {
            Ok(target)
        } else {
            Err(StorageError::InvalidDirStructure)
        }
    }

    /// Plans unarchiving an opened record: its current directory is the
    /// source.
    pub fn unarchive_project(&self, project: &L, entries: Vec<FsPath>, target_exists: bool) -> (r:
        Result<FsPath, StorageError>)
        ensures
            ({
                let plan = self.unarchive_spec(project.dir_spec(), entries@, target_exists);
                match r {
                    Ok(p) => plan == Ok::<PathModel, StorageError>(p@),
                    Err(e) => plan == Err::<PathModel, StorageError>(e),
                }
            }),
    {
        let dir = project.dir();
        self.unarchive_project_dir(&dir, entries, target_exists)
    }

    /// The year a batch archival files a record under: the explicitly
    /// given year, else the record's own.
    pub open spec fn archive_if_target(self, p: L, manual_year: Option<Year>) -> PathModel {
        let y = match manual_year {
            Some(y) => y,
            None => match p.year_spec() {
                Some(py) => py,
                None => 0,
            },
        };
        self.partition_spec(y).join(archive_name_spec(p))
    }

    /// The paths a batch archival moves, from position `i` on: for each
    /// record that is ready or forced, its directory (listed twice, once
    /// for the batch and once from the per-record plan) and its archive
    /// target; skipped records contribute nothing.
    pub open spec fn archive_if_moved(
        self,
        s: Seq<L>,
        manual_year: Option<Year>,
        force: bool,
        i: int,
    ) -> Seq<PathModel>
        decreases s.len() - i,
    {
        if i < 0 || i >= s.len() {
            Seq::empty()
        } else {
            let rest = self.archive_if_moved(s, manual_year, force, i + 1);
            if s[i].ready_spec() || force {
                seq![s[i].dir_spec(), s[i].dir_spec(), self.archive_if_target(s[i], manual_year)]
                    + rest
            } else {
                rest
            }
        }
    }

    /// Plans archiving a batch of matched working records.  A record not
    /// reporting itself ready is skipped unless `force` is set; an empty
    /// batch is an error.  Each archived record needs a year: the explicit
    /// one, or its own.
    pub fn archive_projects_if(
        &self,
        projects: ProjectList<L>,
        manual_year: Option<Year>,
        force: bool,
    ) -> (r: Result<Vec<FsPath>, StorageError>)
        requires
            forall|i: int|
                0 <= i < projects@.len() && ((#[trigger] projects@[i]).ready_spec() || force)
                    ==> manual_year is Some || projects@[i].year_spec() is Some,
        ensures
            match r {
                Ok(moved) => projects@.len() > 0 && moved.deep_view() == self.archive_if_moved(
                    projects@,
                    manual_year,
                    force,
                    0,
                ),
                Err(e) => e == StorageError::ProjectDoesNotExist && projects@.len() == 0,
            },
    {
        let ghost whole = projects@;
        if projects.is_empty() {
            return Err(StorageError::ProjectDoesNotExist);
        }
        let mut rest = projects.projects;
        let mut moved: Vec<FsPath> = Vec::new();
        let n = rest.len();
        proof {
            assert(whole.len() == n);
            assert(moved.deep_view() + self.archive_if_moved(whole, manual_year, force, 0)
                =~= self.archive_if_moved(whole, manual_year, force, 0));
        }
        let mut i: usize = 0;
        while rest.len() > 0
            invariant
                i <= whole.len(),
                whole.len() <= usize::MAX,
                rest@ == whole.skip(i as int),
                forall|j: int|
                    0 <= j < whole.len() && ((#[trigger] whole[j]).ready_spec() || force)
                        ==> manual_year is Some || whole[j].year_spec() is Some,
                self.archive_if_moved(whole, manual_year, force, 0) == moved.deep_view()
                    + self.archive_if_moved(whole, manual_year, force, i as int),
            decreases rest.len(),
        {
            let p = rest.remove(0);
            proof {
                assert(p == whole[i as int]);
                assert(rest@ =~= whole.skip(i + 1));
            }
            let is_selected = p.is_ready_for_archive() || force;
            if is_selected {
                let year = match manual_year {
                    Some(y) => y,
                    None => match p.year() {
                        Some(y) => y,
                        None => {
                            proof {
                                assert(false);
                            }
                            0
                        },
                    },
                };
                let mut archive_target = self.archive_project(&p, year);
                let ghost at = archive_target.deep_view();
                let ghost atv = archive_target@;
                let ghost prev = moved.deep_view();
                moved.push(p.dir());
                moved.append(&mut archive_target);
                proof {
                    assert(at == seq![
                        p.dir_spec(),
                        self.partition_spec(year).join(archive_name_spec(p)),
                    ]);
                    assert(self.archive_if_target(p, manual_year) == self.partition_spec(
                        year,
                    ).join(archive_name_spec(p)));
                    assert(atv.len() == 2 && atv[0]@ == at[0] && atv[1]@ == at[1]);
                    assert(moved.deep_view() =~= prev + seq![
                        p.dir_spec(),
                        p.dir_spec(),
                        self.archive_if_target(p, manual_year),
                    ]);
                    assert(moved.deep_view() + self.archive_if_moved(
                        whole,
                        manual_year,
                        force,
                        i + 1,
                    ) =~= prev + self.archive_if_moved(whole, manual_year, force, i as int));
                }
            }
            i = i + 1;
        }
        proof {
            assert(self.archive_if_moved(whole, manual_year, force, i as int).len() == 0);
        }
        Ok(moved)
    }

    /// The paths a batch unarchival moves, from position `i` on: each
    /// record's directory and its working target.
    pub open spec fn unarchive_moved(self, s: Seq<L>, facts: Seq<UnarchiveFacts>, i: int) -> Seq<
        PathModel,
    >
        decreases s.len() - i,
    {
        if i < 0 || i >= s.len() {
            Seq::empty()
        } else {
            let target = match self.unarchive_spec(
                s[i].dir_spec(),
                facts[i].entries@,
                facts[i].target_exists,
            ) {
                Ok(p) => p,
                Err(_) => self.working_spec(),
            };
            seq![s[i].dir_spec(), target] + self.unarchive_moved(s, facts, i + 1)
        }
    }

    /// Plans unarchiving a batch of matched archived records, collecting
    /// each record's old directory and its working target.  Every record
    /// of the batch must pass the unarchive preconditions.
    pub fn unarchive_projects(&self, projects: ProjectList<L>, facts: Vec<UnarchiveFacts>) -> (r:
        Vec<FsPath>)
        requires
            projects@.len() == facts@.len(),
            forall|i: int|
                0 <= i < projects@.len() ==> self.unarchive_spec(
                    (#[trigger] projects@[i]).dir_spec(),
                    facts@[i].entries@,
                    facts@[i].target_exists,
                ) is Ok,
        ensures
            r.deep_view() == self.unarchive_moved(projects@, facts@, 0),
    {
        let ghost whole = projects@;
        let ghost fwhole = facts@;
        let mut rest = projects.projects;
        let mut frest = facts;
        let mut moved: Vec<FsPath> = Vec::new();
        let n = rest.len();
        proof {
            assert(whole.len() == n);
            assert(moved.deep_view() + self.unarchive_moved(whole, fwhole, 0) =~= self
                .unarchive_moved(whole, fwhole, 0));
        }
        let mut i: usize = 0;
        while rest.len() > 0
            invariant
                i <= whole.len() == fwhole.len(),
                whole.len() <= usize::MAX,
                rest@ == whole.skip(i as int),
                frest@ == fwhole.skip(i as int),
                forall|j: int|
                    0 <= j < whole.len() ==> self.unarchive_spec(
                        (#[trigger] whole[j]).dir_spec(),
                        fwhole[j].entries@,
                        fwhole[j].target_exists,
                    ) is Ok,
                self.unarchive_moved(whole, fwhole, 0) == moved.deep_view() + self.unarchive_moved(
                    whole,
                    fwhole,
                    i as int,
                ),
            decreases rest.len(),
        {
            let p = rest.remove(0);
            let f = frest.remove(0);
            proof {
                assert(p == whole[i as int]);
                assert(f == fwhole[i as int]);
                assert(rest@ =~= whole.skip(i + 1));
                assert(frest@ =~= fwhole.skip(i + 1));
            }
            let ghost prev = moved.deep_view();
            moved.push(p.dir());
            let target = match self.unarchive_project(&p, f.entries, f.target_exists) {
                Ok(t) => t,
                Err(_) => {
                    proof {
                        assert(false);
                    }
                    self.working.duplicate()
                },
            };
            moved.push(target);
            proof {
                assert(moved.deep_view() + self.unarchive_moved(whole, fwhole, i + 1) =~= prev
                    + self.unarchive_moved(whole, fwhole, i as int));
            }
            i = i + 1;
        }
        proof {
            assert(self.unarchive_moved(whole, fwhole, i as int).len() == 0);
        }
        moved
    }

    /// What creating a record decides before the template is
    /// instantiated: the record directory (the slugged name under
    /// working), the record file inside it, and the template file to
    /// instantiate — or why nothing may be written.
    pub open spec fn create_plan_spec(
        self,
        name: Seq<char>,
        template_name: Seq<char>,
        template_entries: Seq<FsPath>,
        working_present: bool,
        project_dir_present: bool,
    ) -> Result<(PathModel, PathModel, PathModel), StorageError> {
        if !working_present {
            Err(StorageError::NoWorkingDir)
        } else if project_dir_present {
            Err(StorageError::ProjectDirExists)
        } else {
            let files = template_entries.filter(ext_pred(self.template_ext_spec()));
            if files.len() == 0 {
                Err(StorageError::TemplateNotFound)
            } else {
                match first_match(files, stem_pred(template_name)) {
                    None => Err(StorageError::TemplateNotFound),
                    Some(tf) => {
                        let dir = self.working_spec().join(slug_of(name));
                        let target = dir.join(slug_of(name) + seq!['.'] + L::ext_spec());
                        Ok((dir, target, tf@))
                    },
                }
            }
        }
    }

    /// Decides where a new record would be created: checks the working
    /// directory, the slugged target directory and the template, and
    /// returns record directory, record file and template file.  On any
    /// error nothing is to be written.
    pub fn create_project_paths(
        &self,
        project_name: &str,
        template_name: &str,
        working_present: bool,
        project_dir_present: bool,
        template_entries: Vec<FsPath>,
    ) -> (r: Result<(FsPath, FsPath, FsPath), StorageError>)
        ensures
            ({
                let plan = self.create_plan_spec(
                    project_name@,
                    template_name@,
                    template_entries@,
                    working_present,
                    project_dir_present,
                );
                match r {
                    Ok(tri) => plan == Ok::<_, StorageError>((tri.0@, tri.1@, tri.2@)),
                    Err(e) => plan == Err::<(PathModel, PathModel, PathModel), _>(e),
                }
            }),
    {
        if !working_present {
            return Err(StorageError::NoWorkingDir);
        }
        if project_dir_present {
            return Err(StorageError::ProjectDirExists);
        }
        let slugged = slugify(project_name);
        let project_dir = self.working.join(slugged.as_str());
        let ext = L::file_extension();
        let file_name = slugged.concat(".").concat(ext.as_str());
        proof {
            reveal_strlit(".");
            assert("."@ =~= seq!['.']);
        }
        let target_file = project_dir.join(file_name.as_str());
        let template_path = self.get_template_file(template_name, template_entries)?;
        Ok((project_dir, target_file, template_path))
    }

    /// Creates a record from a template: decides the paths, instantiates
    /// the record type from the template, and hands back the record
    /// together with the directory to create and the record file to fill.
    /// The application creates the directory, copies the instantiated
    /// file there and repoints the record.
    pub fn create_project(
        &self,
        project_name: &str,
        template_name: &str,
        fill_data: &Vec<(String, String)>,
        working_present: bool,
        project_dir_present: bool,
        template_entries: Vec<FsPath>,
    ) -> (r: Result<(L, FsPath, FsPath), StorageError>)
        ensures
            ({
                let plan = self.create_plan_spec(
                    project_name@,
                    template_name@,
                    template_entries@,
                    working_present,
                    project_dir_present,
                );
                match plan {
                    Err(pe) => r matches Err(e) && e == pe,
                    Ok(pl) => match r {
                        Ok(tri) => tri.1@ == pl.0 && tri.2@ == pl.1,
                        Err(_) => true,  // the record type declined the template
                    },
                }
            }),
    {
        let (project_dir, target_file, template_path) = self.create_project_paths(
            project_name,
            template_name,
            working_present,
            project_dir_present,
            template_entries,
        )?;
        let project = L::from_template(project_name, &template_path, fill_data)?;
        Ok((project, project_dir, target_file))
    }

    /// Settles a gated deletion: the record's directory is removed only
    /// when confirmed, and a removal with an attached repository must also
    /// be staged — a failed staging is fatal even though the directory is
    /// already gone.
    pub fn delete_project_if(&self, confirmed: bool, git_add_ok: bool) -> (r: Result<
        bool,
        StorageError,
    >)
        ensures
            match r {
                Ok(deleted) => deleted == confirmed && (confirmed && self.repository_spec() is Some
                    ==> git_add_ok),
                Err(e) => e == StorageError::GitProcessFailed && confirmed
                    && self.repository_spec() is Some && !git_add_ok,
            },
    {
        if !confirmed {
            return Ok(false);
        }
        if self.repository.is_some() && !git_add_ok {
            return Err(StorageError::GitProcessFailed);
        }
        Ok(true)
    }

    /// Sorts a batch by record index and keeps what the term selects: the
    /// record at the term's one-based position for an `N<digits>` term,
    /// and every record matching the lowercased term.
    pub fn search_projects(&self, projects: ProjectList<L>, search_term: &str) -> (r: ProjectList<
        L,
    >)
        ensures
            r@ == crate::search::select_spec(
                crate::search::sort_by_index(projects@),
                search_term@,
            ),
    {
        let sorted = crate::search::sort_projects(projects);
        crate::search::select_by_term(sorted, search_term)
    }

    /// What searching one batch per term yields, from term `i` on: the
    /// per-term results, concatenated in term order, without
    /// deduplication.
    pub open spec fn search_any_spec(
        self,
        batches: Seq<ProjectList<L>>,
        terms: Seq<Seq<char>>,
        i: int,
    ) -> Seq<L>
        decreases batches.len() - i,
    {
        if i < 0 || i >= batches.len() {
            Seq::empty()
        } else {
            crate::search::select_spec(crate::search::sort_by_index(batches[i]@), terms[i])
                + self.search_any_spec(batches, terms, i + 1)
        }
    }

    /// Searches one batch per term and unions the results in term order.
    /// A record matching several terms appears once per match: callers
    /// that care deduplicate.
    pub fn search_projects_any(&self, batches: Vec<ProjectList<L>>, terms: &Vec<String>) -> (r:
        ProjectList<L>)
        requires
            batches@.len() == terms@.len(),
        ensures
            r@ == self.search_any_spec(batches@, terms.deep_view(), 0),
    {
        let ghost bwhole = batches@;
        let ghost twhole = terms.deep_view();
        let mut rest = batches;
        let mut out: ProjectList<L> = ProjectList::new();
        let n = rest.len();
        proof {
            assert(bwhole.len() == n);
            assert(out@ + self.search_any_spec(bwhole, twhole, 0) =~= self.search_any_spec(
                bwhole,
                twhole,
                0,
            ));
        }
        let mut i: usize = 0;
        while rest.len() > 0
            invariant
                twhole == terms.deep_view(),
                i <= bwhole.len() == twhole.len(),
                bwhole.len() <= usize::MAX,
                rest@ == bwhole.skip(i as int),
                self.search_any_spec(bwhole, twhole, 0) == out@ + self.search_any_spec(
                    bwhole,
                    twhole,
                    i as int,
                ),
            decreases rest.len(),
        {
            let batch = rest.remove(0);
            proof {
                assert(batch == bwhole[i as int]);
                assert(rest@ =~= bwhole.skip(i + 1));
                assert(terms.deep_view()[i as int] == terms@[i as int]@);
            }
            let ghost prev = out@;
            let mut found = self.search_projects(batch, terms[i].as_str());
            out.append(&mut found);
            proof {
                assert(out@ + self.search_any_spec(bwhole, twhole, i + 1) =~= prev
                    + self.search_any_spec(bwhole, twhole, i as int));
            }
            i = i + 1;
        }
        proof {
            assert(self.search_any_spec(bwhole, twhole, i as int).len() == 0);
        }
        out
    }

    /// Resolves a selection over the already-opened candidate batches: a
    /// directory-and-terms selection searches one batch per term and
    /// reports `NothingFound` for an empty result; a bare directory or an
    /// explicit path list passes its single batch through.  An
    /// uninitialized selection is never resolved.
    pub fn open_projects(&self, selection: &StorageSelection, candidates: Vec<ProjectList<L>>) -> (r:
        Result<ProjectList<L>, StorageError>)
        requires
            match selection {
                StorageSelection::DirAndSearch(_, terms) => candidates@.len() == terms@.len(),
                StorageSelection::Dir(_) => candidates@.len() == 1,
                StorageSelection::Paths(_) => candidates@.len() == 1,
                StorageSelection::Uninitialized => false,
            },
        ensures
            match selection {
                StorageSelection::DirAndSearch(_, terms) => {
                    let found = self.search_any_spec(candidates@, terms.deep_view(), 0);
                    match r {
                        Ok(list) => list@ == found && found.len() > 0,
                        Err(e) => found.len() == 0 && (e matches StorageError::NothingFound(ts)
                            && ts@ == terms@),
                    }
                },
                StorageSelection::Dir(_) => r matches Ok(list) && list@ == candidates@[0]@,
                StorageSelection::Paths(_) => r matches Ok(list) && list@ == candidates@[0]@,
                StorageSelection::Uninitialized => false,
            },
    {
        match selection {
            StorageSelection::DirAndSearch(_dir, terms) => {
                let found = self.search_projects_any(candidates, terms);
                if found.is_empty() {
                    let ts = terms.clone();
                    proof {
                        assert forall|j: int| 0 <= j < terms@.len() implies ts@[j] == terms@[j] by {
                            assert(cloned::<String>(terms@[j], ts@[j]));
                        }
                        assert(ts@ =~= terms@);
                    }
                    Err(StorageError::NothingFound(ts))
                } else {
                    Ok(found)
                }
            },
            StorageSelection::Dir(_) => {
                let mut candidates = candidates;
                Ok(ProjectList::from_vec(candidates.remove(0).projects))
            },
            StorageSelection::Paths(_) => {
                let mut candidates = candidates;
                Ok(ProjectList::from_vec(candidates.remove(0).projects))
            },
            StorageSelection::Uninitialized => {
                proof {
                    assert(false);
                }
                Err(StorageError::BadChoice)
            },
        }
    }

    /// Assembles the one recursive directory selection: the records of a
    /// year are those opened from its archive partition together with the
    /// working records, kept only where the record itself declares that
    /// year.
    pub fn open_projects_dir(
        &self,
        year: Year,
        archived: ProjectList<L>,
        working: ProjectList<L>,
    ) -> (r: ProjectList<L>)
        ensures
            r@ == (archived@ + working@).filter(crate::project_list::year_pred(year)),
    {
        let mut combined = archived;
        let mut working = working;
        combined.append(&mut working);
        combined.filter_by_year(year)
    }

    /// Groups the already-opened archive batches by their years, in the
    /// given (ascending) order.
    pub fn open_all_archived_projects(
        &self,
        years: &Vec<Year>,
        lists: Vec<ProjectList<L>>,
    ) -> (r: crate::project_list::ProjectsByYear<L>)
        requires
            years@.len() == lists@.len(),
            forall|i: int, j: int| 0 <= i < j < years@.len() ==> years@[i] != years@[j],
        ensures
            r.wf(),
            r.years_spec() == years@,
            r.lists_spec() == Seq::new(lists@.len(), |i: int| lists@[i]@),
    {
        let ghost ywhole = years@;
        let ghost lwhole = lists@;
        let mut rest = lists;
        let mut grouped = crate::project_list::ProjectsByYear::new();
        let n = rest.len();
        proof {
            assert(ywhole.len() == n);
            assert(grouped.years_spec() =~= ywhole.take(0));
            assert(grouped.lists_spec() =~= Seq::new(0nat, |i: int| lwhole[i]@));
        }
        let mut i: usize = 0;
        while rest.len() > 0
            invariant
                ywhole == years@,
                i <= ywhole.len() == lwhole.len(),
                ywhole.len() <= usize::MAX,
                rest@ == lwhole.skip(i as int),
                forall|a: int, b: int| 0 <= a < b < ywhole.len() ==> ywhole[a] != ywhole[b],
                grouped.wf(),
                grouped.years_spec() == ywhole.take(i as int),
                grouped.lists_spec() == Seq::new(i as nat, |k: int| lwhole[k]@),
            decreases rest.len(),
        {
            let list = rest.remove(0);
            proof {
                assert(list == lwhole[i as int]);
                assert(rest@ =~= lwhole.skip(i + 1));
                if grouped.years_spec().contains(ywhole[i as int]) {
                    let j = choose|j: int|
                        0 <= j < grouped.years_spec().len() && grouped.years_spec()[j] == ywhole[
                        i as int];
                    assert(ywhole[j] == ywhole[i as int]);
                }
            }
            grouped.insert_year(years[i], list);
            proof {
                assert(grouped.years_spec() =~= ywhole.take(i + 1));
                assert(grouped.lists_spec() =~= Seq::new((i + 1) as nat, |k: int| lwhole[k]@));
            }
            i = i + 1;
        }
        proof {
            assert(ywhole.take(i as int) =~= ywhole);
            assert(grouped.lists_spec() =~= Seq::new(lwhole.len(), |k: int| lwhole[k]@));
        }
        grouped
    }

    /// Round trip: archiving a record and then unarchiving the moved
    /// directory restores the record directory to its original path.  The
    /// record lived under working as `name`; after the move, its
    /// directory still shows a record file whose stem is `name`, and the
    /// freed working slot is unoccupied again — so unarchiving the
    /// archive target lands exactly on the directory the record came
    /// from.  (The move is a rename, so the directory's contents are
    /// carried along unchanged; only the paths are modelled here.)
    pub proof fn lemma_archive_unarchive_round_trip(
        self,
        p: L,
        year: Year,
        entries: Seq<FsPath>,
        name: Seq<char>,
    )
        requires
            self.wf(),
            p.dir_spec() == self.working_spec().join(name),
            match first_match(entries, ext_pred(L::ext_spec())) {
                Some(f) => f@.file_stem() == Some(name),
                None => false,
            },
        ensures
            self.unarchive_spec(
                self.partition_spec(year).join(archive_name_spec(p)),
                entries,
                false,
            ) == Ok::<PathModel, StorageError>(p.dir_spec()),
    {
        let ys = int_to_dec_str(year as int);
        let target = self.partition_spec(year).join(archive_name_spec(p));
        // the target sits strictly inside the archive
        assert(target.parts.subrange(0, self.archive_spec().parts.len() as int)
            =~= self.archive_spec().parts);
        assert(target.starts_with(self.archive_spec()));
        assert(target.parts.len() != self.archive_spec().parts.len());
        // its parent is the year partition, whose name parses as the year
        assert(target.parent() == self.partition_spec(year)) by {
            assert(target.parts.drop_last() =~= self.partition_spec(year).parts);
        }
        assert(self.partition_spec(year).parts.last() == ys);
        crate::numbers::lemma_dec_str_no_dot(year as int);
        crate::paths::lemma_rfind_no_dot(ys);
        assert(crate::paths::stem_of(ys) == ys);
        crate::numbers::lemma_dec_round_trip(year);
        assert(parent_is_year(target));
    }

    /// Pairs the opened working set with the grouped archive.
    pub fn open_all_projects(
        &self,
        working: ProjectList<L>,
        archive: crate::project_list::ProjectsByYear<L>,
    ) -> (r: crate::project_list::Projects<L>)
        ensures
            r.working@ == working@,
            r.archive == archive,
    {
        crate::project_list::Projects { working, archive }
    }
}

} // verus!
