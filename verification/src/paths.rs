//! The engine's model of filesystem paths.
//!
//! A path is a flag saying whether it is absolute plus its list of
//! components.  The surrounding application converts between this model and
//! the platform's path type at the boundary; everything the engine decides
//! about paths (joining, parents, prefixes, name stems and extensions) is
//! stated and verified over this model.

use vstd::prelude::*;

verus! {

/// Mathematical value of a path.
pub ghost struct PathModel {
    pub absolute: bool,
    pub parts: Seq<Seq<char>>,
}

impl PathModel {
    /// The path extended by one more component.
    pub open spec fn join(self, name: Seq<char>) -> PathModel {
        PathModel { absolute: self.absolute, parts: self.parts.push(name) }
    }

    /// The path extended by all components of a relative path.
    pub open spec fn join_rel(self, other: PathModel) -> PathModel {
        PathModel { absolute: self.absolute, parts: self.parts + other.parts }
    }

    pub open spec fn has_parent(self) -> bool {
        self.parts.len() > 0
    }

    /// The path with its last component removed.
    pub open spec fn parent(self) -> PathModel {
        PathModel { absolute: self.absolute, parts: self.parts.drop_last() }
    }

    pub open spec fn file_name(self) -> Option<Seq<char>> {
        if self.parts.len() > 0 {
            Some(self.parts.last())
        } else {
            None
        }
    }

    /// Whether `prefix` is an ancestor-or-self of this path.
    pub open spec fn starts_with(self, prefix: PathModel) -> bool {
        &&& self.absolute == prefix.absolute
        &&& prefix.parts.len() <= self.parts.len()
        &&& prefix.parts == self.parts.subrange(0, prefix.parts.len() as int)
    }

    /// The final component's name before its last dot, as `file_stem` of a
    /// platform path reports it: the dot of a leading-dot (hidden) name does
    /// not count.
    pub open spec fn file_stem(self) -> Option<Seq<char>> {
        if self.parts.len() > 0 {
            Some(stem_of(self.parts.last()))
        } else {
            None
        }
    }

    /// The final component's part after its last dot, if any.
    pub open spec fn extension(self) -> Option<Seq<char>> {
        if self.parts.len() > 0 {
            ext_of(self.parts.last())
        } else {
            None
        }
    }
}

/// Position of the last `.` in a name, or `-1` if there is none.
pub open spec fn rfind_dot(name: Seq<char>) -> int
    decreases name.len(),
{
    if name.len() == 0 {
        -1
    } else if name.last() == '.' {
        name.len() - 1
    } else {
        rfind_dot(name.drop_last())
    }
}

pub proof fn lemma_rfind_dot_range(name: Seq<char>)
    ensures
        -1 <= rfind_dot(name) < name.len(),
    decreases name.len(),
{
    if name.len() > 0 && name.last() != '.' {
        lemma_rfind_dot_range(name.drop_last());
    }
}

/// A name without any dot has no dot position, and so is its own stem.
pub proof fn lemma_rfind_no_dot(s: Seq<char>)
    requires
        forall|i: int| 0 <= i < s.len() ==> s[i] != '.',
    ensures
        rfind_dot(s) == -1,
    decreases s.len(),
{
    if s.len() > 0 {
        assert(s.last() == s[s.len() - 1]);
        assert forall|i: int| 0 <= i < s.drop_last().len() implies s.drop_last()[i] != '.' by {
            assert(s.drop_last()[i] == s[i]);
        }
        lemma_rfind_no_dot(s.drop_last());
    }
}

/// The name up to its last dot; a name with no dot, or only a leading dot,
/// is its own stem.
pub open spec fn stem_of(name: Seq<char>) -> Seq<char> {
    if rfind_dot(name) <= 0 {
        name
    } else {
        name.subrange(0, rfind_dot(name))
    }
}

/// The name after its last dot; `None` when there is no dot, or only a
/// leading one.
pub open spec fn ext_of(name: Seq<char>) -> Option<Seq<char>> {
    if rfind_dot(name) <= 0 {
        None
    } else {
        Some(name.subrange(rfind_dot(name) + 1, name.len() as int))
    }
}

/// A directory entry whose name begins with a dot is hidden.
pub open spec fn is_hidden(p: PathModel) -> bool {
    match p.file_name() {
        Some(n) => n.len() > 0 && n[0] == '.',
        None => false,
    }
}

/// A path value: the engine's executable counterpart of [`PathModel`].
#[derive(Debug, Clone)]
pub struct FsPath {
    absolute: bool,
    parts: Vec<String>,
}

impl View for FsPath {
    type V = PathModel;

    closed spec fn view(&self) -> PathModel {
        PathModel { absolute: self.absolute, parts: self.parts.deep_view() }
    }
}

impl DeepView for FsPath {
    type V = PathModel;

    open spec fn deep_view(&self) -> PathModel {
        self.view()
    }
}

/// Copies a component list; the copy's components are the same strings.
fn clone_parts(v: &Vec<String>) -> (r: Vec<String>)
    ensures
        r@ == v@,
        r.deep_view() == v.deep_view(),
{
    let r = v.clone();
    proof {
        assert forall|i: int| 0 <= i < v@.len() implies r@[i] == v@[i] by {
            assert(cloned::<String>(v[i], r[i]));
        }
        assert(r@ =~= v@);
        assert(r.deep_view() =~= v.deep_view());
    }
    r
}

impl FsPath {
    /// A path built from explicit pieces.
    pub fn from_parts(absolute: bool, parts: Vec<String>) -> (r: FsPath)
        ensures
            r@ == (PathModel { absolute, parts: parts.deep_view() }),
    {
        FsPath { absolute, parts }
    }

    pub fn is_absolute(&self) -> (r: bool)
        ensures
            r == self@.absolute,
    {
        self.absolute
    }

    /// The components, for the application layer to render or convert.
    pub fn components(&self) -> (r: &Vec<String>)
        ensures
            r.deep_view() == self@.parts,
    {
        &self.parts
    }

    pub fn depth(&self) -> (r: usize)
        ensures
            r == self@.parts.len(),
    {
        self.parts.len()
    }

    /// An equal path value.
    pub fn duplicate(&self) -> (r: FsPath)
        ensures
            r@ == self@,
    {
        FsPath { absolute: self.absolute, parts: clone_parts(&self.parts) }
    }

    /// This path extended by one component.
    pub fn join(&self, name: &str) -> (r: FsPath)
        ensures
            r@ == self@.join(name@),
    {
        let mut parts = clone_parts(&self.parts);
        parts.push(name.to_owned());
        let r = FsPath { absolute: self.absolute, parts };
        proof {
            assert(r.parts.deep_view() =~= self@.parts.push(name@));
        }
        r
    }

    /// This path extended by every component of a relative path.
    pub fn join_path(&self, other: &FsPath) -> (r: FsPath)
        ensures
            r@ == self@.join_rel(other@),
    {
        let mut parts = clone_parts(&self.parts);
        let mut i: usize = 0;
        while i < other.parts.len()
            invariant
                i <= other.parts.len(),
                parts.deep_view() =~= self@.parts + other@.parts.take(i as int),
            decreases other.parts.len() - i,
        {
            let ghost prev = parts.deep_view();
            parts.push(other.parts[i].clone());
            proof {
                assert(cloned::<String>(other.parts[i as int], parts[parts.len() - 1]));
                assert(parts.deep_view() =~= prev.push(other@.parts[i as int]));
                assert(parts.deep_view() =~= self@.parts + other@.parts.take(i + 1));
            }
            i = i + 1;
        }
        proof {
            assert(other@.parts.take(other.parts.len() as int) =~= other@.parts);
        }
        FsPath { absolute: self.absolute, parts }
    }

    /// The relative path of everything after the first component.
    pub fn tail(&self) -> (r: FsPath)
        requires
            self@.parts.len() > 0,
        ensures
            r@ == (PathModel { absolute: false, parts: self@.parts.skip(1) }),
    {
        let mut parts = clone_parts(&self.parts);
        let _first = parts.remove(0);
        let r = FsPath { absolute: false, parts };
        proof {
            assert(r.parts.deep_view() =~= self@.parts.skip(1));
        }
        r
    }

    /// The path without its final component, if it has one.
    pub fn parent(&self) -> (r: Option<FsPath>)
        ensures
            match r {
                Some(p) => self@.has_parent() && p@ == self@.parent(),
                None => !self@.has_parent(),
            },
    {
        if self.parts.len() == 0 {
            None
        } else {
            let mut parts = clone_parts(&self.parts);
            let _last = parts.pop();
            let r = FsPath { absolute: self.absolute, parts };
            proof {
                assert(r.parts.deep_view() =~= self@.parts.drop_last());
            }
            Some(r)
        }
    }

    /// The final component, if there is one.
    pub fn file_name(&self) -> (r: Option<String>)
        ensures
            r.deep_view() == self@.file_name(),
    {
        if self.parts.len() == 0 {
            None
        } else {
            Some(self.parts[self.parts.len() - 1].clone())
        }
    }

    /// The final component's name up to its last dot.
    pub fn file_stem(&self) -> (r: Option<String>)
        ensures
            r.deep_view() == self@.file_stem(),
    {
        if self.parts.len() == 0 {
            return None;
        }
        let name = &self.parts[self.parts.len() - 1];
        proof {
            assert(self@.parts.last() == name@);
            lemma_rfind_dot_range(name@);
        }
        let s = name.as_str();
        match rfind_dot_str(s) {
            Some(p) => {
                if p > 0 {
                    let stem = s.substring_char(0, p).to_owned();
                    Some(stem)
                } else {
                    Some(name.clone())
                }
            },
            None => Some(name.clone()),
        }
    }

    /// The final component's part after its last dot, if any.
    pub fn extension(&self) -> (r: Option<String>)
        ensures
            r.deep_view() == self@.extension(),
    {
        if self.parts.len() == 0 {
            return None;
        }
        let name = &self.parts[self.parts.len() - 1];
        proof {
            assert(self@.parts.last() == name@);
            lemma_rfind_dot_range(name@);
        }
        let s = name.as_str();
        match rfind_dot_str(s) {
            Some(p) => {
                if p > 0 {
                    let l = s.unicode_len();
                    assert(p < l);
                    let ext = s.substring_char(p + 1, l).to_owned();
                    Some(ext)
                } else {
                    None
                }
            },
            None => None,
        }
    }

    /// Whether `prefix` is an ancestor-or-self of this path.
    pub fn starts_with(&self, prefix: &FsPath) -> (r: bool)
        ensures
            r == self@.starts_with(prefix@),
    {
        if self.absolute != prefix.absolute || prefix.parts.len() > self.parts.len() {
            return false;
        }
        let mut i: usize = 0;
        while i < prefix.parts.len()
            invariant
                i <= prefix@.parts.len() <= self@.parts.len(),
                self@.absolute == prefix@.absolute,
                forall|j: int| 0 <= j < i ==> prefix@.parts[j] == self@.parts[j],
            decreases prefix.parts.len() - i,
        {
            if !string_eq(&self.parts[i], &prefix.parts[i]) {
                proof {
                    assert(self@.parts[i as int] == self.parts@[i as int]@);
                    assert(prefix@.parts[i as int] == prefix.parts@[i as int]@);
                    if self@.starts_with(prefix@) {
                        assert(prefix@.parts[i as int] == self@.parts.subrange(
                            0,
                            prefix@.parts.len() as int,
                        )[i as int]);
                    }
                }
                return false;
            }
            i = i + 1;
        }
        proof {
            assert(prefix@.parts =~= self@.parts.subrange(0, prefix@.parts.len() as int));
        }
        true
    }

    /// Whether the two paths are the same path.
    pub fn path_eq(&self, other: &FsPath) -> (r: bool)
        ensures
            r == (self@ == other@),
    {
        if self.absolute != other.absolute || self.parts.len() != other.parts.len() {
            proof {
                if self@ == other@ {
                    assert(self@.parts.len() == other@.parts.len());
                }
            }
            return false;
        }
        let mut i: usize = 0;
        while i < self.parts.len()
            invariant
                i <= self@.parts.len() == other@.parts.len(),
                self@.absolute == other@.absolute,
                forall|j: int| 0 <= j < i ==> self@.parts[j] == other@.parts[j],
            decreases self.parts.len() - i,
        {
            if !string_eq(&self.parts[i], &other.parts[i]) {
                proof {
                    assert(self@.parts[i as int] == self.parts@[i as int]@);
                    assert(other@.parts[i as int] == other.parts@[i as int]@);
                    if self@ == other@ {
                        assert(self@.parts[i as int] == other@.parts[i as int]);
                    }
                }
                return false;
            }
            i = i + 1;
        }
        proof {
            assert(self@.parts =~= other@.parts);
        }
        true
    }
}

/// Position of the last dot of a string, scanning from the end.
fn rfind_dot_str(s: &str) -> (r: Option<usize>)
    ensures
        match r {
            Some(p) => rfind_dot(s@) == p as int,
            None => rfind_dot(s@) == -1,
        },
{
    let len = s.unicode_len();
    let mut j = len;
    proof {
        assert(s@.take(len as int) =~= s@);
    }
    while j > 0
        invariant
            j <= len == s@.len(),
            rfind_dot(s@) == rfind_dot(s@.take(j as int)),
        decreases j,
    {
        let c = s.get_char(j - 1);
        proof {
            assert(s@.take(j as int).drop_last() =~= s@.take(j - 1));
            assert(s@.take(j as int).last() == s@[j - 1]);
        }
        if c == '.' {
            return Some(j - 1);
        }
        j = j - 1;
    }
    proof {
        assert(s@.take(0) =~= Seq::<char>::empty());
    }
    None
}

/// Whether two strings hold the same characters.
pub fn string_eq(a: &String, b: &String) -> (r: bool)
    ensures
        r == (a@ == b@),
{
    a.eq(b)
}

/// Helper for [`split_components`]: splits `s` on `/`, with `cur` the
/// partial component read so far; empty components are dropped.
pub open spec fn split_acc(s: Seq<char>, cur: Seq<char>) -> Seq<Seq<char>>
    decreases s.len(),
{
    if s.len() == 0 {
        if cur.len() == 0 {
            Seq::empty()
        } else {
            seq![cur]
        }
    } else if s[0] == '/' {
        (if cur.len() == 0 {
            Seq::empty()
        } else {
            seq![cur]
        }) + split_acc(s.skip(1), Seq::empty())
    } else {
        split_acc(s.skip(1), cur.push(s[0]))
    }
}

/// The non-empty components of a path string, split on `/`.
pub open spec fn split_components(s: Seq<char>) -> Seq<Seq<char>> {
    split_acc(s, Seq::empty())
}

/// The path a string denotes: absolute when it begins with a separator,
/// with its non-empty components.
pub open spec fn path_from_string(s: Seq<char>) -> PathModel {
    PathModel { absolute: s.len() > 0 && s[0] == '/', parts: split_components(s) }
}

/// A run of non-separator characters `[i, j)` followed by a separator or the
/// end contributes one component (together with `cur`), and splitting then
/// continues after the separator.
proof fn lemma_split_run(s: Seq<char>, i: int, j: int, cur: Seq<char>)
    requires
        0 <= i <= j <= s.len(),
        forall|k: int| i <= k < j ==> s[k] != '/',
        j == s.len() || s[j] == '/',
    ensures
        split_acc(s.skip(i), cur) == (if (cur + s.subrange(i, j)).len() == 0 {
            Seq::<Seq<char>>::empty()
        } else {
            seq![cur + s.subrange(i, j)]
        }) + (if j == s.len() {
            Seq::<Seq<char>>::empty()
        } else {
            split_acc(s.skip(j + 1), Seq::<char>::empty())
        }),
    decreases j - i,
{
    if i == j {
        assert(cur + s.subrange(i, j) =~= cur);
        if j == s.len() {
            assert(s.skip(i).len() == 0);
            assert(split_acc(s.skip(i), cur) =~= (if cur.len() == 0 {
                Seq::<Seq<char>>::empty()
            } else {
                seq![cur]
            }));
        } else {
            assert(s.skip(i)[0] == s[i]);
            assert(s.skip(i).skip(1) =~= s.skip(i + 1));
        }
    } else {
        assert(s.skip(i)[0] == s[i]);
        assert(s[i] != '/');
        assert(s.skip(i).skip(1) =~= s.skip(i + 1));
        lemma_split_run(s, i + 1, j, cur.push(s[i]));
        assert(cur.push(s[i]) + s.subrange(i + 1, j) =~= cur + s.subrange(i, j));
    }
}

/// Parses a path string: a leading `/` makes it absolute, and the non-empty
/// pieces between separators are its components.
pub fn parse_path(s: &str) -> (r: FsPath)
    ensures
        r@ == path_from_string(s@),
{
    let len = s.unicode_len();
    let absolute = if len > 0 {
        s.get_char(0) == '/'
    } else {
        false
    };
    let mut parts: Vec<String> = Vec::new();
    let mut i: usize = 0;
    proof {
        assert(s@.skip(0) =~= s@);
        assert(parts.deep_view() =~= Seq::<Seq<char>>::empty());
    }
    while i < len
        invariant
            i <= len == s@.len(),
            split_components(s@) == parts.deep_view() + split_acc(
                s@.skip(i as int),
                Seq::<char>::empty(),
            ),
        decreases len - i,
    {
        let mut j = i;
        while j < len && s.get_char(j) != '/'
            invariant
                i <= j <= len == s@.len(),
                forall|k: int| i <= k < j ==> s@[k] != '/',
            decreases len - j,
        {
            j = j + 1;
        }
        let ghost prev = parts.deep_view();
        if j > i {
            let seg = s.substring_char(i, j).to_owned();
            parts.push(seg);
        }
        proof {
            lemma_split_run(s@, i as int, j as int, Seq::<char>::empty());
            assert(Seq::<char>::empty() + s@.subrange(i as int, j as int) =~= s@.subrange(
                i as int,
                j as int,
            ));
            if j > i {
                assert(parts.deep_view() =~= prev.push(s@.subrange(i as int, j as int)));
            }
            if j < len {
                assert(parts.deep_view() + split_acc(s@.skip(j + 1), Seq::<char>::empty())
                    =~= prev + split_acc(s@.skip(i as int), Seq::<char>::empty()));
            } else {
                assert(parts.deep_view() =~= prev + split_acc(
                    s@.skip(i as int),
                    Seq::<char>::empty(),
                ));
            }
        }
        i = if j < len {
            j + 1
        } else {
            j
        };
    }
    proof {
        assert(s@.skip(len as int).len() == 0);
        assert(split_components(s@) =~= parts.deep_view());
    }
    FsPath { absolute, parts }
}

/// Whether a directory entry is hidden (its name begins with a dot).
pub fn is_dot_file(path: &FsPath) -> (r: bool)
    ensures
        r == is_hidden(path@),
{
    match path.file_name() {
        Some(name) => {
            let s = name.as_str();
            if s.unicode_len() == 0 {
                false
            } else {
                s.get_char(0) == '.'
            }
        },
        None => false,
    }
}

} // verus!
