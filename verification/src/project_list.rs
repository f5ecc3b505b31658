//! Collections of opened records.
//!
//! A [`ProjectList`] is an ordered batch of records, as a search or a bulk
//! open produces it.  [`ProjectsByYear`] groups archived batches by year,
//! in insertion order; [`Projects`] pairs the working set with the whole
//! archive.

use vstd::prelude::*;

use crate::storable::{GitStatus, Storable};
use crate::Year;

verus! {

/// An ordered collection of opened records.
pub struct ProjectList<L> {
    pub projects: Vec<L>,
}

impl<L> View for ProjectList<L> {
    type V = Seq<L>;

    open spec fn view(&self) -> Seq<L> {
        self.projects@
    }
}

impl<L> ProjectList<L> {
    pub fn new() -> (r: ProjectList<L>)
        ensures
            r@ == Seq::<L>::empty(),
    {
        let r = ProjectList { projects: Vec::new() };
        proof {
            assert(r@ =~= Seq::<L>::empty());
        }
        r
    }

    pub fn from_vec(projects: Vec<L>) -> (r: ProjectList<L>)
        ensures
            r@ == projects@,
    {
        ProjectList { projects }
    }

    pub fn len(&self) -> (r: usize)
        ensures
            r == self@.len(),
    {
        self.projects.len()
    }

    pub fn is_empty(&self) -> (r: bool)
        ensures
            r == (self@.len() == 0),
    {
        self.projects.is_empty()
    }

    pub fn get(&self, i: usize) -> (r: &L)
        requires
            i < self@.len(),
        ensures
            *r == self@[i as int],
    {
        &self.projects[i]
    }

    pub fn push(&mut self, p: L)
        ensures
            final(self)@ == old(self)@.push(p),
    {
        self.projects.push(p);
    }

    /// Moves every record of `other` to the end of this list.
    pub fn append(&mut self, other: &mut ProjectList<L>)
        ensures
            final(self)@ == old(self)@ + old(other)@,
            final(other)@ == Seq::<L>::empty(),
    {
        self.projects.append(&mut other.projects);
        proof {
            assert(final(other)@ =~= Seq::<L>::empty());
        }
    }
}

/// The records kept when filtering by a year.
pub open spec fn year_pred<L: Storable>(y: Year) -> spec_fn(L) -> bool {
    |p: L| p.year_spec() == Some(y)
}

/// How an annotated record relates to the record it came from: the status
/// is attached and everything else is untouched.
pub open spec fn annotated<L: Storable>(before: L, after: L, s: GitStatus) -> bool {
    &&& after.git_status_spec() == Some(s)
    &&& after.ident_spec() == before.ident_spec()
    &&& after.prefix_spec() == before.prefix_spec()
    &&& after.year_spec() == before.year_spec()
    &&& after.index_spec() == before.index_spec()
    &&& after.dir_spec() == before.dir_spec()
    &&& after.file_spec() == before.file_spec()
    &&& after.ready_spec() == before.ready_spec()
    &&& forall|t: Seq<char>| after.matches_spec(t) == before.matches_spec(t)
}

impl<L: Storable> ProjectList<L> {
    /// Keeps only the records declaring the given year.
    pub fn filter_by_year(self, y: Year) -> (r: ProjectList<L>)
        ensures
            r@ == self@.filter(year_pred(y)),
    {
        let ghost whole = self@;
        let ghost pred = year_pred::<L>(y);
        let mut rest = self.projects;
        let mut out: Vec<L> = Vec::new();
        let n = rest.len();
        proof {
            reveal(Seq::filter);
            assert(whole.len() == n);
            assert(whole.take(0) =~= Seq::<L>::empty());
        }
        let mut i: usize = 0;
        while rest.len() > 0
            invariant
                pred == year_pred::<L>(y),
                i <= whole.len(),
                whole.len() <= usize::MAX,
                rest@ == whole.skip(i as int),
                out@ == whole.take(i as int).filter(pred),
            decreases rest.len(),
        {
            let p = rest.remove(0);
            proof {
                assert(p == whole[i as int]);
                assert(rest@ =~= whole.skip(i + 1));
                reveal(Seq::filter);
                assert(whole.take(i + 1).drop_last() =~= whole.take(i as int));
                assert(whole.take(i + 1).last() == p);
                assert(whole.take(i + 1).filter(pred) == if pred(p) {
                    whole.take(i as int).filter(pred).push(p)
                } else {
                    whole.take(i as int).filter(pred)
                });
            }
            let keep = match p.year() {
                Some(py) => py == y,
                None => false,
            };
            if keep {
                out.push(p);
            }
            proof {
                assert(keep == pred(whole[i as int]));
                assert(out@ == whole.take(i + 1).filter(pred));
            }
            i = i + 1;
        }
        proof {
            assert(whole.take(i as int) =~= whole);
        }
        ProjectList { projects: out }
    }

    /// Attaches to each record, in place and in order, the status computed
    /// for it.  No record is reordered or dropped.
    pub fn annotate_git_statuses(self, statuses: &Vec<GitStatus>) -> (r: ProjectList<L>)
        requires
            self@.len() == statuses@.len(),
        ensures
            r@.len() == self@.len(),
            forall|i: int|
                0 <= i < self@.len() ==> annotated(self@[i], #[trigger] r@[i], statuses@[i]),
    {
        let ghost whole = self@;
        let mut rest = self.projects;
        let mut out: Vec<L> = Vec::new();
        let n = rest.len();
        proof {
            assert(whole.len() == n);
        }
        let mut i: usize = 0;
        while rest.len() > 0
            invariant
                i <= whole.len() == statuses@.len(),
                whole.len() <= usize::MAX,
                rest@ == whole.skip(i as int),
                out@.len() == i,
                forall|j: int|
                    0 <= j < i ==> annotated(whole[j], #[trigger] out@[j], statuses@[j]),
            decreases rest.len(),
        {
            let mut p = rest.remove(0);
            proof {
                assert(p == whole[i as int]);
                assert(rest@ =~= whole.skip(i + 1));
            }
            p.set_git_status(statuses[i]);
            out.push(p);
            i = i + 1;
        }
        ProjectList { projects: out }
    }
}

/// Archived record batches grouped by year, in insertion order.
///
/// The grouping itself is held in an ordered map of an outside crate; the
/// batches live in a plain vector, and the map sends each year to its
/// batch's position.
pub struct ProjectsByYear<L> {
    order: linked_hash_map::LinkedHashMap<i32, usize>,
    lists: Vec<ProjectList<L>>,
}

#[verifier::external_type_specification]
#[verifier::external_body]
#[verifier::reject_recursive_types(K)]
#[verifier::reject_recursive_types(V)]
#[verifier::reject_recursive_types(S)]
pub struct ExLinkedHashMap<K, V, S>(linked_hash_map::LinkedHashMap<K, V, S>);

/// The key-value pairs an ordered map holds, in its iteration order.
pub uninterp spec fn lhm_entries(m: linked_hash_map::LinkedHashMap<i32, usize>) -> Seq<
    (i32, usize),
>;

/// Relies on `linked_hash_map::LinkedHashMap::new`: the new map is empty.
#[verifier::external_body]
fn lhm_new() -> (r: linked_hash_map::LinkedHashMap<i32, usize>)
    ensures
        lhm_entries(r) == Seq::<(i32, usize)>::empty(),
{
    linked_hash_map::LinkedHashMap::new()
}

/// Relies on `linked_hash_map::LinkedHashMap::insert`: a key that is not
/// yet present is appended at the end of the iteration order with its
/// value.
#[verifier::external_body]
fn lhm_insert(m: &mut linked_hash_map::LinkedHashMap<i32, usize>, k: i32, v: usize)
    ensures
        (forall|i: int|
            0 <= i < lhm_entries(*old(m)).len() ==> (#[trigger] lhm_entries(*old(m))[i]).0 != k)
            ==> lhm_entries(*final(m)) == lhm_entries(*old(m)).push((k, v)),
{
    m.insert(k, v);
}

/// Relies on `linked_hash_map::LinkedHashMap::iter`: the pairs come out in
/// the map's iteration order.
#[verifier::external_body]
fn lhm_pairs(m: &linked_hash_map::LinkedHashMap<i32, usize>) -> (r: Vec<(i32, usize)>)
    ensures
        r@ == lhm_entries(*m),
{
    m.iter().map(|(k, v)| (*k, *v)).collect()
}

impl<L> ProjectsByYear<L> {
    /// The map is healthy: entry `i` of the order sends its year to
    /// position `i` of the batches, and no year occurs twice.
    pub closed spec fn wf(self) -> bool {
        &&& lhm_entries(self.order).len() == self.lists@.len()
        &&& forall|i: int|
            0 <= i < self.lists@.len() ==> (#[trigger] lhm_entries(self.order)[i]).1 == i
        &&& forall|i: int, j: int|
            0 <= i < j < self.lists@.len() ==> lhm_entries(self.order)[i].0 != lhm_entries(
                self.order,
            )[j].0
    }

    /// The years, in the order their batches were added.
    pub closed spec fn years_spec(self) -> Seq<Year> {
        Seq::new(lhm_entries(self.order).len(), |i: int| lhm_entries(self.order)[i].0)
    }

    /// The batches, in the same order.
    pub closed spec fn lists_spec(self) -> Seq<Seq<L>> {
        Seq::new(self.lists@.len(), |i: int| self.lists@[i]@)
    }

    pub fn new() -> (r: ProjectsByYear<L>)
        ensures
            r.wf(),
            r.years_spec() == Seq::<Year>::empty(),
            r.lists_spec() == Seq::<Seq<L>>::empty(),
    {
        let r = ProjectsByYear { order: lhm_new(), lists: Vec::new() };
        proof {
            assert(r.years_spec() =~= Seq::<Year>::empty());
            assert(r.lists_spec() =~= Seq::<Seq<L>>::empty());
        }
        r
    }

    pub fn len(&self) -> (r: usize)
        requires
            self.wf(),
        ensures
            r == self.years_spec().len(),
    {
        self.lists.len()
    }

    /// Adds the batch for a year that is not grouped yet; it goes to the
    /// end of the order.
    pub fn insert_year(&mut self, y: Year, list: ProjectList<L>)
        requires
            old(self).wf(),
            !old(self).years_spec().contains(y),
        ensures
            final(self).wf(),
            final(self).years_spec() == old(self).years_spec().push(y),
            final(self).lists_spec() == old(self).lists_spec().push(list@),
    {
        proof {
            assert forall|i: int| 0 <= i < lhm_entries(self.order).len() implies (
            #[trigger] lhm_entries(self.order)[i]).0 != y by {
                assert(old(self).years_spec()[i] == lhm_entries(self.order)[i].0);
            }
        }
        let idx = self.lists.len();
        lhm_insert(&mut self.order, y, idx);
        self.lists.push(list);
        proof {
            assert(final(self).years_spec() =~= old(self).years_spec().push(y));
            assert(final(self).lists_spec() =~= old(self).lists_spec().push(list@));
            assert forall|i: int, j: int|
                0 <= i < j < final(self).lists@.len() implies lhm_entries(final(self).order)[i].0
                != lhm_entries(final(self).order)[j].0 by {
                if j < final(self).lists@.len() - 1 {
                } else {
                    assert(old(self).years_spec()[i] == lhm_entries(old(self).order)[i].0);
                }
            }
        }
    }

    /// The years, in order.
    pub fn years(&self) -> (r: Vec<Year>)
        requires
            self.wf(),
        ensures
            r@ == self.years_spec(),
    {
        let pairs = lhm_pairs(&self.order);
        let mut out: Vec<Year> = Vec::new();
        let mut i: usize = 0;
        while i < pairs.len()
            invariant
                i <= pairs@.len(),
                pairs@ == lhm_entries(self.order),
                out@ =~= self.years_spec().take(i as int),
            decreases pairs.len() - i,
        {
            out.push(pairs[i].0);
            proof {
                assert(out@ =~= self.years_spec().take(i + 1));
            }
            i = i + 1;
        }
        proof {
            assert(self.years_spec().take(i as int) =~= self.years_spec());
        }
        out
    }

    /// The batch grouped under a year, if that year is grouped.
    pub fn get(&self, y: Year) -> (r: Option<&ProjectList<L>>)
        requires
            self.wf(),
        ensures
            match r {
                Some(list) => exists|i: int|
                    0 <= i < self.years_spec().len() && self.years_spec()[i] == y && list@
                        == self.lists_spec()[i],
                None => !self.years_spec().contains(y),
            },
    {
        let pairs = lhm_pairs(&self.order);
        let mut i: usize = 0;
        while i < pairs.len()
            invariant
                i <= pairs@.len(),
                pairs@ == lhm_entries(self.order),
                self.wf(),
                forall|j: int| 0 <= j < i ==> self.years_spec()[j] != y,
            decreases pairs.len() - i,
        {
            if pairs[i].0 == y {
                let idx = pairs[i].1;
                proof {
                    assert(lhm_entries(self.order)[i as int].1 == i as int);
                    assert(idx == i);
                    assert(self.years_spec()[i as int] == y);
                    assert(self.lists_spec()[i as int] == self.lists@[i as int]@);
                }
                return Some(&self.lists[idx]);
            }
            proof {
                assert(self.years_spec()[i as int] == pairs@[i as int].0);
            }
            i = i + 1;
        }
        proof {
            if self.years_spec().contains(y) {
                let j = choose|j: int|
                    0 <= j < self.years_spec().len() && self.years_spec()[j] == y;
                assert(self.years_spec()[j] != y);
            }
        }
        None
    }
}

/// Every opened record: the working set and the archive grouped by year.
pub struct Projects<L> {
    pub working: ProjectList<L>,
    pub archive: ProjectsByYear<L>,
}

} // verus!
