//! Search and selection over opened records.
//!
//! A search first sorts the batch by each record's sortable index (records
//! without one sort last, under a sentinel key), then selects: a term of
//! the shape `N` followed by digits picks the record at that one-based
//! position of the sorted batch, and any term also selects every record
//! whose text matches the lowercased term.

use vstd::prelude::*;

use crate::numbers::{parse_usize, parse_usize_spec};
use crate::project_list::ProjectList;
use crate::storable::Storable;
use crate::textops::{lower_of, lowercase};

verus! {

/// Lexicographic order on character sequences, by code point.
pub open spec fn seq_le(a: Seq<char>, b: Seq<char>) -> bool
    decreases a.len(),
{
    if a.len() == 0 {
        true
    } else if b.len() == 0 {
        false
    } else if (a[0] as u32) < (b[0] as u32) {
        true
    } else if (a[0] as u32) > (b[0] as u32) {
        false
    } else {
        seq_le(a.skip(1), b.skip(1))
    }
}

pub proof fn lemma_seq_le_total(a: Seq<char>, b: Seq<char>)
    ensures
        seq_le(a, b) || seq_le(b, a),
    decreases a.len(),
{
    if a.len() > 0 && b.len() > 0 && a[0] as u32 == b[0] as u32 {
        lemma_seq_le_total(a.skip(1), b.skip(1));
    }
}

pub proof fn lemma_seq_le_trans(a: Seq<char>, b: Seq<char>, c: Seq<char>)
    requires
        seq_le(a, b),
        seq_le(b, c),
    ensures
        seq_le(a, c),
    decreases a.len(),
{
    if a.len() > 0 && b.len() > 0 && c.len() > 0 {
        if a[0] as u32 == b[0] as u32 && b[0] as u32 == c[0] as u32 {
            lemma_seq_le_trans(a.skip(1), b.skip(1), c.skip(1));
        }
    }
}

/// The key a record sorts under: its index, or a sentinel that sorts after
/// any real index.
pub open spec fn sort_key<L: Storable>(p: L) -> Seq<char> {
    match p.index_spec() {
        Some(s) => s,
        None => "zzzz"@,
    }
}

/// `p` inserted into `s` after every element whose key is less than or
/// equal to `p`'s: the insertion step of a stable insertion sort.
pub open spec fn insert_sorted<L: Storable>(s: Seq<L>, p: L) -> Seq<L>
    decreases s.len(),
{
    if s.len() > 0 && !seq_le(sort_key(s.last()), sort_key(p)) {
        insert_sorted(s.drop_last(), p).push(s.last())
    } else {
        s.push(p)
    }
}

/// The batch sorted by record index: a stable insertion sort.
pub open spec fn sort_by_index<L: Storable>(s: Seq<L>) -> Seq<L>
    decreases s.len(),
{
    if s.len() == 0 {
        Seq::empty()
    } else {
        insert_sorted(sort_by_index(s.drop_last()), s.last())
    }
}

/// The batch is ordered by key.
pub open spec fn sorted_by_index<L: Storable>(s: Seq<L>) -> bool {
    forall|i: int, j: int|
        0 <= i < j < s.len() ==> seq_le(sort_key(#[trigger] s[i]), sort_key(#[trigger] s[j]))
}

proof fn lemma_insert_sorted_len<L: Storable>(s: Seq<L>, p: L)
    ensures
        insert_sorted(s, p).len() == s.len() + 1,
    decreases s.len(),
{
    if s.len() > 0 && !seq_le(sort_key(s.last()), sort_key(p)) {
        lemma_insert_sorted_len(s.drop_last(), p);
    }
}

proof fn lemma_insert_sorted_elems<L: Storable>(s: Seq<L>, p: L)
    ensures
        forall|i: int|
            0 <= i < insert_sorted(s, p).len() ==> (#[trigger] insert_sorted(s, p)[i]) == p
                || s.contains(insert_sorted(s, p)[i]),
    decreases s.len(),
{
    let r = insert_sorted(s, p);
    if s.len() > 0 && !seq_le(sort_key(s.last()), sort_key(p)) {
        lemma_insert_sorted_elems(s.drop_last(), p);
        let r0 = insert_sorted(s.drop_last(), p);
        assert forall|i: int| 0 <= i < r.len() implies (#[trigger] r[i]) == p || s.contains(
            r[i],
        ) by {
            if i < r.len() - 1 {
                assert(r[i] == r0[i]);
                if r0[i] != p {
                    let j = choose|j: int|
                        0 <= j < s.drop_last().len() && s.drop_last()[j] == r0[i];
                    assert(s[j] == r0[i]);
                }
            } else {
                assert(r[i] == s.last());
                assert(s[s.len() - 1] == s.last());
            }
        }
    } else {
        assert forall|i: int| 0 <= i < r.len() implies (#[trigger] r[i]) == p || s.contains(
            r[i],
        ) by {
            if i < s.len() {
                assert(r[i] == s[i]);
            }
        }
    }
}

proof fn lemma_insert_sorted_sorted<L: Storable>(s: Seq<L>, p: L)
    requires
        sorted_by_index(s),
    ensures
        sorted_by_index(insert_sorted(s, p)),
    decreases s.len(),
{
    let r = insert_sorted(s, p);
    lemma_insert_sorted_len(s, p);
    if s.len() > 0 && !seq_le(sort_key(s.last()), sort_key(p)) {
        let r0 = insert_sorted(s.drop_last(), p);
        assert(sorted_by_index(s.drop_last())) by {
            assert forall|i: int, j: int| 0 <= i < j < s.drop_last().len() implies seq_le(
                sort_key(#[trigger] s.drop_last()[i]),
                sort_key(#[trigger] s.drop_last()[j]),
            ) by {
                assert(s.drop_last()[i] == s[i]);
                assert(s.drop_last()[j] == s[j]);
            }
        }
        lemma_insert_sorted_sorted(s.drop_last(), p);
        lemma_insert_sorted_len(s.drop_last(), p);
        lemma_insert_sorted_elems(s.drop_last(), p);
        lemma_seq_le_total(sort_key(s.last()), sort_key(p));
        assert forall|i: int, j: int| 0 <= i < j < r.len() implies seq_le(
            sort_key(#[trigger] r[i]),
            sort_key(#[trigger] r[j]),
        ) by {
            if j < r.len() - 1 {
                assert(r[i] == r0[i]);
                assert(r[j] == r0[j]);
            } else {
                assert(r[j] == s.last());
                assert(r[i] == r0[i]);
                if r0[i] == p {
                    assert(seq_le(sort_key(p), sort_key(s.last())));
                } else {
                    let k = choose|k: int|
                        0 <= k < s.drop_last().len() && s.drop_last()[k] == r0[i];
                    assert(s[k] == r0[i]);
                    if k < s.len() - 1 {
                        assert(seq_le(sort_key(s[k]), sort_key(s[s.len() - 1])));
                    }
                    assert(s[s.len() - 1] == s.last());
                }
            }
        }
    } else {
        assert forall|i: int, j: int| 0 <= i < j < r.len() implies seq_le(
            sort_key(#[trigger] r[i]),
            sort_key(#[trigger] r[j]),
        ) by {
            if j < r.len() - 1 {
                assert(r[i] == s[i]);
                assert(r[j] == s[j]);
            } else {
                assert(r[j] == p);
                assert(r[i] == s[i]);
                lemma_seq_le_total(sort_key(s[i]), sort_key(p));
                if s.len() > 0 {
                    assert(seq_le(sort_key(s.last()), sort_key(p)));
                    if i < s.len() - 1 {
                        assert(seq_le(sort_key(s[i]), sort_key(s[s.len() - 1])));
                        assert(s[s.len() - 1] == s.last());
                        lemma_seq_le_trans(sort_key(s[i]), sort_key(s.last()), sort_key(p));
                    } else {
                        assert(s[i] == s.last());
                    }
                }
            }
        }
    }
}

proof fn lemma_insert_sorted_multiset<L: Storable>(s: Seq<L>, p: L)
    ensures
        insert_sorted(s, p).to_multiset() == s.to_multiset().insert(p),
    decreases s.len(),
{
    broadcast use vstd::seq_lib::group_to_multiset_ensures;

    if s.len() > 0 && !seq_le(sort_key(s.last()), sort_key(p)) {
        lemma_insert_sorted_multiset(s.drop_last(), p);
        assert(s.drop_last().push(s.last()) =~= s);
        assert(s.drop_last().to_multiset().insert(p).insert(s.last())
            =~= s.drop_last().to_multiset().insert(s.last()).insert(p));
    }
}

/// The sorted batch holds the same records: sorting drops and invents
/// nothing.
pub proof fn lemma_sort_by_index_permutes<L: Storable>(s: Seq<L>)
    ensures
        sort_by_index(s).to_multiset() == s.to_multiset(),
        sort_by_index(s).len() == s.len(),
    decreases s.len(),
{
    broadcast use vstd::seq_lib::group_to_multiset_ensures;

    if s.len() > 0 {
        lemma_sort_by_index_permutes(s.drop_last());
        lemma_insert_sorted_multiset(sort_by_index(s.drop_last()), s.last());
        lemma_insert_sorted_len(sort_by_index(s.drop_last()), s.last());
        assert(s.drop_last().push(s.last()) =~= s);
    }
}

/// The sorted batch is ordered by key.
pub proof fn lemma_sort_by_index_sorted<L: Storable>(s: Seq<L>)
    ensures
        sorted_by_index(sort_by_index(s)),
    decreases s.len(),
{
    if s.len() > 0 {
        lemma_sort_by_index_sorted(s.drop_last());
        lemma_insert_sorted_sorted(sort_by_index(s.drop_last()), s.last());
    }
}

/// The key a record sorts under, as a string.
fn key_of<L: Storable>(p: &L) -> (r: String)
    ensures
        r@ == sort_key(*p),
{
    match p.index() {
        Some(s) => s,
        None => "zzzz".to_owned(),
    }
}

/// Lexicographic comparison, verified against [`seq_le`].
pub fn str_le(a: &str, b: &str) -> (r: bool)
    ensures
        r == seq_le(a@, b@),
{
    let al = a.unicode_len();
    let bl = b.unicode_len();
    let mut i: usize = 0;
    proof {
        assert(a@.skip(0) =~= a@);
        assert(b@.skip(0) =~= b@);
    }
    while i < al && i < bl
        invariant
            i <= al == a@.len(),
            i <= bl == b@.len(),
            seq_le(a@, b@) == seq_le(a@.skip(i as int), b@.skip(i as int)),
            seq_le(b@, a@) == seq_le(b@.skip(i as int), a@.skip(i as int)),
        decreases al - i,
    {
        let ca = a.get_char(i);
        let cb = b.get_char(i);
        let ua = ca as u32;
        let ub = cb as u32;
        proof {
            assert(a@.skip(i as int)[0] == a@[i as int]);
            assert(b@.skip(i as int)[0] == b@[i as int]);
            assert(a@.skip(i as int).skip(1) =~= a@.skip(i + 1));
            assert(b@.skip(i as int).skip(1) =~= b@.skip(i + 1));
        }
        if ua < ub {
            return true;
        }
        if ua > ub {
            return false;
        }
        i = i + 1;
    }
    if i >= al {
        proof {
            assert(a@.skip(i as int).len() == 0);
        }
        true
    } else {
        proof {
            assert(b@.skip(i as int).len() == 0);
            assert(a@.skip(i as int).len() > 0);
        }
        false
    }
}

/// Inserts a record at its sorted place, after every record whose key is
/// less than or equal to its own.
fn insert_project<L: Storable>(out: &mut Vec<L>, p: L)
    ensures
        final(out)@ == insert_sorted(old(out)@, p),
{
    let kp = key_of(&p);
    let mut pos = out.len();
    let mut scanning = true;
    while scanning && pos > 0
        invariant
            pos <= out@.len(),
            out@ == old(out)@,
            kp@ == sort_key(p),
            forall|j: int|
                pos <= j < out@.len() ==> !seq_le(sort_key(#[trigger] out@[j]), sort_key(p)),
            !scanning ==> pos > 0 && seq_le(sort_key(out@[pos - 1]), sort_key(p)),
        decreases pos + (if scanning {
            1int
        } else {
            0int
        }),
    {
        let kj = key_of(&out[pos - 1]);
        if str_le(kj.as_str(), kp.as_str()) {
            scanning = false;
        } else {
            pos = pos - 1;
        }
    }
    let ghost orig = out@;
    let ghost gpos = pos as int;
    out.insert(pos, p);
    proof {
        lemma_insert_sorted_shape(orig, p, gpos);
        assert(orig.insert(gpos, p) =~= orig.subrange(0, gpos) + seq![p] + orig.subrange(
            gpos,
            orig.len() as int,
        ));
    }
}

/// Where the scan stopped is exactly where [`insert_sorted`] puts the
/// record.
proof fn lemma_insert_sorted_shape<L: Storable>(s: Seq<L>, p: L, pos: int)
    requires
        0 <= pos <= s.len(),
        forall|j: int| pos <= j < s.len() ==> !seq_le(sort_key(#[trigger] s[j]), sort_key(p)),
        pos > 0 ==> seq_le(sort_key(s[pos - 1]), sort_key(p)),
    ensures
        insert_sorted(s, p) == s.subrange(0, pos) + seq![p] + s.subrange(pos, s.len() as int),
    decreases s.len() - pos,
{
    if pos == s.len() {
        assert(insert_sorted(s, p) == s.push(p));
        assert(s.push(p) =~= s.subrange(0, pos) + seq![p] + s.subrange(pos, s.len() as int));
    } else {
        assert(!seq_le(sort_key(s[s.len() - 1]), sort_key(p)));
        assert(s[s.len() - 1] == s.last());
        if pos > 0 {
            assert(s.drop_last()[pos - 1] == s[pos - 1]);
        }
        lemma_insert_sorted_shape(s.drop_last(), p, pos);
        assert(insert_sorted(s, p) == insert_sorted(s.drop_last(), p).push(s.last()));
        assert((s.drop_last().subrange(0, pos) + seq![p] + s.drop_last().subrange(
            pos,
            s.drop_last().len() as int,
        )).push(s.last()) =~= s.subrange(0, pos) + seq![p] + s.subrange(pos, s.len() as int));
    }
}

/// Sorts a batch by record index; the sort is stable.
pub fn sort_projects<L: Storable>(list: ProjectList<L>) -> (r: ProjectList<L>)
    ensures
        r@ == sort_by_index(list@),
{
    let ghost whole = list@;
    let mut rest = list.projects;
    let mut out: Vec<L> = Vec::new();
    let n = rest.len();
    proof {
        assert(whole.len() == n);
        assert(whole.take(0) =~= Seq::<L>::empty());
        assert(out@ =~= sort_by_index(whole.take(0)));
    }
    let mut i: usize = 0;
    while rest.len() > 0
        invariant
            i <= whole.len(),
            whole.len() <= usize::MAX,
            rest@ == whole.skip(i as int),
            out@ == sort_by_index(whole.take(i as int)),
        decreases rest.len(),
    {
        let p = rest.remove(0);
        proof {
            assert(p == whole[i as int]);
            assert(rest@ =~= whole.skip(i + 1));
        }
        insert_project(&mut out, p);
        proof {
            assert(whole.take(i + 1).drop_last() =~= whole.take(i as int));
            assert(whole.take(i + 1).last() == whole[i as int]);
        }
        i = i + 1;
    }
    proof {
        assert(whole.take(i as int) =~= whole);
    }
    ProjectList { projects: out }
}

/// The position a term of the shape `N<digits>` asks for, if it has that
/// shape.
pub open spec fn term_position(term: Seq<char>) -> Option<usize> {
    if term.len() > 0 && term[0] == 'N' {
        parse_usize_spec(term.skip(1))
    } else {
        None
    }
}

/// Whether the record at position `i` of the sorted batch is selected by
/// the term: either the term asks for exactly this (one-based) position,
/// or the record's text matches the lowercased term.
pub open spec fn selected<L: Storable>(s: Seq<L>, term: Seq<char>, i: int) -> bool {
    ||| match term_position(term) {
        Some(n) => n == i + 1,
        None => false,
    }
    ||| s[i].matches_spec(lower_of(term))
}

/// The records of `s` from position `i` on that the term selects, in
/// order.
pub open spec fn select_rec<L: Storable>(s: Seq<L>, term: Seq<char>, i: int) -> Seq<L>
    decreases s.len() - i,
{
    if i < 0 || i >= s.len() {
        Seq::empty()
    } else {
        let rest = select_rec(s, term, i + 1);
        if selected(s, term, i) {
            seq![s[i]] + rest
        } else {
            rest
        }
    }
}

/// The records of the (sorted) batch that the term selects, in order.
pub open spec fn select_spec<L: Storable>(s: Seq<L>, term: Seq<char>) -> Seq<L> {
    select_rec(s, term, 0)
}

/// Keeps the records a term selects: the record at the term's one-based
/// position when the term is `N<digits>`, and every record matching the
/// lowercased term.
pub fn select_by_term<L: Storable>(list: ProjectList<L>, term: &str) -> (r: ProjectList<L>)
    ensures
        r@ == select_spec(list@, term@),
{
    let ghost whole = list@;
    let tl = term.unicode_len();
    let n_pos: Option<usize> = if tl > 0 && term.get_char(0) == 'N' {
        let rest_str = term.substring_char(1, tl);
        proof {
            assert(rest_str@ =~= term@.skip(1));
        }
        parse_usize(rest_str)
    } else {
        None
    };
    proof {
        assert(n_pos == term_position(term@));
    }
    let low = lowercase(term);
    let mut rest = list.projects;
    let mut out: Vec<L> = Vec::new();
    let n = rest.len();
    proof {
        assert(whole.len() == n);
        assert(select_rec(whole, term@, 0) =~= out@ + select_rec(whole, term@, 0));
    }
    let mut i: usize = 0;
    while rest.len() > 0
        invariant
            i <= whole.len(),
            whole.len() <= usize::MAX,
            n_pos == term_position(term@),
            low@ == lower_of(term@),
            rest@ == whole.skip(i as int),
            select_rec(whole, term@, 0) == out@ + select_rec(whole, term@, i as int),
        decreases rest.len(),
    {
        let p = rest.remove(0);
        proof {
            assert(p == whole[i as int]);
            assert(rest@ =~= whole.skip(i + 1));
        }
        let by_pos = match n_pos {
            Some(np) => np == i + 1,
            None => false,
        };
        let keep = if by_pos {
            true
        } else {
            p.matches_search(low.as_str())
        };
        proof {
            assert(keep == selected(whole, term@, i as int));
        }
        if keep {
            out.push(p);
            proof {
                assert(out@ + select_rec(whole, term@, i + 1) =~= (out@.drop_last() + seq![
                    whole[i as int],
                ] + select_rec(whole, term@, i + 1)));
                assert(out@.drop_last() + seq![whole[i as int]] + select_rec(whole, term@, i + 1)
                    =~= out@.drop_last() + (seq![whole[i as int]] + select_rec(
                    whole,
                    term@,
                    i + 1,
                )));
            }
        }
        i = i + 1;
    }
    proof {
        assert(select_rec(whole, term@, i as int).len() == 0);
        assert(select_rec(whole, term@, 0) =~= out@);
    }
    ProjectList { projects: out }
}

} // verus!
