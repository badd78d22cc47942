//! Date-descending arrangement of notes, with exact tie-breaking.
//!
//! Notes are paired with their insertion index and sorted by a strict order:
//! later date first; among equal dates, the later-inserted note first.  The
//! arrangement is defined by a specification-level insertion sort
//! ([`sort_desc`]), and the executable sort is proved to compute exactly
//! that sequence.

use vstd::prelude::*;

use crate::post::{TilView, TIL};
use crate::text::{
    lemma_lex_le_antisymmetric, lemma_lex_le_transitive, lemma_lex_lt_iff_not_le, lex_lt, str_eq,
    str_lt,
};

verus! {

/// The strict order of the arrangement: `x` stands before `y` when `x`'s
/// date is larger, or the dates are equal and `x` was inserted later.
pub open spec fn key_before(x: (TilView, int), y: (TilView, int)) -> bool {
    ||| lex_lt(y.0.meta.date, x.0.meta.date)
    ||| (y.0.meta.date == x.0.meta.date && x.1 > y.1)
}

/// The view of a note paired with its insertion index.
pub open spec fn pview(p: (TIL, usize)) -> (TilView, int) {
    (p.0@, p.1 as int)
}

/// The views of a sequence of paired notes.
pub open spec fn pviews(s: Seq<(TIL, usize)>) -> Seq<(TilView, int)> {
    s.map_values(|q: (TIL, usize)| pview(q))
}

/// Places `p` into `s` before the first element it stands before.
pub open spec fn insert_desc(p: (TilView, int), s: Seq<(TilView, int)>) -> Seq<(TilView, int)>
    decreases s.len(),
{
    if s.len() == 0 {
        seq![p]
    } else if key_before(s[0], p) {
        seq![s[0]] + insert_desc(p, s.drop_first())
    } else {
        seq![p] + s
    }
}

/// The arrangement: an insertion sort by [`key_before`].
pub open spec fn sort_desc(s: Seq<(TilView, int)>) -> Seq<(TilView, int)>
    decreases s.len(),
{
    if s.len() == 0 {
        Seq::empty()
    } else {
        insert_desc(s[0], sort_desc(s.drop_first()))
    }
}

/// The position at which [`insert_desc`] places its element.
pub open spec fn insert_point(p: (TilView, int), s: Seq<(TilView, int)>) -> int
    decreases s.len(),
{
    if s.len() == 0 {
        0
    } else if key_before(s[0], p) {
        1 + insert_point(p, s.drop_first())
    } else {
        0
    }
}

/// No two elements carry the same insertion index.
pub open spec fn distinct_indices(s: Seq<(TilView, int)>) -> bool {
    forall|k: int, k2: int| 0 <= k < k2 < s.len() ==> s[k].1 != s[k2].1
}

/// Strictly ordered by [`key_before`].
pub open spec fn sorted_desc(s: Seq<(TilView, int)>) -> bool {
    forall|k: int, k2: int| 0 <= k < k2 < s.len() ==> key_before(s[k], s[k2])
}

/// Of two pairs with different indices, one stands before the other.
pub proof fn lemma_key_before_total(x: (TilView, int), y: (TilView, int))
    requires
        x.1 != y.1,
    ensures
        key_before(x, y) || key_before(y, x),
{
    lemma_lex_lt_iff_not_le(x.0.meta.date, y.0.meta.date);
    lemma_lex_lt_iff_not_le(y.0.meta.date, x.0.meta.date);
}

/// [`key_before`] is transitive.
pub proof fn lemma_key_before_transitive(x: (TilView, int), y: (TilView, int), z: (TilView, int))
    requires
        key_before(x, y),
        key_before(y, z),
    ensures
        key_before(x, z),
{
    let dx = x.0.meta.date;
    let dy = y.0.meta.date;
    let dz = z.0.meta.date;
    if lex_lt(dy, dx) && lex_lt(dz, dy) {
        lemma_lex_le_transitive(dz, dy, dx);
        if dz == dx {
            lemma_lex_le_antisymmetric(dy, dx);
        }
    }
}

/// The insertion point is a boundary: everything left of it stands before
/// `p`, and the element at it (if any) does not.
pub proof fn lemma_insert_point(p: (TilView, int), s: Seq<(TilView, int)>)
    ensures
        0 <= insert_point(p, s) <= s.len(),
        forall|k: int| 0 <= k < insert_point(p, s) ==> key_before(#[trigger] s[k], p),
        insert_point(p, s) < s.len() ==> !key_before(s[insert_point(p, s)], p),
    decreases s.len(),
{
    if s.len() != 0 && key_before(s[0], p) {
        lemma_insert_point(p, s.drop_first());
        let j = insert_point(p, s);
        assert forall|k: int| 0 <= k < j implies key_before(#[trigger] s[k], p) by {
            if k > 0 {
                assert(s.drop_first()[k - 1] == s[k]);
            }
        }
        if j < s.len() {
            assert(s.drop_first()[j - 1] == s[j]);
        }
    }
}

/// At any boundary position `j`, insertion is the concatenation
/// `s[..j] + [p] + s[j..]`.
pub proof fn lemma_insert_desc_at(p: (TilView, int), s: Seq<(TilView, int)>, j: int)
    requires
        0 <= j <= s.len(),
        forall|k: int| 0 <= k < j ==> key_before(#[trigger] s[k], p),
        j < s.len() ==> !key_before(s[j], p),
    ensures
        insert_desc(p, s) == s.take(j) + seq![p] + s.skip(j),
    decreases s.len(),
{
    if s.len() == 0 {
        assert(insert_desc(p, s) =~= s.take(j) + seq![p] + s.skip(j));
    } else if j == 0 {
        assert(!key_before(s[0], p));
        assert(insert_desc(p, s) =~= s.take(0) + seq![p] + s.skip(0));
    } else {
        assert(key_before(s[0], p));
        let d = s.drop_first();
        assert forall|k: int| 0 <= k < j - 1 implies key_before(#[trigger] d[k], p) by {
            assert(d[k] == s[k + 1]);
        }
        if j - 1 < d.len() {
            assert(d[j - 1] == s[j]);
        }
        lemma_insert_desc_at(p, d, j - 1);
        assert(insert_desc(p, s) =~= s.take(j) + seq![p] + s.skip(j)) by {
            assert(insert_desc(p, s) == seq![s[0]] + (d.take(j - 1) + seq![p] + d.skip(j - 1)));
            assert forall|k: int|
                0 <= k < s.len() + 1 implies (seq![s[0]] + (d.take(j - 1) + seq![p] + d.skip(
                j - 1)))[k] == (s.take(j) + seq![p] + s.skip(j))[k] by {
                if k > 0 && k < j {
                    assert(d.take(j - 1)[k - 1] == s[k]);
                }
            }
        }
    }
}

/// Decides [`key_before`] on the views of two paired notes.
fn key_before_exec(a: &(TIL, usize), b: &(TIL, usize)) -> (r: bool)
    ensures
        r == key_before(pview(*a), pview(*b)),
{
    if str_lt(b.0.meta.date.as_str(), a.0.meta.date.as_str()) {
        true
    } else if str_eq(a.0.meta.date.as_str(), b.0.meta.date.as_str()) {
        a.1 > b.1
    } else {
        false
    }
}

/// Places one paired note into an already arranged vector, computing
/// exactly [`insert_desc`] on the views.
fn insert_pair(v: &mut Vec<(TIL, usize)>, p: (TIL, usize))
    ensures
        pviews(final(v)@) == insert_desc(pview(p), pviews(old(v)@)),
{
    let ghost s = pviews(v@);
    let ghost pv = pview(p);
    let mut j: usize = 0;
    while j < v.len() && key_before_exec(&v[j], &p)
        invariant
            0 <= j <= v.len(),
            v@ == old(v)@,
            s == pviews(v@),
            pv == pview(p),
            forall|k: int| 0 <= k < j ==> key_before(#[trigger] s[k], pv),
        decreases v.len() - j,
    {
        j = j + 1;
    }
    proof {
        assert(j < v@.len() ==> !key_before(s[j as int], pv));
        lemma_insert_desc_at(pv, s, j as int);
    }
    v.insert(j, p);
    proof {
        assert(pviews(v@) =~= s.take(j as int) + seq![pv] + s.skip(j as int));
    }
}

/// Arranges the paired notes date-descending, ties inserted-later-first,
/// computing exactly [`sort_desc`] on the views.
pub fn sort_pairs_desc(v: Vec<(TIL, usize)>) -> (r: Vec<(TIL, usize)>)
    ensures
        pviews(r@) == sort_desc(pviews(v@)),
{
    let ghost orig = pviews(v@);
    let mut v = v;
    let mut out: Vec<(TIL, usize)> = Vec::new();
    proof {
        assert(orig.skip(orig.len() as int) =~= Seq::empty());
        assert(pviews(out@) =~= Seq::<(TilView, int)>::empty());
        assert(pviews(v@) =~= orig.take(v@.len() as int));
    }
    while v.len() > 0
        invariant
            v@.len() <= orig.len(),
            pviews(v@) == orig.take(v@.len() as int),
            pviews(out@) == sort_desc(orig.skip(v@.len() as int)),
        decreases v.len(),
    {
        let ghost n = v@.len() as int;
        let p = v.pop().unwrap();
        proof {
            assert(pview(p) == orig.take(n)[n - 1]);
            assert(orig.take(n)[n - 1] == orig[n - 1]);
            assert(pviews(v@) =~= orig.take(n).subrange(0, n - 1));
            assert(orig.take(n).subrange(0, n - 1) =~= orig.take(n - 1));
            let t = orig.skip(n - 1);
            assert(t.len() > 0);
            assert(t[0] == orig[n - 1]);
            assert(t.drop_first() =~= orig.skip(n));
            assert(sort_desc(t) == insert_desc(orig[n - 1], sort_desc(orig.skip(n))));
        }
        insert_pair(&mut out, p);
    }
    proof {
        assert(orig.skip(0) =~= orig);
    }
    out
}

} // verus!
