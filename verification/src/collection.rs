//! The collection's derived views: chronological order, tag grouping, and
//! tag counts.
//!
//! Each view is pinned to a specification-level function of the collection's
//! view, so two runs over equal collections yield equal views.

use vstd::prelude::*;

use crate::post::{tags_strictly_sorted, TilView, TIL, TILs};
use crate::sort::{pviews, sort_desc, sort_pairs_desc};
use crate::text::{lex_lt, str_eq, str_lt};

verus! {

/// Each note paired with its insertion index.
pub open spec fn pair_seq(s: Seq<TilView>) -> Seq<(TilView, int)> {
    Seq::new(s.len(), |i: int| (s[i], i))
}

/// All notes arranged date-descending; equal dates inserted-later-first.
pub open spec fn by_age_spec(s: Seq<TilView>) -> Seq<TilView> {
    sort_desc(pair_seq(s)).map_values(|p: (TilView, int)| p.0)
}

/// Whether a note carries the given tag.
pub open spec fn has_tag(t: TilView, tag: Seq<char>) -> bool {
    t.meta.tags.contains(tag)
}

/// The paired notes that carry the given tag, in their original order.
pub open spec fn filter_tag(s: Seq<(TilView, int)>, tag: Seq<char>) -> Seq<(TilView, int)>
    decreases s.len(),
{
    if s.len() == 0 {
        Seq::empty()
    } else {
        (if has_tag(s[0].0, tag) {
            seq![s[0]]
        } else {
            Seq::empty()
        }) + filter_tag(s.drop_first(), tag)
    }
}

/// The notes carrying the given tag, arranged date-descending.
pub open spec fn by_tag_list_spec(s: Seq<TilView>, tag: Seq<char>) -> Seq<TilView> {
    sort_desc(filter_tag(pair_seq(s), tag)).map_values(|p: (TilView, int)| p.0)
}

/// Places a tag into a sorted tag list, keeping it sorted and
/// duplicate-free.
pub open spec fn insert_tag(t: Seq<char>, acc: Seq<Seq<char>>) -> Seq<Seq<char>>
    decreases acc.len(),
{
    if acc.len() == 0 {
        seq![t]
    } else if lex_lt(acc[0], t) {
        seq![acc[0]] + insert_tag(t, acc.drop_first())
    } else if acc[0] == t {
        acc
    } else {
        seq![t] + acc
    }
}

/// Folds one note's tags into the accumulated tag list.
pub open spec fn merge_tags(acc: Seq<Seq<char>>, ts: Seq<Seq<char>>) -> Seq<Seq<char>>
    decreases ts.len(),
{
    if ts.len() == 0 {
        acc
    } else {
        merge_tags(insert_tag(ts[0], acc), ts.drop_first())
    }
}

/// Folds every note's tags into the accumulated tag list.
pub open spec fn collect_tags(acc: Seq<Seq<char>>, s: Seq<TilView>) -> Seq<Seq<char>>
    decreases s.len(),
{
    if s.len() == 0 {
        acc
    } else {
        collect_tags(merge_tags(acc, s[0].meta.tags), s.drop_first())
    }
}

/// Every tag of any note, each once, in ascending lexicographic order.
pub open spec fn tags_spec(s: Seq<TilView>) -> Seq<Seq<char>> {
    collect_tags(Seq::empty(), s)
}

/// The concatenation of each note's tags, notes in insertion order: a tag
/// carried by several notes appears once per note.
pub open spec fn concat_tags(s: Seq<TilView>) -> Seq<Seq<char>>
    decreases s.len(),
{
    if s.len() == 0 {
        Seq::empty()
    } else {
        s[0].meta.tags + concat_tags(s.drop_first())
    }
}

/// The position at which [`insert_tag`] places its tag.
pub open spec fn tag_point(t: Seq<char>, s: Seq<Seq<char>>) -> int
    decreases s.len(),
{
    if s.len() == 0 {
        0
    } else if lex_lt(s[0], t) {
        1 + tag_point(t, s.drop_first())
    } else {
        0
    }
}

/// The tag's position is a boundary: everything left of it is strictly
/// below the tag, and the element at it (if any) is not.
pub proof fn lemma_tag_point(t: Seq<char>, s: Seq<Seq<char>>)
    ensures
        0 <= tag_point(t, s) <= s.len(),
        forall|k: int| 0 <= k < tag_point(t, s) ==> lex_lt(#[trigger] s[k], t),
        tag_point(t, s) < s.len() ==> !lex_lt(s[tag_point(t, s)], t),
    decreases s.len(),
{
    if s.len() != 0 && lex_lt(s[0], t) {
        lemma_tag_point(t, s.drop_first());
        let j = tag_point(t, s);
        assert forall|k: int| 0 <= k < j implies lex_lt(#[trigger] s[k], t) by {
            if k > 0 {
                assert(s.drop_first()[k - 1] == s[k]);
            }
        }
        if j < s.len() {
            assert(s.drop_first()[j - 1] == s[j]);
        }
    }
}

/// Placing a tag into a sorted list keeps it sorted, and afterwards the
/// list holds the tag.
pub proof fn lemma_insert_tag_sorted(t: Seq<char>, s: Seq<Seq<char>>)
    requires
        tags_strictly_sorted(s),
    ensures
        tags_strictly_sorted(insert_tag(t, s)),
        insert_tag(t, s).contains(t),
        forall|x: Seq<char>| s.contains(x) ==> #[trigger] insert_tag(t, s).contains(x),
        forall|x: Seq<char>| #[trigger] insert_tag(t, s).contains(x) ==> x == t || s.contains(x),
{
    let j = tag_point(t, s);
    lemma_tag_point(t, s);
    lemma_insert_tag_at(t, s, j);
    let r = insert_tag(t, s);
    if j < s.len() && s[j] == t {
        assert(r.contains(t)) by {
            assert(r[j] == t);
        }
    } else {
        if j < s.len() {
            crate::text::lemma_lex_lt_iff_not_le(s[j], t);
            assert(lex_lt(t, s[j]));
        }
        assert forall|k: int|
            0 <= k < r.len() implies r[k] == (if k < j {
            s[k]
        } else if k == j {
            t
        } else {
            s[k - 1]
        }) by {}
        assert forall|k: int, k2: int| 0 <= k < k2 < r.len() implies lex_lt(
            #[trigger] r[k],
            #[trigger] r[k2],
        ) by {
            if k < j && k2 == j {
                assert(lex_lt(s[k], t));
            } else if k == j && k2 > j {
                assert(lex_lt(t, s[j]));
                if k2 - 1 > j {
                    crate::text::lemma_lex_lt_transitive(t, s[j], s[k2 - 1]);
                }
            }
        }
        assert(r.contains(t)) by {
            assert(r[j] == t);
        }
        assert forall|x: Seq<char>| s.contains(x) implies #[trigger] r.contains(x) by {
            let k = choose|k: int| 0 <= k < s.len() && s[k] == x;
            if k < j {
                assert(r[k] == x);
            } else {
                assert(r[k + 1] == x);
            }
        }
        assert forall|x: Seq<char>| #[trigger] r.contains(x) implies x == t || s.contains(x) by {
            let k = choose|k: int| 0 <= k < r.len() && r[k] == x;
            if k < j {
                assert(s[k] == x);
            } else if k > j {
                assert(s[k - 1] == x);
            }
        }
    }
}

/// Folding a list of tags into a sorted list keeps it sorted; afterwards
/// the list holds exactly the old tags and the folded ones.
pub proof fn lemma_merge_tags_sorted(acc: Seq<Seq<char>>, ts: Seq<Seq<char>>)
    requires
        tags_strictly_sorted(acc),
    ensures
        tags_strictly_sorted(merge_tags(acc, ts)),
        forall|x: Seq<char>| acc.contains(x) ==> #[trigger] merge_tags(acc, ts).contains(x),
        forall|x: Seq<char>| ts.contains(x) ==> #[trigger] merge_tags(acc, ts).contains(x),
        forall|x: Seq<char>|
            #[trigger] merge_tags(acc, ts).contains(x) ==> acc.contains(x) || ts.contains(x),
    decreases ts.len(),
{
    if ts.len() != 0 {
        let a2 = insert_tag(ts[0], acc);
        lemma_insert_tag_sorted(ts[0], acc);
        lemma_merge_tags_sorted(a2, ts.drop_first());
        let m = merge_tags(acc, ts);
        assert(m == merge_tags(a2, ts.drop_first()));
        assert forall|x: Seq<char>| ts.contains(x) implies #[trigger] m.contains(x) by {
            let k = choose|k: int| 0 <= k < ts.len() && ts[k] == x;
            if k == 0 {
                assert(a2.contains(x));
            } else {
                assert(ts.drop_first()[k - 1] == x);
                assert(ts.drop_first().contains(x));
            }
        }
        assert forall|x: Seq<char>| #[trigger] m.contains(x) implies acc.contains(x) || ts.contains(
            x,
        ) by {
            if !acc.contains(x) {
                if ts.drop_first().contains(x) {
                    let k = choose|k: int| 0 <= k < ts.drop_first().len() && ts.drop_first()[k] == x;
                    assert(ts[k + 1] == x);
                } else {
                    assert(a2.contains(x));
                    assert(x == ts[0]);
                }
            }
        }
    }
}

/// At a boundary position `j`, placing a tag either finds it already there
/// or splices it in.
proof fn lemma_insert_tag_at(t: Seq<char>, s: Seq<Seq<char>>, j: int)
    requires
        0 <= j <= s.len(),
        forall|k: int| 0 <= k < j ==> lex_lt(#[trigger] s[k], t),
        j < s.len() ==> !lex_lt(s[j], t),
    ensures
        insert_tag(t, s) == if j < s.len() && s[j] == t {
            s
        } else {
            s.take(j) + seq![t] + s.skip(j)
        },
    decreases s.len(),
{
    if s.len() == 0 {
        assert(insert_tag(t, s) =~= s.take(j) + seq![t] + s.skip(j));
    } else if j == 0 {
        if s[0] == t {
        } else {
            assert(insert_tag(t, s) =~= s.take(0) + seq![t] + s.skip(0));
        }
    } else {
        let d = s.drop_first();
        assert forall|k: int| 0 <= k < j - 1 implies lex_lt(#[trigger] d[k], t) by {
            assert(d[k] == s[k + 1]);
        }
        if j - 1 < d.len() {
            assert(d[j - 1] == s[j]);
        }
        lemma_insert_tag_at(t, d, j - 1);
        if j < s.len() && s[j] == t {
            assert(insert_tag(t, s) =~= s);
        } else {
            assert(insert_tag(t, s) == seq![s[0]] + (d.take(j - 1) + seq![t] + d.skip(j - 1)));
            assert forall|k: int|
                0 <= k < s.len() + 1 implies (seq![s[0]] + (d.take(j - 1) + seq![t] + d.skip(
                j - 1)))[k] == (s.take(j) + seq![t] + s.skip(j))[k] by {
                if k > 0 && k < j {
                    assert(d.take(j - 1)[k - 1] == s[k]);
                }
            }
            assert(insert_tag(t, s) =~= s.take(j) + seq![t] + s.skip(j));
        }
    }
}

/// Places one tag into a sorted vector of tags, computing exactly
/// [`insert_tag`] on the views.
pub(crate) fn insert_tag_exec(acc: &mut Vec<String>, t: &String)
    ensures
        final(acc).deep_view() == insert_tag(t@, old(acc).deep_view()),
{
    let ghost s = acc.deep_view();
    let mut j: usize = 0;
    while j < acc.len() && str_lt(acc[j].as_str(), t.as_str())
        invariant
            0 <= j <= acc.len(),
            acc@ == old(acc)@,
            s == acc.deep_view(),
            forall|k: int| 0 <= k < j ==> lex_lt(#[trigger] s[k], t@),
        decreases acc.len() - j,
    {
        j = j + 1;
    }
    proof {
        lemma_insert_tag_at(t@, s, j as int);
    }
    if j < acc.len() && str_eq(acc[j].as_str(), t.as_str()) {
        proof {
            assert(acc.deep_view() =~= s);
        }
    } else {
        acc.insert(j, t.clone());
        proof {
            assert(acc.deep_view() =~= s.take(j as int) + seq![t@] + s.skip(j as int));
        }
    }
}

/// Whether the note carries the tag, decided on the views.
pub fn has_tag_exec(til: &TIL, tag: &String) -> (r: bool)
    ensures
        r == has_tag(til@, tag@),
{
    let ghost ts = til@.meta.tags;
    let mut j: usize = 0;
    while j < til.meta.tags.len()
        invariant
            0 <= j <= til.meta.tags.len(),
            ts == til@.meta.tags,
            ts.len() == til.meta.tags.len(),
            forall|k: int| 0 <= k < j ==> #[trigger] ts[k] != tag@,
        decreases til.meta.tags.len() - j,
    {
        if str_eq(til.meta.tags[j].as_str(), tag.as_str()) {
            proof {
                assert(ts[j as int] == tag@);
            }
            return true;
        }
        j = j + 1;
    }
    proof {
        assert(!ts.contains(tag@));
    }
    false
}

/// Copies the notes out of an arranged pair vector, in order.
fn strip_pairs(v: &Vec<(TIL, usize)>) -> (r: Vec<TIL>)
    ensures
        r.deep_view() == pviews(v@).map_values(|p: (TilView, int)| p.0),
{
    let mut r: Vec<TIL> = Vec::new();
    let mut i: usize = 0;
    while i < v.len()
        invariant
            0 <= i <= v.len(),
            r.deep_view().len() == i,
            forall|j: int| 0 <= j < i ==> r.deep_view()[j] == pviews(v@)[j].0,
        decreases v.len() - i,
    {
        let ghost before = r.deep_view();
        r.push(v[i].0.duplicate());
        proof {
            assert(r.deep_view() =~= before.push(v@[i as int].0@));
            assert(pviews(v@)[i as int] == (v@[i as int].0@, v@[i as int].1 as int));
        }
        i = i + 1;
    }
    proof {
        assert(r.deep_view() =~= pviews(v@).map_values(|p: (TilView, int)| p.0));
    }
    r
}

impl TILs {
    /// Pairs each note with its insertion index.
    fn pair_up(&self) -> (r: Vec<(TIL, usize)>)
        ensures
            pviews(r@) == pair_seq(self@),
    {
        let mut r: Vec<(TIL, usize)> = Vec::new();
        let mut i: usize = 0;
        while i < self.0.len()
            invariant
                0 <= i <= self.0.len(),
                self.0.deep_view().len() == self.0.len(),
                r@.len() == i,
                forall|j: int| 0 <= j < i ==> pviews(r@)[j] == (self@[j], j),
            decreases self.0.len() - i,
        {
            let ghost before = pviews(r@);
            r.push((self.0[i].duplicate(), i));
            proof {
                assert(pviews(r@) =~= before.push((self@[i as int], i as int)));
            }
            i = i + 1;
        }
        proof {
            assert(pviews(r@) =~= pair_seq(self@));
        }
        r
    }

    /// All notes, most recent date first; equal dates keep their original
    /// relative order reversed (the later-inserted note first).
    pub fn by_age(&self) -> (r: Vec<TIL>)
        ensures
            r.deep_view() == by_age_spec(self@),
    {
        let pairs = self.pair_up();
        let sorted = sort_pairs_desc(pairs);
        strip_pairs(&sorted)
    }

    /// Every note's tags, concatenated in insertion order (each note's own
    /// tags in their stored ascending order); a tag carried by several
    /// notes appears once per note.
    pub fn tags(&self) -> (r: Vec<String>)
        ensures
            r.deep_view() == concat_tags(self@),
    {
        let mut r: Vec<String> = Vec::new();
        let mut i: usize = 0;
        proof {
            assert(self@.skip(0) =~= self@);
            assert(r.deep_view() =~= Seq::<Seq<char>>::empty());
            assert(Seq::<Seq<char>>::empty() + concat_tags(self@) =~= concat_tags(self@));
        }
        while i < self.0.len()
            invariant
                0 <= i <= self.0.len(),
                self.0.deep_view().len() == self.0.len(),
                concat_tags(self@) == r.deep_view() + concat_tags(self@.skip(i as int)),
            decreases self.0.len() - i,
        {
            let ghost outer = self@.skip(i as int);
            let ghost ts = self@[i as int].meta.tags;
            let ghost rest = concat_tags(self@.skip(i as int + 1));
            let post_tags = &self.0[i].meta.tags;
            let mut j: usize = 0;
            proof {
                assert(outer[0] == self@[i as int]);
                assert(outer.drop_first() =~= self@.skip(i as int + 1));
                assert(concat_tags(outer) == ts + rest);
                assert(ts.skip(0) =~= ts);
                assert(r.deep_view() + (ts + rest) =~= r.deep_view() + ts.skip(0) + rest);
            }
            while j < post_tags.len()
                invariant
                    0 <= j <= post_tags.len(),
                    post_tags.deep_view() == ts,
                    ts.len() == post_tags.len(),
                    rest == concat_tags(self@.skip(i as int + 1)),
                    concat_tags(self@) == r.deep_view() + ts.skip(j as int) + rest,
                decreases post_tags.len() - j,
            {
                let ghost before = r.deep_view();
                r.push(post_tags[j].clone());
                proof {
                    assert(r.deep_view() =~= before.push(ts[j as int]));
                    assert(before + ts.skip(j as int) =~= before.push(ts[j as int]) + ts.skip(
                        j as int + 1,
                    ));
                }
                j = j + 1;
            }
            proof {
                assert(r.deep_view() + ts.skip(ts.len() as int) =~= r.deep_view());
            }
            i = i + 1;
        }
        proof {
            assert(self@.skip(self@.len() as int) =~= Seq::<TilView>::empty());
            assert(r.deep_view() + concat_tags(self@.skip(self@.len() as int)) =~= r.deep_view());
        }
        r
    }

    /// Every tag of any note, each once, in ascending lexicographic order.
    pub fn distinct_tags(&self) -> (r: Vec<String>)
        ensures
            r.deep_view() == tags_spec(self@),
    {
        let mut acc: Vec<String> = Vec::new();
        let mut i: usize = 0;
        proof {
            assert(self@.skip(0) =~= self@);
            assert(acc.deep_view() =~= Seq::<Seq<char>>::empty());
        }
        while i < self.0.len()
            invariant
                0 <= i <= self.0.len(),
                self.0.deep_view().len() == self.0.len(),
                collect_tags(acc.deep_view(), self@.skip(i as int)) == tags_spec(self@),
            decreases self.0.len() - i,
        {
            let ghost outer = self@.skip(i as int);
            let ghost ts = self@[i as int].meta.tags;
            let post_tags = &self.0[i].meta.tags;
            let mut j: usize = 0;
            proof {
                assert(outer[0] == self@[i as int]);
                assert(outer.drop_first() =~= self@.skip(i as int + 1));
                assert(ts.skip(0) =~= ts);
            }
            while j < post_tags.len()
                invariant
                    0 <= j <= post_tags.len(),
                    post_tags.deep_view() == ts,
                    ts.len() == post_tags.len(),
                    collect_tags(merge_tags(acc.deep_view(), ts.skip(j as int)), self@.skip(
                    i as int + 1)) == tags_spec(self@),
                decreases post_tags.len() - j,
            {
                let ghost inner = ts.skip(j as int);
                proof {
                    assert(inner[0] == ts[j as int]);
                    assert(inner.drop_first() =~= ts.skip(j as int + 1));
                }
                insert_tag_exec(&mut acc, &post_tags[j]);
                j = j + 1;
            }
            proof {
                assert(ts.skip(ts.len() as int) =~= Seq::<Seq<char>>::empty());
            }
            i = i + 1;
        }
        proof {
            assert(self@.skip(self@.len() as int) =~= Seq::<TilView>::empty());
        }
        acc
    }

    /// The notes carrying the given tag, arranged date-descending.
    pub fn posts_with_tag(&self, tag: &String) -> (r: Vec<TIL>)
        ensures
            r.deep_view() == by_tag_list_spec(self@, tag@),
    {
        let ghost all = pair_seq(self@);
        let mut pairs: Vec<(TIL, usize)> = Vec::new();
        let mut i: usize = 0;
        proof {
            assert(all.skip(0) =~= all);
            assert(pviews(pairs@) =~= Seq::<(TilView, int)>::empty());
            assert(filter_tag(all, tag@) =~= pviews(pairs@) + filter_tag(all.skip(0), tag@));
        }
        while i < self.0.len()
            invariant
                0 <= i <= self.0.len(),
                self.0.deep_view().len() == self.0.len(),
                all == pair_seq(self@),
                filter_tag(all, tag@) == pviews(pairs@) + filter_tag(
                    all.skip(i as int),
                    tag@,
                ),
            decreases self.0.len() - i,
        {
            let ghost rest = all.skip(i as int);
            proof {
                assert(rest[0] == all[i as int]);
                assert(rest.drop_first() =~= all.skip(i as int + 1));
            }
            if has_tag_exec(&self.0[i], tag) {
                let ghost before = pviews(pairs@);
                pairs.push((self.0[i].duplicate(), i));
                proof {
                    assert(pviews(pairs@) =~= before + seq![all[i as int]]);
                    assert((before + seq![all[i as int]]) + filter_tag(all.skip(i as int + 1), tag@)
                        =~= before + (seq![all[i as int]] + filter_tag(
                        all.skip(i as int + 1),
                        tag@,
                    )));
                }
            } else {
                proof {
                    assert(Seq::<(TilView, int)>::empty() + filter_tag(
                        all.skip(i as int + 1),
                        tag@,
                    ) =~= filter_tag(all.skip(i as int + 1), tag@));
                }
            }
            i = i + 1;
        }
        proof {
            assert(all.skip(all.len() as int) =~= Seq::<(TilView, int)>::empty());
            assert(filter_tag(all.skip(all.len() as int), tag@) =~= Seq::<(TilView, int)>::empty());
            assert(pviews(pairs@) =~= filter_tag(all, tag@));
        }
        let sorted = sort_pairs_desc(pairs);
        strip_pairs(&sorted)
    }

    /// The tag grouping: every tag with its arranged note list, tags in
    /// ascending lexicographic order.
    pub fn by_tag(&self) -> (r: Vec<(String, Vec<TIL>)>)
        ensures
            r@.len() == tags_spec(self@).len(),
            forall|k: int|
                0 <= k < r@.len() ==> (#[trigger] r@[k]).0@ == tags_spec(self@)[k] && r@[k].1.deep_view()
                    == by_tag_list_spec(self@, tags_spec(self@)[k]),
    {
        let tag_list = self.distinct_tags();
        let mut r: Vec<(String, Vec<TIL>)> = Vec::new();
        let mut k: usize = 0;
        while k < tag_list.len()
            invariant
                0 <= k <= tag_list.len(),
                tag_list.deep_view() == tags_spec(self@),
                tag_list.deep_view().len() == tag_list.len(),
                r@.len() == k,
                forall|j: int|
                    0 <= j < k ==> (#[trigger] r@[j]).0@ == tags_spec(self@)[j] && r@[j].1.deep_view()
                        == by_tag_list_spec(self@, tags_spec(self@)[j]),
            decreases tag_list.len() - k,
        {
            let lst = self.posts_with_tag(&tag_list[k]);
            r.push((tag_list[k].clone(), lst));
            k = k + 1;
        }
        r
    }

    /// Every tag with the number of notes that carry it, tags in ascending
    /// lexicographic order.
    pub fn tag_counts(&self) -> (r: Vec<(String, usize)>)
        ensures
            r@.len() == tags_spec(self@).len(),
            forall|k: int|
                0 <= k < r@.len() ==> (#[trigger] r@[k]).0@ == tags_spec(self@)[k] && r@[k].1
                    == by_tag_list_spec(self@, tags_spec(self@)[k]).len(),
    {
        let groups = self.by_tag();
        let mut r: Vec<(String, usize)> = Vec::new();
        let mut k: usize = 0;
        while k < groups.len()
            invariant
                0 <= k <= groups.len(),
                groups@.len() == tags_spec(self@).len(),
                forall|j: int|
                    0 <= j < groups@.len() ==> (#[trigger] groups@[j]).0@ == tags_spec(self@)[j]
                        && groups@[j].1.deep_view() == by_tag_list_spec(
                        self@,
                        tags_spec(self@)[j],
                    ),
                r@.len() == k,
                forall|j: int|
                    0 <= j < k ==> (#[trigger] r@[j]).0@ == tags_spec(self@)[j] && r@[j].1
                        == by_tag_list_spec(self@, tags_spec(self@)[j]).len(),
            decreases groups.len() - k,
        {
            r.push((groups[k].0.clone(), groups[k].1.len()));
            k = k + 1;
        }
        r
    }
}

} // verus!
