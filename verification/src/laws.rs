//! The collection's laws: what the arrangement and the tag views guarantee,
//! stated and proved over the specification functions that the executable
//! contracts are pinned to.

use vstd::prelude::*;

use crate::collection::{
    by_age_spec, by_tag_list_spec, collect_tags, filter_tag, has_tag, lemma_merge_tags_sorted,
    merge_tags, pair_seq, tags_spec,
};
use crate::post::{tags_strictly_sorted, TilView};
use crate::sort::{
    distinct_indices, insert_desc, insert_point, key_before, lemma_insert_desc_at,
    lemma_insert_point, lemma_key_before_total, lemma_key_before_transitive, sort_desc,
    sorted_desc,
};
use crate::text::lex_lt;

verus! {

/// One insertion into an arranged, index-distinct sequence keeps it
/// arranged and index-distinct, and adds exactly the new pair.
proof fn lemma_insert_desc_step(p: (TilView, int), r: Seq<(TilView, int)>)
    requires
        sorted_desc(r),
        distinct_indices(r),
        forall|k: int| 0 <= k < r.len() ==> (#[trigger] r[k]).1 != p.1,
    ensures
        insert_desc(p, r).len() == r.len() + 1,
        sorted_desc(insert_desc(p, r)),
        distinct_indices(insert_desc(p, r)),
        forall|k: int|
            0 <= k < r.len() + 1 ==> #[trigger] insert_desc(p, r)[k] == p || exists|i: int|
                0 <= i < r.len() && insert_desc(p, r)[k] == r[i],
        forall|i: int|
            0 <= i < r.len() ==> exists|k: int|
                0 <= k < r.len() + 1 && insert_desc(p, r)[k] == #[trigger] r[i],
        exists|k: int| 0 <= k < r.len() + 1 && insert_desc(p, r)[k] == p,
{
    let j = insert_point(p, r);
    lemma_insert_point(p, r);
    lemma_insert_desc_at(p, r, j);
    let t = insert_desc(p, r);
    assert forall|k: int|
        0 <= k < t.len() implies t[k] == (if k < j {
        r[k]
    } else if k == j {
        p
    } else {
        r[k - 1]
    }) by {}
    if j < r.len() {
        lemma_key_before_total(p, r[j]);
    }
    assert forall|k: int, k2: int| 0 <= k < k2 < t.len() implies key_before(
        #[trigger] t[k],
        #[trigger] t[k2],
    ) by {
        if k == j && k2 > j {
            assert(key_before(p, r[j]));
            if k2 - 1 > j {
                assert(key_before(r[j], r[k2 - 1]));
                lemma_key_before_transitive(p, r[j], r[k2 - 1]);
            }
        }
    }
    assert forall|k: int, k2: int| 0 <= k < k2 < t.len() implies (#[trigger] t[k]).1 != (
    #[trigger] t[k2]).1 by {}
    assert(t[j] == p);
    assert forall|i: int| 0 <= i < r.len() implies exists|k: int|
        0 <= k < r.len() + 1 && t[k] == #[trigger] r[i] by {
        if i < j {
            assert(t[i] == r[i]);
        } else {
            assert(t[i + 1] == r[i]);
        }
    }
}

/// The arrangement of a sequence of index-distinct pairs is a permutation
/// of them, strictly ordered by [`key_before`].
#[verifier::rlimit(60)]
pub proof fn lemma_sort_desc_ordered(s: Seq<(TilView, int)>)
    requires
        distinct_indices(s),
    ensures
        sort_desc(s).len() == s.len(),
        sorted_desc(sort_desc(s)),
        distinct_indices(sort_desc(s)),
        forall|k: int|
            0 <= k < s.len() ==> exists|i: int|
                0 <= i < s.len() && #[trigger] sort_desc(s)[k] == s[i],
        forall|i: int|
            0 <= i < s.len() ==> exists|k: int| 0 <= k < s.len() && sort_desc(s)[k] == #[trigger] s[i],
    decreases s.len(),
{
    if s.len() != 0 {
        let d = s.drop_first();
        assert forall|k: int, k2: int| 0 <= k < k2 < d.len() implies (#[trigger] d[k]).1 != (
        #[trigger] d[k2]).1 by {
            assert(d[k] == s[k + 1]);
            assert(d[k2] == s[k2 + 1]);
        }
        lemma_sort_desc_ordered(d);
        let r = sort_desc(d);
        let p = s[0];
        assert forall|k: int| 0 <= k < r.len() implies (#[trigger] r[k]).1 != p.1 by {
            let i = choose|i: int| 0 <= i < d.len() && r[k] == d[i];
            assert(d[i] == s[i + 1]);
        }
        lemma_insert_desc_step(p, r);
        let t = sort_desc(s);
        assert(t == insert_desc(p, r));
        assert forall|k: int| 0 <= k < s.len() implies exists|i: int|
            0 <= i < s.len() && #[trigger] t[k] == s[i] by {
            if t[k] == p {
                assert(t[k] == s[0]);
            } else {
                let i_r = choose|i_r: int| 0 <= i_r < r.len() && t[k] == r[i_r];
                let i = choose|i: int| 0 <= i < d.len() && r[i_r] == d[i];
                assert(d[i] == s[i + 1]);
                assert(t[k] == s[i + 1]);
            }
        }
        assert forall|i: int| 0 <= i < s.len() implies exists|k: int|
            0 <= k < s.len() && t[k] == #[trigger] s[i] by {
            if i == 0 {
                let k = choose|k: int| 0 <= k < r.len() + 1 && t[k] == p;
                assert(t[k] == s[0]);
            } else {
                assert(d[i - 1] == s[i]);
                let k_r = choose|k_r: int| 0 <= k_r < d.len() && r[k_r] == d[i - 1];
                let k = choose|k: int| 0 <= k < r.len() + 1 && t[k] == r[k_r];
                assert(t[k] == s[i]);
            }
        }
    }
}

/// The insertion-index pairing has pairwise distinct indices.
pub proof fn lemma_pair_seq_distinct(s: Seq<TilView>)
    ensures
        distinct_indices(pair_seq(s)),
{
}

/// For all valid notes with pairwise distinct dates, the chronological view
/// lists them in strictly descending date order.
pub proof fn lemma_by_age_strictly_descending(s: Seq<TilView>)
    requires
        forall|i: int, j: int|
            0 <= i < j < s.len() ==> (#[trigger] s[i]).meta.date != (#[trigger] s[j]).meta.date,
    ensures
        by_age_spec(s).len() == s.len(),
        forall|k: int, k2: int|
            0 <= k < k2 < by_age_spec(s).len() ==> lex_lt(
                (#[trigger] by_age_spec(s)[k2]).meta.date,
                (#[trigger] by_age_spec(s)[k]).meta.date,
            ),
{
    lemma_pair_seq_distinct(s);
    lemma_sort_desc_ordered(pair_seq(s));
    let a = sort_desc(pair_seq(s));
    assert forall|k: int, k2: int|
        0 <= k < k2 < by_age_spec(s).len() implies lex_lt(
        (#[trigger] by_age_spec(s)[k2]).meta.date,
        (#[trigger] by_age_spec(s)[k]).meta.date,
    ) by {
        assert(key_before(a[k], a[k2]));
        assert(by_age_spec(s)[k] == a[k].0);
        assert(by_age_spec(s)[k2] == a[k2].0);
        if a[k].0.meta.date == a[k2].0.meta.date {
            let i = choose|i: int| 0 <= i < pair_seq(s).len() && a[k] == pair_seq(s)[i];
            let i2 = choose|i2: int| 0 <= i2 < pair_seq(s).len() && a[k2] == pair_seq(s)[i2];
            assert(a[k] == (s[i], i));
            assert(a[k2] == (s[i2], i2));
            assert(s[i].meta.date == s[i2].meta.date);
            assert(i != i2);
        }
    }
}

/// Among notes sharing one date, the arrangement places the later-inserted
/// note first: the chronological view is the first projection of
/// `sort_desc(pair_seq(s))`, whose entries carry the original insertion
/// indices, and equal-date entries appear with strictly descending indices.
pub proof fn lemma_by_age_ties_reverse_insertion(s: Seq<TilView>)
    ensures
        by_age_spec(s) == sort_desc(pair_seq(s)).map_values(|p: (TilView, int)| p.0),
        sort_desc(pair_seq(s)).len() == s.len(),
        forall|k: int|
            0 <= k < s.len() ==> 0 <= (#[trigger] sort_desc(pair_seq(s))[k]).1 < s.len()
                && sort_desc(pair_seq(s))[k].0 == s[sort_desc(pair_seq(s))[k].1],
        forall|k: int, k2: int|
            0 <= k < k2 < s.len() ==> ((#[trigger] sort_desc(pair_seq(s))[k]).0.meta.date == (
            #[trigger] sort_desc(pair_seq(s))[k2]).0.meta.date ==> sort_desc(pair_seq(s))[k].1
                > sort_desc(pair_seq(s))[k2].1),
{
    lemma_pair_seq_distinct(s);
    lemma_sort_desc_ordered(pair_seq(s));
    let a = sort_desc(pair_seq(s));
    assert forall|k: int|
        0 <= k < s.len() implies 0 <= (#[trigger] a[k]).1 < s.len() && a[k].0 == s[a[k].1] by {
        let i = choose|i: int| 0 <= i < pair_seq(s).len() && a[k] == pair_seq(s)[i];
        assert(a[k] == (s[i], i));
    }
    assert forall|k: int, k2: int|
        0 <= k < k2 < s.len() implies ((#[trigger] a[k]).0.meta.date == (
    #[trigger] a[k2]).0.meta.date ==> a[k].1 > a[k2].1) by {
        assert(key_before(a[k], a[k2]));
    }
}

/// The pair stands somewhere in the sequence.
pub open spec fn occurs_in(a: Seq<(TilView, int)>, x: (TilView, int)) -> bool {
    exists|k: int| 0 <= k < a.len() && #[trigger] a[k] == x
}

/// The pair is one of the sequence's, and its note carries the tag.
pub open spec fn tagged_source(ps: Seq<(TilView, int)>, tag: Seq<char>, x: (TilView, int)) -> bool {
    exists|i: int| 0 <= i < ps.len() && x == #[trigger] ps[i] && has_tag(ps[i].0, tag)
}

/// Filtering by a tag keeps exactly the pairs whose note carries the tag,
/// preserving index distinctness.
proof fn lemma_filter_tag_membership(ps: Seq<(TilView, int)>, tag: Seq<char>)
    requires
        distinct_indices(ps),
    ensures
        distinct_indices(filter_tag(ps, tag)),
        forall|k: int|
            0 <= k < filter_tag(ps, tag).len() ==> tagged_source(
                ps,
                tag,
                #[trigger] filter_tag(ps, tag)[k],
            ),
        forall|i: int|
            0 <= i < ps.len() && has_tag((#[trigger] ps[i]).0, tag) ==> occurs_in(
                filter_tag(ps, tag),
                ps[i],
            ),
    decreases ps.len(),
{
    if ps.len() == 0 {
        assert(filter_tag(ps, tag) =~= Seq::<(TilView, int)>::empty());
    } else {
        let d = ps.drop_first();
        let f = filter_tag(ps, tag);
        let fd = filter_tag(d, tag);
        assert forall|k: int, k2: int| 0 <= k < k2 < d.len() implies (#[trigger] d[k]).1 != (
        #[trigger] d[k2]).1 by {
            assert(d[k] == ps[k + 1]);
            assert(d[k2] == ps[k2 + 1]);
        }
        lemma_filter_tag_membership(d, tag);
        if has_tag(ps[0].0, tag) {
            assert(f =~= seq![ps[0]] + fd);
        } else {
            assert(f =~= fd);
        }
        assert forall|k: int| 0 <= k < f.len() implies tagged_source(
            ps,
            tag,
            #[trigger] f[k],
        ) by {
            if has_tag(ps[0].0, tag) && k == 0 {
                assert(f[0] == ps[0]);
            } else {
                let k_d: int = if has_tag(ps[0].0, tag) {
                    k - 1
                } else {
                    k
                };
                assert(f[k] == fd[k_d]);
                assert(tagged_source(d, tag, fd[k_d]));
                let i = choose|i: int| 0 <= i < d.len() && fd[k_d] == d[i] && has_tag(d[i].0, tag);
                assert(d[i] == ps[i + 1]);
                assert(f[k] == ps[i + 1]);
                assert(has_tag(ps[i + 1].0, tag));
            }
            assert(tagged_source(ps, tag, f[k]));
        }
        assert forall|i: int|
            0 <= i < ps.len() && has_tag((#[trigger] ps[i]).0, tag) implies occurs_in(
            f,
            ps[i],
        ) by {
            if i == 0 {
                assert(f[0] == ps[0]);
            } else {
                assert(d[i - 1] == ps[i]);
                assert(occurs_in(fd, d[i - 1]));
                let k_d = choose|k_d: int| 0 <= k_d < fd.len() && fd[k_d] == d[i - 1];
                if has_tag(ps[0].0, tag) {
                    assert(f[k_d + 1] == ps[i]);
                } else {
                    assert(f[k_d] == ps[i]);
                }
            }
            assert(occurs_in(f, ps[i]));
        }
        assert forall|k: int, k2: int| 0 <= k < k2 < f.len() implies (#[trigger] f[k]).1 != (
        #[trigger] f[k2]).1 by {}
    }
}

/// The pairing of a collection's notes carrying one tag, arranged
/// date-descending.  Kept opaque so that statements over it do not
/// re-expand the arrangement at every occurrence.
#[verifier::opaque]
pub open spec fn tag_arrangement(s: Seq<TilView>, tag: Seq<char>) -> Seq<(TilView, int)> {
    sort_desc(filter_tag(pair_seq(s), tag))
}

/// A tag's group lists exactly the notes carrying the tag, each once: the
/// group is the first projection of [`tag_arrangement`], whose entries
/// carry pairwise distinct insertion indices of notes that carry the tag,
/// and every carrying note's index appears.
#[verifier::rlimit(60)]
pub proof fn lemma_by_tag_exact_membership(s: Seq<TilView>, tag: Seq<char>)
    ensures
        by_tag_list_spec(s, tag) == tag_arrangement(s, tag).map_values(|p: (TilView, int)| p.0),
        distinct_indices(tag_arrangement(s, tag)),
        forall|k: int|
            0 <= k < tag_arrangement(s, tag).len() ==> 0 <= (#[trigger] tag_arrangement(s, tag)[k]).1
                < s.len() && tag_arrangement(s, tag)[k].0 == s[tag_arrangement(s, tag)[k].1]
                && has_tag(s[tag_arrangement(s, tag)[k].1], tag),
        forall|i: int|
            0 <= i < s.len() && has_tag(#[trigger] s[i], tag) ==> occurs_in(
                tag_arrangement(s, tag),
                (s[i], i),
            ),
{
    reveal(tag_arrangement);
    let ps = pair_seq(s);
    let f = filter_tag(ps, tag);
    let a = tag_arrangement(s, tag);
    lemma_pair_seq_distinct(s);
    lemma_filter_tag_membership(ps, tag);
    lemma_sort_desc_ordered(f);
    assert(a == sort_desc(f));
    assert forall|k: int|
        0 <= k < a.len() implies 0 <= (#[trigger] a[k]).1 < s.len() && a[k].0 == s[a[k].1]
        && has_tag(s[a[k].1], tag) by {
        assert(a[k] == sort_desc(f)[k]);
        let k_f = choose|k_f: int| 0 <= k_f < f.len() && sort_desc(f)[k] == f[k_f];
        assert(tagged_source(ps, tag, f[k_f]));
        let i = choose|i: int| 0 <= i < ps.len() && f[k_f] == ps[i] && has_tag(ps[i].0, tag);
        assert(ps[i] == (s[i], i));
    }
    assert forall|i: int|
        0 <= i < s.len() && has_tag(#[trigger] s[i], tag) implies occurs_in(a, (s[i], i)) by {
        assert(ps[i] == (s[i], i));
        assert(has_tag(ps[i].0, tag));
        assert(occurs_in(f, ps[i]));
        let k_f = choose|k_f: int| 0 <= k_f < f.len() && f[k_f] == ps[i];
        let k = choose|k: int| 0 <= k < f.len() && sort_desc(f)[k] == f[k_f];
        assert(a[k] == (s[i], i));
        assert(occurs_in(a, (s[i], i)));
    }
}

/// Folding collections of tags keeps the accumulated list sorted and
/// gathers exactly the notes' tags.
proof fn lemma_collect_tags_props(acc: Seq<Seq<char>>, s: Seq<TilView>)
    requires
        tags_strictly_sorted(acc),
    ensures
        tags_strictly_sorted(collect_tags(acc, s)),
        forall|x: Seq<char>| acc.contains(x) ==> #[trigger] collect_tags(acc, s).contains(x),
        forall|i: int, j: int|
            0 <= i < s.len() && 0 <= j < s[i].meta.tags.len() ==> collect_tags(acc, s).contains(
                #[trigger] s[i].meta.tags[j],
            ),
        forall|x: Seq<char>|
            #[trigger] collect_tags(acc, s).contains(x) ==> acc.contains(x) || exists|i: int|
                0 <= i < s.len() && s[i].meta.tags.contains(x),
    decreases s.len(),
{
    if s.len() != 0 {
        let first_tags = s[0].meta.tags;
        let a2 = merge_tags(acc, first_tags);
        lemma_merge_tags_sorted(acc, first_tags);
        lemma_collect_tags_props(a2, s.drop_first());
        let c = collect_tags(acc, s);
        let d = s.drop_first();
        assert(c == collect_tags(a2, d));
        assert forall|i: int, j: int|
            0 <= i < s.len() && 0 <= j < s[i].meta.tags.len() implies c.contains(
            #[trigger] s[i].meta.tags[j],
        ) by {
            if i == 0 {
                assert(first_tags.contains(first_tags[j]));
                assert(a2.contains(first_tags[j]));
            } else {
                assert(d[i - 1] == s[i]);
            }
        }
        assert forall|x: Seq<char>| #[trigger] c.contains(x) implies acc.contains(x) || exists|
            i: int,
        |
            0 <= i < s.len() && s[i].meta.tags.contains(x) by {
            if !acc.contains(x) {
                if exists|i: int| 0 <= i < d.len() && d[i].meta.tags.contains(x) {
                    let i = choose|i: int| 0 <= i < d.len() && d[i].meta.tags.contains(x);
                    assert(d[i] == s[i + 1]);
                    assert(s[i + 1].meta.tags.contains(x));
                } else {
                    assert(a2.contains(x));
                    assert(first_tags.contains(x));
                    assert(s[0].meta.tags.contains(x));
                }
            }
        }
    }
}

/// Every tag of any note appears in the collection's tag list, everything
/// in the tag list is some note's tag, and the list is strictly ascending
/// (so tag iteration is deterministic and duplicate-free).
pub proof fn lemma_tags_spec_complete(s: Seq<TilView>)
    ensures
        tags_strictly_sorted(tags_spec(s)),
        forall|i: int, j: int|
            0 <= i < s.len() && 0 <= j < s[i].meta.tags.len() ==> tags_spec(s).contains(
                #[trigger] s[i].meta.tags[j],
            ),
        forall|x: Seq<char>|
            #[trigger] tags_spec(s).contains(x) ==> exists|i: int|
                0 <= i < s.len() && s[i].meta.tags.contains(x),
{
    lemma_collect_tags_props(Seq::empty(), s);
}

/// How many notes of the collection carry the given tag.
pub open spec fn count_with_tag(s: Seq<TilView>, tag: Seq<char>) -> int
    decreases s.len(),
{
    if s.len() == 0 {
        0
    } else {
        (if has_tag(s[0], tag) {
            1int
        } else {
            0int
        }) + count_with_tag(s.drop_first(), tag)
    }
}

/// Insertion adds one to the length.
proof fn lemma_insert_desc_len(p: (TilView, int), s: Seq<(TilView, int)>)
    ensures
        insert_desc(p, s).len() == s.len() + 1,
    decreases s.len(),
{
    if s.len() != 0 && key_before(s[0], p) {
        lemma_insert_desc_len(p, s.drop_first());
    }
}

/// The arrangement keeps the length.
pub proof fn lemma_sort_desc_len(s: Seq<(TilView, int)>)
    ensures
        sort_desc(s).len() == s.len(),
    decreases s.len(),
{
    if s.len() != 0 {
        lemma_sort_desc_len(s.drop_first());
        lemma_insert_desc_len(s[0], sort_desc(s.drop_first()));
    }
}

/// Filtering reads only the notes, not the attached indices.
proof fn lemma_filter_tag_ignores_indices(
    ps: Seq<(TilView, int)>,
    qs: Seq<(TilView, int)>,
    tag: Seq<char>,
)
    requires
        ps.len() == qs.len(),
        forall|k: int| 0 <= k < ps.len() ==> (#[trigger] ps[k]).0 == (#[trigger] qs[k]).0,
    ensures
        filter_tag(ps, tag).len() == filter_tag(qs, tag).len(),
    decreases ps.len(),
{
    if ps.len() != 0 {
        let dp = ps.drop_first();
        let dq = qs.drop_first();
        assert forall|k: int| 0 <= k < dp.len() implies (#[trigger] dp[k]).0 == (
        #[trigger] dq[k]).0 by {
            assert(dp[k] == ps[k + 1]);
            assert(dq[k] == qs[k + 1]);
        }
        lemma_filter_tag_ignores_indices(dp, dq, tag);
    }
}

/// The filtered pairing of a collection has as many entries as there are
/// notes carrying the tag.
proof fn lemma_filter_tag_len(s: Seq<TilView>, tag: Seq<char>)
    ensures
        filter_tag(pair_seq(s), tag).len() == count_with_tag(s, tag),
    decreases s.len(),
{
    if s.len() != 0 {
        let d = s.drop_first();
        lemma_filter_tag_len(d, tag);
        let ps = pair_seq(s);
        assert(ps[0].0 == s[0]);
        lemma_filter_tag_ignores_indices(ps.drop_first(), pair_seq(d), tag);
    }
}

/// The length of a tag's group equals the number of notes carrying the tag;
/// the executable `tag_counts` is pinned to that same length.
pub proof fn lemma_tag_count_is_post_count(s: Seq<TilView>, tag: Seq<char>)
    ensures
        by_tag_list_spec(s, tag).len() == count_with_tag(s, tag),
{
    lemma_sort_desc_len(filter_tag(pair_seq(s), tag));
    lemma_filter_tag_len(s, tag);
}

} // verus!
