//! The data model: one note (`TIL`), its metadata, and the collection of all
//! notes for one run (`TILs`).
//!
//! Metadata keeps its tags as a strictly sorted vector of strings, which
//! stands in for a set with deterministic (lexicographic) iteration order.

use vstd::prelude::*;

use crate::text::lex_lt;

verus! {

/// The ghost shape of one note's metadata.
#[verifier::ext_equal]
pub struct MetaView {
    pub title: Seq<char>,
    pub tags: Seq<Seq<char>>,
    pub date: Seq<char>,
    pub origin: Option<Seq<char>>,
}

/// The ghost shape of one note.
#[verifier::ext_equal]
pub struct TilView {
    pub meta: MetaView,
    pub content: Seq<char>,
}

/// Metadata of one note, taken from its front matter.
#[derive(Debug)]
pub struct Meta {
    /// The note's title; never empty.
    pub title: String,
    /// The note's tags: strictly sorted, hence free of duplicates.
    pub tags: Vec<String>,
    /// The note's date, as a sortable string such as `2024-03-07`.
    pub date: String,
    /// An optional source URL.
    pub origin: Option<String>,
}

/// A single note: metadata plus the note body rendered to HTML.
#[derive(Debug)]
pub struct TIL {
    pub meta: Meta,
    pub content: String,
}

/// The collection of all notes of one run, in insertion order.
pub struct TILs(pub Vec<TIL>);

impl View for Meta {
    type V = MetaView;

    open spec fn view(&self) -> MetaView {
        MetaView {
            title: self.title@,
            tags: self.tags.deep_view(),
            date: self.date@,
            origin: self.origin.deep_view(),
        }
    }
}

impl DeepView for Meta {
    type V = MetaView;

    open spec fn deep_view(&self) -> MetaView {
        self@
    }
}

impl View for TIL {
    type V = TilView;

    open spec fn view(&self) -> TilView {
        TilView { meta: self.meta@, content: self.content@ }
    }
}

impl DeepView for TIL {
    type V = TilView;

    open spec fn deep_view(&self) -> TilView {
        self@
    }
}

impl View for TILs {
    type V = Seq<TilView>;

    open spec fn view(&self) -> Seq<TilView> {
        self.0.deep_view()
    }
}

/// A tag list that is strictly ascending, so each tag occurs once and
/// iteration order is deterministic.
pub open spec fn tags_strictly_sorted(tags: Seq<Seq<char>>) -> bool {
    forall|i: int, j: int| 0 <= i < j < tags.len() ==> lex_lt(tags[i], tags[j])
}

impl MetaView {
    /// Well-formed metadata: title and date present (non-empty), tags kept
    /// sorted and duplicate-free.
    pub open spec fn wf(&self) -> bool {
        &&& self.title.len() > 0
        &&& self.date.len() > 0
        &&& tags_strictly_sorted(self.tags)
    }
}

impl TilView {
    pub open spec fn wf(&self) -> bool {
        self.meta.wf()
    }
}

/// Every note of the collection is well-formed.
pub open spec fn all_wf(s: Seq<TilView>) -> bool {
    forall|i: int| 0 <= i < s.len() ==> (#[trigger] s[i]).wf()
}

/// Copies a vector of strings, preserving its view.
pub fn clone_string_vec(v: &Vec<String>) -> (r: Vec<String>)
    ensures
        r.deep_view() == v.deep_view(),
{
    let mut r: Vec<String> = Vec::new();
    let mut i: usize = 0;
    while i < v.len()
        invariant
            0 <= i <= v.len(),
            r.len() == i,
            forall|j: int| 0 <= j < i ==> r.deep_view()[j] == v.deep_view()[j],
        decreases v.len() - i,
    {
        r.push(v[i].clone());
        i = i + 1;
    }
    proof {
        assert(r.deep_view() =~= v.deep_view());
    }
    r
}

impl Meta {
    /// Copies the metadata, preserving its view.
    pub fn duplicate(&self) -> (r: Meta)
        ensures
            r@ == self@,
    {
        let origin = match &self.origin {
            Some(o) => Some(o.clone()),
            None => None,
        };
        let r = Meta {
            title: self.title.clone(),
            tags: clone_string_vec(&self.tags),
            date: self.date.clone(),
            origin,
        };
        proof {
            assert(r@ =~= self@);
        }
        r
    }
}

impl TIL {
    /// Copies the note, preserving its view.
    pub fn duplicate(&self) -> (r: TIL)
        ensures
            r@ == self@,
    {
        let r = TIL { meta: self.meta.duplicate(), content: self.content.clone() };
        proof {
            assert(r@ =~= self@);
        }
        r
    }
}

impl TILs {
    /// Wraps the parsed notes, keeping their insertion order.
    pub fn new(posts: Vec<TIL>) -> (r: TILs)
        ensures
            r@ == posts.deep_view(),
    {
        TILs(posts)
    }
}

} // verus!
