//! Front matter: splitting a note file into a metadata block and a body,
//! and validating the metadata into [`Meta`].
//!
//! The split itself is done by an outside parser whose output order is not
//! promised (it walks a hash map), so validation takes the key/value pairs
//! in any order and is exact for every possible outcome: which error comes
//! back, and what each metadata field holds, is pinned field by field.

use vstd::prelude::*;

use gray_matter::Pod;

use crate::collection::{insert_tag_exec, lemma_merge_tags_sorted, merge_tags};
use crate::error::TilError;
use crate::post::{clone_string_vec, Meta};
use crate::text::str_eq;

verus! {

/// The ghost shape of one front-matter value.
pub enum FmVal {
    Text(Seq<char>),
    List(Seq<Seq<char>>),
    Other,
}

/// One front-matter value, reduced to the shapes the metadata uses: a
/// string, a list of strings, or anything else.
pub enum FmValue {
    Text(String),
    List(Vec<String>),
    Other,
}

impl View for FmValue {
    type V = FmVal;

    open spec fn view(&self) -> FmVal {
        match self {
            FmValue::Text(s) => FmVal::Text(s@),
            FmValue::List(l) => FmVal::List(l.deep_view()),
            FmValue::Other => FmVal::Other,
        }
    }
}

/// The views of a sequence of key/value pairs.
pub open spec fn fields_view(v: Seq<(String, FmValue)>) -> Seq<(Seq<char>, FmVal)> {
    v.map_values(|p: (String, FmValue)| (p.0@, p.1@))
}

/// The value under the first occurrence of a key, if any.
pub open spec fn lookup(fs: Seq<(Seq<char>, FmVal)>, key: Seq<char>) -> Option<FmVal>
    decreases fs.len(),
{
    if fs.len() == 0 {
        None
    } else if fs[0].0 == key {
        Some(fs[0].1)
    } else {
        lookup(fs.drop_first(), key)
    }
}

/// The key is present but its value is not a string.
pub open spec fn bad_text(fs: Seq<(Seq<char>, FmVal)>, key: Seq<char>) -> bool {
    match lookup(fs, key) {
        Some(FmVal::Text(_)) => false,
        Some(_) => true,
        None => false,
    }
}

/// The key is present but its value is not a list of strings.
pub open spec fn bad_list(fs: Seq<(Seq<char>, FmVal)>, key: Seq<char>) -> bool {
    match lookup(fs, key) {
        Some(FmVal::List(_)) => false,
        Some(_) => true,
        None => false,
    }
}

/// The string under the key, if the key holds one.
pub open spec fn text_of(fs: Seq<(Seq<char>, FmVal)>, key: Seq<char>) -> Option<Seq<char>> {
    match lookup(fs, key) {
        Some(FmVal::Text(t)) => Some(t),
        _ => None,
    }
}

/// The list of strings under the key, if the key holds one.
pub open spec fn list_of(fs: Seq<(Seq<char>, FmVal)>, key: Seq<char>) -> Option<Seq<Seq<char>>> {
    match lookup(fs, key) {
        Some(FmVal::List(l)) => Some(l),
        _ => None,
    }
}

/// A known metadata field is present with the wrong shape.
pub open spec fn fields_malformed(fs: Seq<(Seq<char>, FmVal)>) -> bool {
    ||| bad_text(fs, "title"@)
    ||| bad_text(fs, "date"@)
    ||| bad_list(fs, "tags"@)
    ||| bad_text(fs, "origin"@)
}

/// The title is absent or empty.
pub open spec fn missing_title(fs: Seq<(Seq<char>, FmVal)>) -> bool {
    match text_of(fs, "title"@) {
        Some(t) => t.len() == 0,
        None => true,
    }
}

/// The date is absent or empty.
pub open spec fn missing_date(fs: Seq<(Seq<char>, FmVal)>) -> bool {
    match text_of(fs, "date"@) {
        Some(d) => d.len() == 0,
        None => true,
    }
}

/// A required metadata field is absent (or empty).
pub open spec fn fields_missing(fs: Seq<(Seq<char>, FmVal)>) -> bool {
    missing_title(fs) || missing_date(fs)
}

/// The tag list handed to validation: the `tags` field, or empty when the
/// field is absent.
pub open spec fn tags_input(fs: Seq<(Seq<char>, FmVal)>) -> Seq<Seq<char>> {
    match list_of(fs, "tags"@) {
        Some(l) => l,
        None => Seq::empty(),
    }
}

/// The metadata that well-formed fields validate to.
pub open spec fn meta_of_fields(fs: Seq<(Seq<char>, FmVal)>, m: crate::post::MetaView) -> bool {
    &&& text_of(fs, "title"@) == Some(m.title)
    &&& text_of(fs, "date"@) == Some(m.date)
    &&& m.origin == text_of(fs, "origin"@)
    &&& m.tags == merge_tags(Seq::empty(), tags_input(fs))
}

/// Whether the split succeeds on the given text, and with which body: the
/// parser is deterministic, so both are functions of the text alone (only
/// the key/value pair order varies between runs).
pub uninterp spec fn fm_split_of(raw: Seq<char>) -> Option<Seq<char>>;

/// Relies on gray_matter's `Matter::<YAML>::parse`: splits a leading
/// `---`-fenced YAML block from the note text and parses it into key/value
/// data.  `None` stands for a parse error, an absent block, or a block that
/// is not a mapping; success and the returned body depend on the text
/// alone.  The pair order follows a hash map's iteration order; callers
/// treat it as arbitrary.
#[verifier::external_body]
pub(crate) fn split_front_matter(raw: &str) -> (r: Option<(Vec<(String, FmValue)>, String)>)
    ensures
        match r {
            Some(parts) => fm_split_of(raw@) == Some(parts.1@),
            None => fm_split_of(raw@) is None,
        },
{
    let parsed = gray_matter::Matter::<gray_matter::engine::YAML>::new().parse::<Pod>(raw).ok()?;
    let map = match parsed.data { Some(Pod::Hash(m)) => m, _ => return None };
    let mut fields: Vec<(String, FmValue)> = Vec::new();
    for (k, v) in map {
        fields.push((k, match v {
            Pod::String(s) => FmValue::Text(s),
            Pod::Array(a) => a.into_iter()
                .map(|p| match p { Pod::String(s) => Some(s), _ => None })
                .collect::<Option<Vec<String>>>().map_or(FmValue::Other, FmValue::List),
            _ => FmValue::Other,
        }));
    }
    Some((fields, parsed.content))
}

/// Scans for the first occurrence of a key.
fn lookup_idx(fields: &Vec<(String, FmValue)>, key: &str) -> (r: Option<usize>)
    ensures
        match r {
            Some(i) => 0 <= i < fields@.len() && fields@[i as int].0@ == key@ && lookup(
                fields_view(fields@),
                key@,
            ) == Some(fields@[i as int].1@),
            None => lookup(fields_view(fields@), key@) is None,
        },
{
    let ghost fs = fields_view(fields@);
    let mut i: usize = 0;
    while i < fields.len()
        invariant
            0 <= i <= fields.len(),
            fs == fields_view(fields@),
            fs.len() == fields.len(),
            forall|k: int| 0 <= k < i ==> (#[trigger] fs[k]).0 != key@,
        decreases fields.len() - i,
    {
        if str_eq(fields[i].0.as_str(), key) {
            proof {
                lemma_lookup_found(fs, key@, i as int);
            }
            return Some(i);
        }
        i = i + 1;
    }
    proof {
        lemma_lookup_absent(fs, key@);
    }
    None
}

/// A key found at position `i`, with no earlier occurrence, is what lookup
/// returns.
proof fn lemma_lookup_found(fs: Seq<(Seq<char>, FmVal)>, key: Seq<char>, i: int)
    requires
        0 <= i < fs.len(),
        fs[i].0 == key,
        forall|k: int| 0 <= k < i ==> (#[trigger] fs[k]).0 != key,
    ensures
        lookup(fs, key) == Some(fs[i].1),
    decreases fs.len(),
{
    if i > 0 {
        let d = fs.drop_first();
        assert forall|k: int| 0 <= k < i - 1 implies (#[trigger] d[k]).0 != key by {
            assert(d[k] == fs[k + 1]);
        }
        assert(d[i - 1] == fs[i]);
        lemma_lookup_found(d, key, i - 1);
    }
}

/// A key occurring nowhere is not found.
proof fn lemma_lookup_absent(fs: Seq<(Seq<char>, FmVal)>, key: Seq<char>)
    requires
        forall|k: int| 0 <= k < fs.len() ==> (#[trigger] fs[k]).0 != key,
    ensures
        lookup(fs, key) is None,
    decreases fs.len(),
{
    if fs.len() > 0 {
        let d = fs.drop_first();
        assert forall|k: int| 0 <= k < d.len() implies (#[trigger] d[k]).0 != key by {
            assert(d[k] == fs[k + 1]);
        }
        lemma_lookup_absent(d, key);
    }
}

/// Validates parsed front-matter fields into metadata.
///
/// Exactly the fields with a wrong shape give `MalformedFrontMatter`;
/// otherwise an absent or empty `title` or `date` gives
/// `MissingRequiredField`; otherwise the metadata is well-formed, carries
/// the title, date and origin as given, and the tags sorted and
/// duplicate-free.
pub fn meta_from_fields(fields: &Vec<(String, FmValue)>) -> (r: Result<Meta, TilError>)
    ensures
        fields_malformed(fields_view(fields@)) <==> r == Err::<Meta, TilError>(
            TilError::MalformedFrontMatter,
        ),
        (!fields_malformed(fields_view(fields@)) && fields_missing(fields_view(fields@))) <==> r
            == Err::<Meta, TilError>(TilError::MissingRequiredField),
        (!fields_malformed(fields_view(fields@)) && !fields_missing(fields_view(fields@)))
            ==> (r matches Ok(m) && meta_of_fields(fields_view(fields@), m@) && m@.wf()),
{
    let ghost fs = fields_view(fields@);
    let title_opt: Option<String> = match lookup_idx(fields, "title") {
        None => None,
        Some(i) => match &fields[i].1 {
            FmValue::Text(t) => Some(t.clone()),
            _ => {
                return Err(TilError::MalformedFrontMatter);
            },
        },
    };
    let date_opt: Option<String> = match lookup_idx(fields, "date") {
        None => None,
        Some(i) => match &fields[i].1 {
            FmValue::Text(t) => Some(t.clone()),
            _ => {
                return Err(TilError::MalformedFrontMatter);
            },
        },
    };
    let raw_tags: Vec<String> = match lookup_idx(fields, "tags") {
        None => Vec::new(),
        Some(i) => match &fields[i].1 {
            FmValue::List(l) => clone_string_vec(l),
            _ => {
                return Err(TilError::MalformedFrontMatter);
            },
        },
    };
    let origin: Option<String> = match lookup_idx(fields, "origin") {
        None => None,
        Some(i) => match &fields[i].1 {
            FmValue::Text(t) => Some(t.clone()),
            _ => {
                return Err(TilError::MalformedFrontMatter);
            },
        },
    };
    proof {
        assert(!fields_malformed(fs));
        assert(raw_tags.deep_view() =~= tags_input(fs));
    }
    let title = match title_opt {
        None => {
            return Err(TilError::MissingRequiredField);
        },
        Some(t) => {
            if t.as_str().is_empty() {
                return Err(TilError::MissingRequiredField);
            }
            t
        },
    };
    let date = match date_opt {
        None => {
            return Err(TilError::MissingRequiredField);
        },
        Some(d) => {
            if d.as_str().is_empty() {
                return Err(TilError::MissingRequiredField);
            }
            d
        },
    };
    let ghost raw_dv = raw_tags.deep_view();
    let mut tags: Vec<String> = Vec::new();
    let mut j: usize = 0;
    proof {
        assert(tags.deep_view() =~= Seq::<Seq<char>>::empty());
        assert(raw_dv.skip(0) =~= raw_dv);
    }
    while j < raw_tags.len()
        invariant
            0 <= j <= raw_tags.len(),
            raw_dv == raw_tags.deep_view(),
            raw_dv.len() == raw_tags.len(),
            merge_tags(tags.deep_view(), raw_dv.skip(j as int)) == merge_tags(
                Seq::empty(),
                raw_dv,
            ),
        decreases raw_tags.len() - j,
    {
        let ghost inner = raw_dv.skip(j as int);
        proof {
            assert(inner[0] == raw_dv[j as int]);
            assert(inner.drop_first() =~= raw_dv.skip(j as int + 1));
        }
        insert_tag_exec(&mut tags, &raw_tags[j]);
        j = j + 1;
    }
    proof {
        assert(raw_dv.skip(raw_dv.len() as int) =~= Seq::<Seq<char>>::empty());
        lemma_merge_tags_sorted(Seq::empty(), raw_dv);
    }
    let m = Meta { title, tags, date, origin };
    proof {
        assert(m@.origin =~~= text_of(fs, "origin"@));
    }
    Ok(m)
}

} // verus!
