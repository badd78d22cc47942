//! The note parser ("a Tiller tills TILs"): splits front matter, validates
//! it, and renders the note body to HTML.

use vstd::prelude::*;

use crate::error::TilError;
use crate::frontmatter::{fm_split_of, meta_from_fields, split_front_matter};
use crate::markdown::{body_html_of, render_markdown_body};
use crate::post::TIL;

verus! {

/// The note parser.  The front-matter and Markdown machinery it uses is
/// fixed configuration held inside the wrappers it calls.
pub struct Tiller {}

impl Tiller {
    /// Sets up the parser.
    pub fn new() -> (r: Tiller) {
        Tiller {  }
    }

    /// Ingests one note file.
    ///
    /// A text on which the split fails (no parsable leading key/value
    /// block) is exactly a malformed-front-matter failure.  Every
    /// successfully parsed note is well-formed (title and date present,
    /// tags sorted and duplicate-free) and carries as content the rendered
    /// HTML of the body behind the block, so identical texts give
    /// identical content.  A failure is one of the two front-matter
    /// errors, never a rendering fault.  Which front-matter error comes
    /// back on a splittable text is pinned, pair by pair, by
    /// [`meta_from_fields`].
    pub fn parse_post(&self, raw: &str) -> (r: Result<TIL, TilError>)
        ensures
            r matches Ok(t) ==> t@.wf(),
            r != Err::<TIL, TilError>(TilError::RenderFault),
            fm_split_of(raw@) is None ==> r == Err::<TIL, TilError>(
                TilError::MalformedFrontMatter,
            ),
            r matches Ok(t) ==> (fm_split_of(raw@) matches Some(b) && t@.content == body_html_of(
            b)),
    {
        match split_front_matter(raw) {
            None => Err(TilError::MalformedFrontMatter),
            Some((fields, body)) => match meta_from_fields(&fields) {
                Err(e) => Err(e),
                Ok(meta) => Ok(TIL { meta, content: render_markdown_body(body.as_str()) }),
            },
        }
    }
}

/// Whether a file name ends in the Markdown extension `.md`.  Files in a
/// note directory whose names do not are skipped silently, never errors.
pub fn is_markdown_name(name: &str) -> (r: bool)
    ensures
        r == (name@.len() >= 3 && name@.skip(name@.len() as int - 3) == ".md"@),
{
    let n = name.unicode_len();
    if n < 3 {
        return false;
    }
    proof {
        reveal_strlit(".md");
    }
    let c1 = name.get_char(n - 3);
    let c2 = name.get_char(n - 2);
    let c3 = name.get_char(n - 1);
    let r = c1 == '.' && c2 == 'm' && c3 == 'd';
    proof {
        let tail = name@.skip(name@.len() as int - 3);
        if r {
            assert(tail =~= ".md"@);
        }
        if tail == ".md"@ {
            assert(name@[name@.len() as int - 3] == tail[0]);
            assert(name@[name@.len() as int - 2] == tail[1]);
            assert(name@[name@.len() as int - 1] == tail[2]);
        }
    }
    r
}

} // verus!
