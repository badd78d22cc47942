//! Markdown-to-HTML rendering, through comrak.
//!
//! Both entry points are total: any input text yields an HTML string, so a
//! code fence with an unknown language tag degrades to a plain code block
//! rather than failing the run.  The results are named functions of the
//! input text alone, which is what makes rendering deterministic.

use vstd::prelude::*;

verus! {

/// What comrak's highlighted renderer returns for a note body.
pub uninterp spec fn body_html_of(md: Seq<char>) -> Seq<char>;

/// What comrak's plain renderer returns for a Markdown fragment.
pub uninterp spec fn fragment_html_of(md: Seq<char>) -> Seq<char>;

/// Relies on comrak's `markdown_to_html_with_plugins` with the table,
/// footnotes, strikethrough, superscript and underline extensions and the
/// syntect class-emitting code-fence highlighter: total on any input, and
/// a function of the input text alone.
#[verifier::external_body]
pub(crate) fn render_markdown_body(md: &str) -> (r: String)
    ensures
        r@ == body_html_of(md@),
{
    let mut options = comrak::Options::default();
    options.extension.footnotes = true;
    options.extension.strikethrough = true;
    options.extension.superscript = true;
    options.extension.underline = true;
    options.extension.table = true;
    let adapter = comrak::plugins::syntect::SyntectAdapterBuilder::new().css().build();
    let mut plugins = comrak::options::Plugins::default();
    plugins.render.codefence_syntax_highlighter = Some(&adapter);
    comrak::markdown_to_html_with_plugins(md, &options, &plugins)
}

/// Relies on comrak's `markdown_to_html` with the same extensions and no
/// highlighter: total on any input, and a function of the input text alone.
#[verifier::external_body]
pub(crate) fn render_markdown_fragment(md: &str) -> (r: String)
    ensures
        r@ == fragment_html_of(md@),
{
    let mut options = comrak::Options::default();
    options.extension.footnotes = true;
    options.extension.strikethrough = true;
    options.extension.superscript = true;
    options.extension.underline = true;
    options.extension.table = true;
    comrak::markdown_to_html(md, &options)
}

} // verus!
