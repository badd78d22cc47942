//! The site renderer: turns the collection, the settings, an optional
//! front-page fragment and the static resource table into an explicit
//! render plan — the full, ordered list of output artifacts (paths and
//! contents).  The caller writes each target to disk and expands the page
//! targets through its template engine.
//!
//! The plan of a successful render is pinned to a specification function
//! of the inputs' views, which is what makes re-rendering reproducible.

use vstd::prelude::*;

use crate::collection::{by_tag_list_spec, by_age_spec, tags_spec};
use crate::config::{normalized_url, normalize_base_url, Config, ConfigView};
use crate::error::TilError;
use crate::frontmatter::fm_split_of;
use crate::markdown::{body_html_of, fragment_html_of, render_markdown_fragment};
use crate::post::{all_wf, clone_string_vec, Meta, MetaView, TilView, TIL, TILs};
use crate::tiller::Tiller;

verus! {

/// The embedded static files (site stylesheet, site script), loaded once
/// at process start and handed to the renderer as a read-only table.
#[derive(Debug)]
pub struct Resources(pub Vec<(String, Vec<u8>)>);

impl View for Resources {
    type V = Seq<(Seq<char>, Seq<u8>)>;

    open spec fn view(&self) -> Seq<(Seq<char>, Seq<u8>)> {
        self.0@.map_values(|p: (String, Vec<u8>)| (p.0@, p.1@))
    }
}

/// The bytes under the first occurrence of a resource name, if any.
pub open spec fn res_lookup(rs: Seq<(Seq<char>, Seq<u8>)>, name: Seq<char>) -> Option<Seq<u8>>
    decreases rs.len(),
{
    if rs.len() == 0 {
        None
    } else if rs[0].0 == name {
        Some(rs[0].1)
    } else {
        res_lookup(rs.drop_first(), name)
    }
}

proof fn lemma_res_lookup_found(rs: Seq<(Seq<char>, Seq<u8>)>, name: Seq<char>, i: int)
    requires
        0 <= i < rs.len(),
        rs[i].0 == name,
        forall|k: int| 0 <= k < i ==> (#[trigger] rs[k]).0 != name,
    ensures
        res_lookup(rs, name) == Some(rs[i].1),
    decreases rs.len(),
{
    if i > 0 {
        let d = rs.drop_first();
        assert forall|k: int| 0 <= k < i - 1 implies (#[trigger] d[k]).0 != name by {
            assert(d[k] == rs[k + 1]);
        }
        assert(d[i - 1] == rs[i]);
        lemma_res_lookup_found(d, name, i - 1);
    }
}

proof fn lemma_res_lookup_absent(rs: Seq<(Seq<char>, Seq<u8>)>, name: Seq<char>)
    requires
        forall|k: int| 0 <= k < rs.len() ==> (#[trigger] rs[k]).0 != name,
    ensures
        res_lookup(rs, name) is None,
    decreases rs.len(),
{
    if rs.len() > 0 {
        let d = rs.drop_first();
        assert forall|k: int| 0 <= k < d.len() implies (#[trigger] d[k]).0 != name by {
            assert(d[k] == rs[k + 1]);
        }
        lemma_res_lookup_absent(d, name);
    }
}

/// Copies a byte vector, preserving its view.
fn clone_bytes(v: &Vec<u8>) -> (r: Vec<u8>)
    ensures
        r@ == v@,
{
    let mut r: Vec<u8> = Vec::new();
    let mut i: usize = 0;
    while i < v.len()
        invariant
            0 <= i <= v.len(),
            r@ == v@.take(i as int),
        decreases v.len() - i,
    {
        r.push(v[i]);
        proof {
            assert(r@ =~= v@.take(i as int + 1));
        }
        i = i + 1;
    }
    proof {
        assert(v@.take(v@.len() as int) =~= v@);
    }
    r
}

impl Resources {
    /// The bytes filed under the given name, if any.
    pub fn lookup(&self, name: &str) -> (r: Option<Vec<u8>>)
        ensures
            match r {
                Some(b) => res_lookup(self@, name@) == Some(b@),
                None => res_lookup(self@, name@) is None,
            },
    {
        let ghost rs = self@;
        let mut i: usize = 0;
        while i < self.0.len()
            invariant
                0 <= i <= self.0.len(),
                rs == self@,
                rs.len() == self.0.len(),
                forall|k: int| 0 <= k < i ==> (#[trigger] rs[k]).0 != name@,
            decreases self.0.len() - i,
        {
            if crate::text::str_eq(self.0[i].0.as_str(), name) {
                proof {
                    lemma_res_lookup_found(rs, name@, i as int);
                }
                return Some(clone_bytes(&self.0[i].1));
            }
            i = i + 1;
        }
        proof {
            lemma_res_lookup_absent(rs, name@);
        }
        None
    }
}

/// The ghost shape of one feed entry.
#[verifier::ext_equal]
pub struct FeedItemView {
    pub title: Seq<char>,
    pub date: Seq<char>,
    pub content: Seq<char>,
    pub categories: Seq<Seq<char>>,
}

/// One feed entry: the note's title, its raw date string, its rendered
/// HTML content, and one category per tag.
#[derive(Debug)]
pub struct FeedItem {
    pub title: String,
    pub date: String,
    pub content: String,
    pub categories: Vec<String>,
}

impl View for FeedItem {
    type V = FeedItemView;

    open spec fn view(&self) -> FeedItemView {
        FeedItemView {
            title: self.title@,
            date: self.date@,
            content: self.content@,
            categories: self.categories.deep_view(),
        }
    }
}

impl DeepView for FeedItem {
    type V = FeedItemView;

    open spec fn deep_view(&self) -> FeedItemView {
        self@
    }
}

/// What slug::slugify returns for a title.
pub uninterp spec fn slug_of(title: Seq<char>) -> Seq<char>;

/// Relies on slug::slugify: a lowercased, URL-safe derivation of the
/// title, and a function of the input text alone.
#[verifier::external_body]
pub(crate) fn slugify(s: &str) -> (r: String)
    ensures
        r@ == slug_of(s@),
{
    slug::slugify(s)
}

/// What syntect generates as the class-based stylesheet of a theme.
pub uninterp spec fn theme_css(name: Seq<char>) -> Seq<char>;

/// Whether the theme name yields a stylesheet.  The default theme set is
/// compiled in and stylesheet generation is deterministic, so this is a
/// function of the name alone.
pub uninterp spec fn theme_ok(name: Seq<char>) -> bool;

/// Relies on syntect's `ThemeSet::load_defaults` and
/// `css_for_theme_with_class_style` (spaced classes): the default theme
/// set is compiled in and generation deterministic, so whether a
/// stylesheet comes back, and which, are functions of the theme name
/// alone; `None` exactly when the name is unknown or generation fails.
#[verifier::external_body]
pub(crate) fn theme_stylesheet(name: &str) -> (r: Option<String>)
    ensures
        r is Some <==> theme_ok(name@),
        r matches Some(c) ==> c@ == theme_css(name@),
{
    let themes = syntect::highlighting::ThemeSet::load_defaults().themes;
    let theme = themes.get(name)?;
    syntect::html::css_for_theme_with_class_style(theme, syntect::html::ClassStyle::Spaced).ok()
}

/// What the rss crate serializes a channel with the given title, link and
/// entries to.
pub uninterp spec fn rss_xml(title: Seq<char>, link: Seq<char>, items: Seq<FeedItemView>) -> Seq<
    char,
>;

/// Relies on rss's `ChannelBuilder`, `ItemBuilder`, `CategoryBuilder` and
/// the channel's `Display`: serializes the channel to its RSS 2.0 XML, a
/// function of the channel's values alone.
#[verifier::external_body]
pub(crate) fn rss_channel_xml(title: &str, link: &str, items: &Vec<FeedItem>) -> (r: String)
    ensures
        r@ == rss_xml(title@, link@, items.deep_view()),
{
    let rss_items: Vec<rss::Item> = items.iter().map(|i| rss::ItemBuilder::default()
        .categories(i.categories.iter().map(|c| rss::CategoryBuilder::default().name(c).build()).collect::<Vec<_>>())
        .title(i.title.clone()).pub_date(i.date.clone()).content(i.content.clone()).build())
        .collect();
    rss::ChannelBuilder::default().title(title).link(link).items(rss_items).build().to_string()
}

/// The ghost shape of the index page's data.
#[verifier::ext_equal]
pub struct IndexDataView {
    pub config: ConfigView,
    pub index_fragment: Option<Seq<char>>,
    pub tag_counts: Seq<(Seq<char>, int)>,
    pub recent: Seq<TilView>,
}

/// What the index template is rendered with.
#[derive(Debug)]
pub struct IndexData {
    pub config: Config,
    pub index_fragment: Option<String>,
    pub tag_counts: Vec<(String, usize)>,
    pub recent: Vec<TIL>,
}

impl View for IndexData {
    type V = IndexDataView;

    open spec fn view(&self) -> IndexDataView {
        IndexDataView {
            config: self.config@,
            index_fragment: self.index_fragment.deep_view(),
            tag_counts: self.tag_counts@.map_values(|p: (String, usize)| (p.0@, p.1 as int)),
            recent: self.recent.deep_view(),
        }
    }
}

/// The ghost shape of one category page's data.
#[verifier::ext_equal]
pub struct CategoryDataView {
    pub config: ConfigView,
    pub tag: Seq<char>,
    pub tils: Seq<TilView>,
}

/// What a category template is rendered with.
#[derive(Debug)]
pub struct CategoryData {
    pub config: Config,
    pub tag: String,
    pub tils: Vec<TIL>,
}

impl View for CategoryData {
    type V = CategoryDataView;

    open spec fn view(&self) -> CategoryDataView {
        CategoryDataView { config: self.config@, tag: self.tag@, tils: self.tils.deep_view() }
    }
}

/// The ghost shape of one note page's data.
#[verifier::ext_equal]
pub struct TILPostView {
    pub config: ConfigView,
    pub meta: MetaView,
    pub content: Seq<char>,
}

/// What a note template is rendered with.
#[derive(Debug)]
pub struct TILPost {
    pub config: Config,
    pub meta: Meta,
    pub content: String,
}

impl View for TILPost {
    type V = TILPostView;

    open spec fn view(&self) -> TILPostView {
        TILPostView { config: self.config@, meta: self.meta@, content: self.content@ }
    }
}

impl TILPost {
    /// Assembles the data of one note's standalone page.
    pub fn new(config: &Config, til: &TIL) -> (r: TILPost)
        ensures
            r@ == (TILPostView { config: config@, meta: til@.meta, content: til@.content }),
    {
        let r = TILPost {
            config: config.duplicate(),
            meta: til.meta.duplicate(),
            content: til.content.clone(),
        };
        proof {
            assert(r@ =~= (TILPostView { config: config@, meta: til@.meta, content: til@.content }));
        }
        r
    }
}

/// The ghost shape of one page target's data.
#[verifier::ext_equal]
pub enum PageDataView {
    IndexPage(IndexDataView),
    CategoryPage(CategoryDataView),
    PostPage(TILPostView),
}

/// The data a page target hands to the template engine.
#[derive(Debug)]
pub enum PageData {
    IndexPage(IndexData),
    CategoryPage(CategoryData),
    PostPage(TILPost),
}

impl View for PageData {
    type V = PageDataView;

    open spec fn view(&self) -> PageDataView {
        match self {
            PageData::IndexPage(d) => PageDataView::IndexPage(d@),
            PageData::CategoryPage(d) => PageDataView::CategoryPage(d@),
            PageData::PostPage(d) => PageDataView::PostPage(d@),
        }
    }
}

/// The ghost shape of one target's content.
#[verifier::ext_equal]
pub enum TargetContentView {
    Bytes(Seq<u8>),
    Text(Seq<char>),
    Page(Seq<char>, PageDataView),
}

/// One target's content: verbatim bytes, finished text, or a template name
/// with the data to render it with.
#[derive(Debug)]
pub enum TargetContent {
    Bytes(Vec<u8>),
    Text(String),
    Page(String, PageData),
}

impl View for TargetContent {
    type V = TargetContentView;

    open spec fn view(&self) -> TargetContentView {
        match self {
            TargetContent::Bytes(b) => TargetContentView::Bytes(b@),
            TargetContent::Text(t) => TargetContentView::Text(t@),
            TargetContent::Page(n, d) => TargetContentView::Page(n@, d@),
        }
    }
}

/// The ghost shape of one render target.
#[verifier::ext_equal]
pub struct TargetView {
    pub path: Seq<char>,
    pub content: TargetContentView,
}

/// One output artifact: where it goes (a path relative to the output
/// root) and what it holds.
#[derive(Debug)]
pub struct Target {
    pub path: String,
    pub content: TargetContent,
}

impl View for Target {
    type V = TargetView;

    open spec fn view(&self) -> TargetView {
        TargetView { path: self.path@, content: self.content@ }
    }
}

impl DeepView for Target {
    type V = TargetView;

    open spec fn deep_view(&self) -> TargetView {
        self@
    }
}

/// The bytes of a resource, empty when absent (a successful plan never
/// uses the absent case).
pub open spec fn asset_bytes(rs: Seq<(Seq<char>, Seq<u8>)>, name: Seq<char>) -> Seq<u8> {
    match res_lookup(rs, name) {
        Some(b) => b,
        None => Seq::empty(),
    }
}

/// The most recent twenty entries of an arranged sequence (all of them
/// when fewer).
pub open spec fn take_recent(a: Seq<TilView>) -> Seq<TilView> {
    a.take(
        if a.len() < 20 {
            a.len() as int
        } else {
            20int
        },
    )
}

/// Every tag with the number of notes carrying it.
pub open spec fn counts_spec(s: Seq<TilView>) -> Seq<(Seq<char>, int)> {
    tags_spec(s).map_values(|t: Seq<char>| (t, by_tag_list_spec(s, t).len() as int))
}

/// One note reduced to its feed entry.
pub open spec fn feed_item_of(t: TilView) -> FeedItemView {
    FeedItemView {
        title: t.meta.title,
        date: t.meta.date,
        content: t.content,
        categories: t.meta.tags,
    }
}

/// The feed's entries: the most recent notes, in arranged order.
pub open spec fn feed_items_spec(s: Seq<TilView>) -> Seq<FeedItemView> {
    take_recent(by_age_spec(s)).map_values(|t: TilView| feed_item_of(t))
}

/// The four leading targets: the two copied assets, the highlighter
/// stylesheet, and the index page.
pub open spec fn head_targets(
    cfg: ConfigView,
    fragment: Option<Seq<char>>,
    s: Seq<TilView>,
    rs: Seq<(Seq<char>, Seq<u8>)>,
    css: Seq<char>,
) -> Seq<TargetView> {
    seq![
        TargetView {
            path: "style.css"@,
            content: TargetContentView::Bytes(asset_bytes(rs, "style.css"@)),
        },
        TargetView {
            path: "index.js"@,
            content: TargetContentView::Bytes(asset_bytes(rs, "index.js"@)),
        },
        TargetView { path: "syntect.css"@, content: TargetContentView::Text(css) },
        TargetView {
            path: "index.html"@,
            content: TargetContentView::Page(
                "index.hbs"@,
                PageDataView::IndexPage(
                    IndexDataView {
                        config: cfg,
                        index_fragment: fragment,
                        tag_counts: counts_spec(s),
                        recent: take_recent(by_age_spec(s)),
                    },
                ),
            ),
        },
    ]
}

/// One tag's category page target.
pub open spec fn category_target(cfg: ConfigView, s: Seq<TilView>, t: Seq<char>) -> TargetView {
    TargetView {
        path: "category/"@ + t + "/index.html"@,
        content: TargetContentView::Page(
            "category.hbs"@,
            PageDataView::CategoryPage(
                CategoryDataView { config: cfg, tag: t, tils: by_tag_list_spec(s, t) },
            ),
        ),
    }
}

/// One note's standalone page target, under its title's slug.  Two notes
/// whose titles reduce to one slug yield targets sharing a path, and the
/// later-written one overwrites the earlier: collisions are a documented
/// constraint, not deduplicated.
pub open spec fn post_target(cfg: ConfigView, t: TilView) -> TargetView {
    TargetView {
        path: "post/"@ + slug_of(t.meta.title) + "/index.html"@,
        content: TargetContentView::Page(
            "til.hbs"@,
            PageDataView::PostPage(
                TILPostView { config: cfg, meta: t.meta, content: t.content },
            ),
        ),
    }
}

/// The feed target.
pub open spec fn feed_target(cfg: ConfigView, s: Seq<TilView>) -> TargetView {
    TargetView {
        path: "feed.rss"@,
        content: TargetContentView::Text(rss_xml("TILs"@, cfg.base_url, feed_items_spec(s))),
    }
}

/// The whole plan, in write order: assets and index, one category page per
/// tag (tags in ascending order), one page per note (insertion order), and
/// the feed.
pub open spec fn plan_spec(
    cfg: ConfigView,
    fragment: Option<Seq<char>>,
    s: Seq<TilView>,
    rs: Seq<(Seq<char>, Seq<u8>)>,
    css: Seq<char>,
) -> Seq<TargetView> {
    head_targets(cfg, fragment, s, rs, css) + tags_spec(s).map_values(
        |t: Seq<char>| category_target(cfg, s, t),
    ) + s.map_values(|t: TilView| post_target(cfg, t)) + seq![feed_target(cfg, s)]
}

/// Rendering is deterministic: any two plans of the same settings,
/// fragment, collection, resources and stylesheet are equal, so two runs
/// over equal inputs write byte-identical file sets.
pub proof fn lemma_render_deterministic(
    ts1: Seq<TargetView>,
    ts2: Seq<TargetView>,
    cfg: ConfigView,
    fragment: Option<Seq<char>>,
    s: Seq<TilView>,
    rs: Seq<(Seq<char>, Seq<u8>)>,
    css: Seq<char>,
)
    requires
        ts1 == plan_spec(cfg, fragment, s, rs, css),
        ts2 == plan_spec(cfg, fragment, s, rs, css),
    ensures
        ts1 == ts2,
{
}

/// The feed's entries, assembled from the arranged collection.
fn feed_items(tils: &TILs) -> (r: Vec<FeedItem>)
    ensures
        r.deep_view() == feed_items_spec(tils@),
{
    let mut recent = tils.by_age();
    recent.truncate(20);
    proof {
        assert(recent.deep_view() =~= take_recent(by_age_spec(tils@)));
    }
    let mut r: Vec<FeedItem> = Vec::new();
    let mut i: usize = 0;
    while i < recent.len()
        invariant
            0 <= i <= recent.len(),
            recent.deep_view() == take_recent(by_age_spec(tils@)),
            recent.deep_view().len() == recent.len(),
            r.deep_view().len() == i,
            forall|j: int|
                0 <= j < i ==> r.deep_view()[j] == feed_item_of(recent.deep_view()[j]),
        decreases recent.len() - i,
    {
        let ghost before = r.deep_view();
        let item = FeedItem {
            title: recent[i].meta.title.clone(),
            date: recent[i].meta.date.clone(),
            content: recent[i].content.clone(),
            categories: clone_string_vec(&recent[i].meta.tags),
        };
        proof {
            assert(item@ =~= feed_item_of(recent.deep_view()[i as int]));
        }
        r.push(item);
        proof {
            assert(r.deep_view() =~= before.push(item@));
        }
        i = i + 1;
    }
    proof {
        assert(r.deep_view() =~= feed_items_spec(tils@));
    }
    r
}

/// The site renderer for one run: settings, the pre-rendered front-page
/// fragment, the collection, the resource table and the highlighter theme
/// name.
pub struct Renderer {
    pub config: Config,
    pub index_html: Option<String>,
    pub tils: TILs,
    pub resources: Resources,
    pub theme: String,
}

impl Renderer {
    /// Builds the renderer: normalizes the base URL so every generated
    /// link can assume a terminating separator, and renders the optional
    /// front-page Markdown fragment to HTML.
    pub fn new(
        config: Config,
        index: Option<String>,
        tils: TILs,
        resources: Resources,
        theme: String,
    ) -> (r: Renderer)
        ensures
            r.config@ == (ConfigView {
                base_url: normalized_url(config@.base_url),
                mastodon: config@.mastodon,
                top_links: config@.top_links,
            }),
            match index {
                Some(md) => r.index_html.deep_view() == Some(fragment_html_of(md@)),
                None => r.index_html is None,
            },
            r.tils@ == tils@,
            r.resources@ == resources@,
            r.theme@ == theme@,
    {
        let config = Config {
            base_url: normalize_base_url(config.base_url),
            mastodon: config.mastodon,
            top_links: config.top_links,
        };
        let index_html = match index {
            Some(md) => Some(render_markdown_fragment(md.as_str())),
            None => None,
        };
        let r = Renderer { config, index_html, tils, resources, theme };
        proof {
            assert(r.config@ =~= (ConfigView {
                base_url: normalized_url(r.config@.base_url),
                mastodon: r.config@.mastodon,
                top_links: r.config@.top_links,
            }));
        }
        r
    }

    /// Lays out the whole plan, given the already generated highlighter
    /// stylesheet.  Succeeds exactly when both static assets are present
    /// in the resource table; the plan of a success is pinned to
    /// [`plan_spec`].
    pub fn render_with_css(&self, syntect_css: String) -> (r: Result<Vec<Target>, TilError>)
        ensures
            (res_lookup(self.resources@, "style.css"@) is Some && res_lookup(
                self.resources@,
                "index.js"@,
            ) is Some) <==> r is Ok,
            r matches Ok(ts) ==> ts.deep_view() == plan_spec(
                self.config@,
                self.index_html.deep_view(),
                self.tils@,
                self.resources@,
                syntect_css@,
            ),
            r matches Err(e) ==> e == TilError::RenderFault,
    {
        let ghost cfg = self.config@;
        let ghost sv = self.tils@;
        let ghost rs = self.resources@;
        let style = match self.resources.lookup("style.css") {
            Some(b) => b,
            None => {
                return Err(TilError::RenderFault);
            },
        };
        let script = match self.resources.lookup("index.js") {
            Some(b) => b,
            None => {
                return Err(TilError::RenderFault);
            },
        };
        let mut ts: Vec<Target> = Vec::new();
        ts.push(Target {
            path: String::from_str("style.css"),
            content: TargetContent::Bytes(style),
        });
        ts.push(Target {
            path: String::from_str("index.js"),
            content: TargetContent::Bytes(script),
        });
        ts.push(Target {
            path: String::from_str("syntect.css"),
            content: TargetContent::Text(syntect_css),
        });
        let tag_counts = self.tils.tag_counts();
        let mut recent = self.tils.by_age();
        recent.truncate(20);
        let index_fragment = match &self.index_html {
            Some(h) => Some(h.clone()),
            None => None,
        };
        let data = IndexData {
            config: self.config.duplicate(),
            index_fragment,
            tag_counts,
            recent,
        };
        ts.push(Target {
            path: String::from_str("index.html"),
            content: TargetContent::Page(
                String::from_str("index.hbs"),
                PageData::IndexPage(data),
            ),
        });
        let ghost fragment = self.index_html.deep_view();
        let ghost css = syntect_css@;
        proof {
            assert(ts.deep_view() =~~= head_targets(cfg, fragment, sv, rs, css));
        }
        let tag_list = self.tils.distinct_tags();
        let mut k: usize = 0;
        while k < tag_list.len()
            invariant
                0 <= k <= tag_list.len(),
                cfg == self.config@,
                sv == self.tils@,
                tag_list.deep_view() == tags_spec(sv),
                tag_list.deep_view().len() == tag_list.len(),
                ts.deep_view() == head_targets(cfg, fragment, sv, rs, css) + tags_spec(
                    sv,
                ).take(k as int).map_values(|t: Seq<char>| category_target(cfg, sv, t)),
            decreases tag_list.len() - k,
        {
            let ghost before = ts.deep_view();
            let tag = &tag_list[k];
            let path = String::from_str("category/").concat(tag.as_str()).concat("/index.html");
            let lst = self.tils.posts_with_tag(tag);
            let data = CategoryData {
                config: self.config.duplicate(),
                tag: tag.clone(),
                tils: lst,
            };
            ts.push(Target {
                path,
                content: TargetContent::Page(
                    String::from_str("category.hbs"),
                    PageData::CategoryPage(data),
                ),
            });
            proof {
                assert(ts.deep_view() =~= before.push(ts.deep_view().last()));
                assert(ts.deep_view().last() =~~= category_target(
                    cfg,
                    sv,
                    tags_spec(sv)[k as int],
                ));
                assert(tags_spec(sv).take(k as int + 1).map_values(
                    |t: Seq<char>| category_target(cfg, sv, t),
                ) =~= tags_spec(sv).take(k as int).map_values(
                    |t: Seq<char>| category_target(cfg, sv, t),
                ).push(category_target(cfg, sv, tags_spec(sv)[k as int])));
            }
            k = k + 1;
        }
        proof {
            assert(tags_spec(sv).take(tags_spec(sv).len() as int) =~= tags_spec(sv));
        }
        let mut i: usize = 0;
        while i < self.tils.0.len()
            invariant
                0 <= i <= self.tils.0.len(),
                cfg == self.config@,
                sv == self.tils@,
                sv.len() == self.tils.0.len(),
                ts.deep_view() == head_targets(cfg, fragment, sv, rs, css) + tags_spec(
                    sv,
                ).map_values(|t: Seq<char>| category_target(cfg, sv, t)) + sv.take(
                    i as int,
                ).map_values(|t: TilView| post_target(cfg, t)),
            decreases self.tils.0.len() - i,
        {
            let ghost before = ts.deep_view();
            let til = &self.tils.0[i];
            let path = String::from_str("post/").concat(
                slugify(til.meta.title.as_str()).as_str(),
            ).concat("/index.html");
            let data = TILPost::new(&self.config, til);
            ts.push(Target {
                path,
                content: TargetContent::Page(
                    String::from_str("til.hbs"),
                    PageData::PostPage(data),
                ),
            });
            proof {
                assert(ts.deep_view() =~= before.push(ts.deep_view().last()));
                assert(ts.deep_view().last() =~~= post_target(cfg, sv[i as int]));
                assert(sv.take(i as int + 1).map_values(|t: TilView| post_target(cfg, t)) =~= sv
                    .take(i as int).map_values(|t: TilView| post_target(cfg, t)).push(
                    post_target(cfg, sv[i as int]),
                ));
            }
            i = i + 1;
        }
        proof {
            assert(sv.take(sv.len() as int) =~= sv);
        }
        let items = feed_items(&self.tils);
        let xml = rss_channel_xml("TILs", self.config.base_url.as_str(), &items);
        let ghost before = ts.deep_view();
        ts.push(Target { path: String::from_str("feed.rss"), content: TargetContent::Text(xml) });
        proof {
            assert(ts.deep_view() =~= before.push(ts.deep_view().last()));
            assert(ts.deep_view().last() =~~= feed_target(cfg, sv));
            assert(ts.deep_view() =~~= plan_spec(cfg, fragment, sv, rs, css));
        }
        Ok(ts)
    }

    /// Generates the highlighter stylesheet for the configured theme and
    /// lays out the whole plan.  Succeeds exactly when the theme yields a
    /// stylesheet and both static assets are present — so re-rendering
    /// unchanged inputs succeeds again; a successful plan is pinned to
    /// [`plan_spec`]; an unknown theme or an absent static asset is a
    /// rendering fault.
    pub fn render(&self) -> (r: Result<Vec<Target>, TilError>)
        ensures
            r is Ok <==> (theme_ok(self.theme@) && res_lookup(self.resources@, "style.css"@)
                is Some && res_lookup(self.resources@, "index.js"@) is Some),
            r matches Ok(ts) ==> ts.deep_view() == plan_spec(
                self.config@,
                self.index_html.deep_view(),
                self.tils@,
                self.resources@,
                theme_css(self.theme@),
            ),
            r matches Err(e) ==> e == TilError::RenderFault,
    {
        match theme_stylesheet(self.theme.as_str()) {
            None => Err(TilError::RenderFault),
            Some(css) => self.render_with_css(css),
        }
    }
}

/// Runs the whole pipeline on already-read note files: parses and renders
/// every note (failing fast, before any target exists, when one is bad),
/// indexes the collection, and lays out the plan.  A successful run yields
/// the full plan of some well-formed collection with one note per input
/// file; a failed run yields no targets at all.
pub fn build_site(
    tiller: &Tiller,
    raw_posts: &Vec<String>,
    config: Config,
    index_md: Option<String>,
    resources: Resources,
    theme: String,
) -> (r: Result<Vec<Target>, TilError>)
    ensures
        r matches Ok(ts) ==> exists|s: Seq<TilView>|
            all_wf(s) && s.len() == raw_posts@.len() && (forall|i: int|
                0 <= i < s.len() ==> (fm_split_of(raw_posts@[i]@) matches Some(b) && (
                #[trigger] s[i]).content == body_html_of(b))) && ts.deep_view() == plan_spec(
                ConfigView {
                    base_url: normalized_url(config@.base_url),
                    mastodon: config@.mastodon,
                    top_links: config@.top_links,
                },
                match index_md {
                    Some(md) => Some(fragment_html_of(md@)),
                    None => None::<Seq<char>>,
                },
                s,
                resources@,
                theme_css(theme@),
            ),
        (exists|i: int|
            0 <= i < raw_posts@.len() && fm_split_of((#[trigger] raw_posts@[i])@) is None)
            ==> r is Err,
        (raw_posts@.len() == 0 && theme_ok(theme@) && res_lookup(resources@, "style.css"@)
            is Some && res_lookup(resources@, "index.js"@) is Some) ==> r is Ok,
{
    let mut posts: Vec<TIL> = Vec::new();
    let mut i: usize = 0;
    while i < raw_posts.len()
        invariant
            0 <= i <= raw_posts.len(),
            posts.deep_view().len() == i,
            all_wf(posts.deep_view()),
            forall|j: int|
                0 <= j < i ==> (fm_split_of((#[trigger] raw_posts@[j])@) matches Some(b)
                    && posts.deep_view()[j].content == body_html_of(b)),
        decreases raw_posts.len() - i,
    {
        let ghost before = posts.deep_view();
        match tiller.parse_post(raw_posts[i].as_str()) {
            Ok(t) => {
                posts.push(t);
                proof {
                    assert(posts.deep_view() =~= before.push(t@));
                }
            },
            Err(e) => {
                return Err(e);
            },
        }
        i = i + 1;
    }
    let tils = TILs::new(posts);
    let ghost s = tils@;
    let renderer = Renderer::new(config, index_md, tils, resources, theme);
    let r = renderer.render();
    proof {
        if r is Ok {
            assert(renderer.index_html.deep_view() == (match index_md {
                Some(md) => Some(fragment_html_of(md@)),
                None => None::<Seq<char>>,
            }));
        }
    }
    r
}

} // verus!
