use tiller::config::{normalize_base_url, Config, Link};
use tiller::error::TilError;
use tiller::post::{Meta, TIL, TILs};
use tiller::render::{
    build_site, PageData, Renderer, Resources, Target, TargetContent,
};
use tiller::tiller::Tiller;

fn til(title: &str, date: &str, tags: &[&str]) -> TIL {
    TIL {
        meta: Meta {
            title: title.to_string(),
            tags: tags.iter().map(|t| t.to_string()).collect(),
            date: date.to_string(),
            origin: None,
        },
        content: format!("<p>{title}</p>"),
    }
}

fn config(base_url: &str) -> Config {
    Config {
        base_url: base_url.to_string(),
        mastodon: Some("https://example.social/@til".to_string()),
        top_links: vec![Link { title: "home".to_string(), url: "https://example.com".to_string() }],
    }
}

fn resources() -> Resources {
    Resources(vec![
        ("style.css".to_string(), b"body { margin: 0 }".to_vec()),
        ("index.js".to_string(), b"console.log('til')".to_vec()),
    ])
}

const THEME: &str = "Solarized (dark)";

fn renderer(tils: TILs, base_url: &str, index: Option<String>) -> Renderer {
    Renderer::new(config(base_url), index, tils, resources(), THEME.to_string())
}

fn meta_eq(a: &Meta, b: &Meta) -> bool {
    a.title == b.title && a.tags == b.tags && a.date == b.date && a.origin == b.origin
}

fn config_eq(a: &Config, b: &Config) -> bool {
    a.base_url == b.base_url && a.mastodon == b.mastodon && a.top_links.len()
        == b.top_links.len() && a.top_links.iter().zip(b.top_links.iter()).all(
        |(x, y)| x.title == y.title && x.url == y.url,
    )
}

fn tils_eq(a: &[TIL], b: &[TIL]) -> bool {
    a.len() == b.len() && a.iter().zip(b.iter()).all(
        |(x, y)| meta_eq(&x.meta, &y.meta) && x.content == y.content,
    )
}

fn target_eq(a: &Target, b: &Target) -> bool {
    if a.path != b.path {
        return false;
    }
    match (&a.content, &b.content) {
        (TargetContent::Bytes(x), TargetContent::Bytes(y)) => x == y,
        (TargetContent::Text(x), TargetContent::Text(y)) => x == y,
        (TargetContent::Page(n1, d1), TargetContent::Page(n2, d2)) => {
            n1 == n2 && match (d1, d2) {
                (PageData::IndexPage(x), PageData::IndexPage(y)) => {
                    config_eq(&x.config, &y.config) && x.index_fragment == y.index_fragment
                        && x.tag_counts == y.tag_counts && tils_eq(&x.recent, &y.recent)
                },
                (PageData::CategoryPage(x), PageData::CategoryPage(y)) => {
                    config_eq(&x.config, &y.config) && x.tag == y.tag && tils_eq(
                        &x.tils,
                        &y.tils,
                    )
                },
                (PageData::PostPage(x), PageData::PostPage(y)) => {
                    config_eq(&x.config, &y.config) && meta_eq(&x.meta, &y.meta) && x.content
                        == y.content
                },
                _ => false,
            }
        },
        _ => false,
    }
}

fn two_post_collection() -> TILs {
    TILs::new(vec![
        til("January note", "2024-01-01", &["rust"]),
        til("February note", "2024-02-01", &["rust", "web"]),
    ])
}

#[test]
fn plan_lists_every_target_once_in_order() {
    let r = renderer(two_post_collection(), "https://example.com/", None);
    let plan = r.render().unwrap();
    let paths: Vec<&str> = plan.iter().map(|t| t.path.as_str()).collect();
    assert_eq!(
        paths,
        vec![
            "style.css",
            "index.js",
            "syntect.css",
            "index.html",
            "category/rust/index.html",
            "category/web/index.html",
            "post/january-note/index.html",
            "post/february-note/index.html",
            "feed.rss",
        ]
    );
}

#[test]
fn rendering_twice_is_deterministic() {
    let p1 = renderer(two_post_collection(), "https://example.com/", Some("# Hi\n".to_string()))
        .render()
        .unwrap();
    let p2 = renderer(two_post_collection(), "https://example.com/", Some("# Hi\n".to_string()))
        .render()
        .unwrap();
    assert_eq!(p1.len(), p2.len());
    for (a, b) in p1.iter().zip(p2.iter()) {
        assert!(target_eq(a, b));
    }
}

#[test]
fn index_page_carries_counts_recent_and_fragment() {
    let r = renderer(two_post_collection(), "https://example.com/", Some("*hello*".to_string()));
    let plan = r.render().unwrap();
    let index = &plan[3];
    assert_eq!(index.path, "index.html");
    match &index.content {
        TargetContent::Page(template, PageData::IndexPage(d)) => {
            assert_eq!(template, "index.hbs");
            assert_eq!(
                d.tag_counts,
                vec![("rust".to_string(), 2), ("web".to_string(), 1)]
            );
            let recent: Vec<&str> = d.recent.iter().map(|t| t.meta.title.as_str()).collect();
            assert_eq!(recent, vec!["February note", "January note"]);
            assert!(d.index_fragment.as_ref().unwrap().contains("<em>hello</em>"));
        },
        _ => panic!("index.html must be a page target"),
    }
}

#[test]
fn category_page_for_web_lists_exactly_one_post() {
    let r = renderer(two_post_collection(), "https://example.com/", None);
    let plan = r.render().unwrap();
    let web = plan.iter().find(|t| t.path == "category/web/index.html").unwrap();
    match &web.content {
        TargetContent::Page(template, PageData::CategoryPage(d)) => {
            assert_eq!(template, "category.hbs");
            assert_eq!(d.tag, "web");
            assert_eq!(d.tils.len(), 1);
            assert_eq!(d.tils[0].meta.title, "February note");
        },
        _ => panic!("category page must be a page target"),
    }
}

#[test]
fn feed_lists_most_recent_first() {
    let r = renderer(two_post_collection(), "https://example.com/", None);
    let plan = r.render().unwrap();
    let feed = plan.last().unwrap();
    assert_eq!(feed.path, "feed.rss");
    match &feed.content {
        TargetContent::Text(xml) => {
            assert!(xml.contains("<rss"));
            assert!(xml.contains("<title>TILs</title>"));
            let feb = xml.find("February note").unwrap();
            let jan = xml.find("January note").unwrap();
            assert!(feb < jan);
            assert!(xml.contains("2024-02-01"));
            assert!(xml.contains("<category>web</category>"));
        },
        _ => panic!("feed must be finished text"),
    }
}

#[test]
fn base_url_is_normalized_before_any_link() {
    assert_eq!(normalize_base_url("example.com".to_string()), "example.com/");
    assert_eq!(normalize_base_url("example.com/".to_string()), "example.com/");
    assert_eq!(normalize_base_url("/".to_string()), "/");
    assert_eq!(normalize_base_url(String::new()), "/");
    let r = renderer(two_post_collection(), "example.com", None);
    assert_eq!(r.config.base_url, "example.com/");
    let plan = r.render().unwrap();
    match &plan.last().unwrap().content {
        TargetContent::Text(xml) => assert!(xml.contains("<link>example.com/</link>")),
        _ => panic!("feed must be finished text"),
    }
}

#[test]
fn post_paths_use_slugs_not_titles() {
    let r = renderer(
        TILs::new(vec![til("Hello, World! Nice Day", "2024-01-01", &[])]),
        "https://example.com/",
        None,
    );
    let plan = r.render().unwrap();
    assert!(plan.iter().any(|t| t.path == "post/hello-world-nice-day/index.html"));
}

#[test]
fn copied_assets_are_verbatim() {
    let r = renderer(TILs::new(vec![]), "https://example.com/", None);
    let plan = r.render().unwrap();
    match &plan[0].content {
        TargetContent::Bytes(b) => assert_eq!(b.as_slice(), b"body { margin: 0 }"),
        _ => panic!("style.css must be bytes"),
    }
    match &plan[1].content {
        TargetContent::Bytes(b) => assert_eq!(b.as_slice(), b"console.log('til')"),
        _ => panic!("index.js must be bytes"),
    }
}

#[test]
fn syntect_stylesheet_is_generated_from_theme() {
    let r = renderer(TILs::new(vec![]), "https://example.com/", None);
    let plan = r.render().unwrap();
    assert_eq!(plan[2].path, "syntect.css");
    match &plan[2].content {
        TargetContent::Text(css) => {
            assert!(!css.is_empty());
            assert!(css.contains("color"));
        },
        _ => panic!("syntect.css must be finished text"),
    }
}

#[test]
fn unknown_theme_is_a_render_fault() {
    let r = Renderer::new(
        config("https://example.com/"),
        None,
        TILs::new(vec![]),
        resources(),
        "No Such Theme".to_string(),
    );
    assert_eq!(r.render().unwrap_err(), TilError::RenderFault);
}

#[test]
fn missing_static_asset_is_a_render_fault() {
    let r = Renderer::new(
        config("https://example.com/"),
        None,
        TILs::new(vec![]),
        Resources(vec![("style.css".to_string(), vec![])]),
        THEME.to_string(),
    );
    assert_eq!(r.render().unwrap_err(), TilError::RenderFault);
}

#[test]
fn build_site_end_to_end() {
    let posts = vec![
        "---\ntitle: January note\ndate: 2024-01-01\ntags:\n  - rust\n---\nfirst\n".to_string(),
        "---\ntitle: February note\ndate: 2024-02-01\ntags:\n  - rust\n  - web\n---\nsecond\n"
            .to_string(),
    ];
    let plan = build_site(
        &Tiller::new(),
        &posts,
        config("example.com"),
        None,
        resources(),
        THEME.to_string(),
    )
    .unwrap();
    let paths: Vec<&str> = plan.iter().map(|t| t.path.as_str()).collect();
    assert!(paths.contains(&"category/web/index.html"));
    assert!(paths.contains(&"post/january-note/index.html"));
    match &plan[3].content {
        TargetContent::Page(_, PageData::IndexPage(d)) => {
            assert_eq!(d.tag_counts, vec![("rust".to_string(), 2), ("web".to_string(), 1)]);
            assert_eq!(d.recent[0].meta.title, "February note");
            assert_eq!(d.recent[1].meta.title, "January note");
        },
        _ => panic!("index.html must be a page target"),
    }
    match &plan.last().unwrap().content {
        TargetContent::Text(xml) => {
            assert!(xml.contains("<link>example.com/</link>"));
            let feb = xml.find("February note").unwrap();
            let jan = xml.find("January note").unwrap();
            assert!(feb < jan);
        },
        _ => panic!("feed must be finished text"),
    }
}

#[test]
fn build_site_fails_fast_on_bad_post() {
    let posts = vec![
        "---\ntitle: good\ndate: 2024-01-01\n---\nok\n".to_string(),
        "---\ntitle: bad, no date\n---\nx\n".to_string(),
    ];
    let r = build_site(
        &Tiller::new(),
        &posts,
        config("example.com"),
        None,
        resources(),
        THEME.to_string(),
    );
    assert_eq!(r.unwrap_err(), TilError::MissingRequiredField);
}

#[test]
fn more_than_twenty_posts_feed_and_recent_are_capped() {
    let mut posts: Vec<TIL> = Vec::new();
    for d in 1..=25u32 {
        posts.push(til(&format!("note {d}"), &format!("2024-01-{d:02}"), &[]));
    }
    let r = renderer(TILs::new(posts), "https://example.com/", None);
    let plan = r.render().unwrap();
    match &plan[3].content {
        TargetContent::Page(_, PageData::IndexPage(d)) => {
            assert_eq!(d.recent.len(), 20);
            assert_eq!(d.recent[0].meta.title, "note 25");
            assert_eq!(d.recent[19].meta.title, "note 6");
        },
        _ => panic!("index.html must be a page target"),
    }
    match &plan.last().unwrap().content {
        TargetContent::Text(xml) => {
            assert!(xml.contains("note 6"));
            assert!(!xml.contains("note 5"));
        },
        _ => panic!("feed must be finished text"),
    }
}
