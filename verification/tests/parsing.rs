use tiller::error::TilError;
use tiller::frontmatter::{meta_from_fields, FmValue};
use tiller::tiller::{is_markdown_name, Tiller};

#[test]
fn parse_post_reads_front_matter_and_renders_body() {
    let raw = "---\ntitle: Hello World\ndate: 2024-03-07\ntags:\n  - rust\n  - web\n---\nSome *body* text\n";
    let til = Tiller::new().parse_post(raw).unwrap();
    assert_eq!(til.meta.title, "Hello World");
    assert_eq!(til.meta.date, "2024-03-07");
    assert_eq!(til.meta.tags, vec!["rust".to_string(), "web".to_string()]);
    assert_eq!(til.meta.origin, None);
    assert!(til.content.contains("<em>body</em>"));
    assert!(!til.content.contains("---"));
    assert!(!til.content.contains("title:"));
}

#[test]
fn parse_post_keeps_origin_and_dedups_tags() {
    let raw = "---\ntitle: t\ndate: 2024-01-01\norigin: https://example.com/src\ntags:\n  - b\n  - a\n  - b\n---\nx\n";
    let til = Tiller::new().parse_post(raw).unwrap();
    assert_eq!(til.meta.origin, Some("https://example.com/src".to_string()));
    assert_eq!(til.meta.tags, vec!["a".to_string(), "b".to_string()]);
}

#[test]
fn parse_post_is_deterministic() {
    let raw = "---\ntitle: t\ndate: 2024-01-01\ntags:\n  - a\n  - b\n---\nsome *body*\n";
    let t1 = Tiller::new().parse_post(raw).unwrap();
    let t2 = Tiller::new().parse_post(raw).unwrap();
    assert_eq!(t1.content, t2.content);
    assert_eq!(t1.meta.title, t2.meta.title);
    assert_eq!(t1.meta.date, t2.meta.date);
    assert_eq!(t1.meta.tags, t2.meta.tags);
}

#[test]
fn parse_post_missing_date_fails() {
    let raw = "---\ntitle: only a title\n---\nbody\n";
    let r = Tiller::new().parse_post(raw);
    assert_eq!(r.unwrap_err(), TilError::MissingRequiredField);
}

#[test]
fn parse_post_missing_title_fails() {
    let raw = "---\ndate: 2024-01-01\n---\nbody\n";
    let r = Tiller::new().parse_post(raw);
    assert_eq!(r.unwrap_err(), TilError::MissingRequiredField);
}

#[test]
fn parse_post_without_front_matter_fails() {
    let r = Tiller::new().parse_post("just a plain body, no metadata\n");
    assert_eq!(r.unwrap_err(), TilError::MalformedFrontMatter);
}

#[test]
fn parse_post_with_unparsable_block_fails() {
    let raw = "---\n- this is a list\n- not a mapping\n---\nbody\n";
    let r = Tiller::new().parse_post(raw);
    assert_eq!(r.unwrap_err(), TilError::MalformedFrontMatter);
}

#[test]
fn parse_post_with_wrongly_shaped_tags_fails() {
    let raw = "---\ntitle: t\ndate: 2024-01-01\ntags: not-a-list\n---\nbody\n";
    let r = Tiller::new().parse_post(raw);
    assert_eq!(r.unwrap_err(), TilError::MalformedFrontMatter);
}

#[test]
fn parse_post_unknown_code_fence_language_still_renders() {
    let raw = "---\ntitle: t\ndate: 2024-01-01\n---\n```nosuchlanguage\nlet x = 1;\n```\n";
    let til = Tiller::new().parse_post(raw).unwrap();
    assert!(til.content.contains("<code"));
    assert!(til.content.contains("let x = 1;"));
}

#[test]
fn parse_post_known_code_fence_language_is_highlighted() {
    let raw = "---\ntitle: t\ndate: 2024-01-01\n---\n```rust\nlet x = 1;\n```\n";
    let til = Tiller::new().parse_post(raw).unwrap();
    assert!(til.content.contains("<code"));
    assert!(til.content.contains("class="));
}

#[test]
fn parse_post_renders_markdown_tables() {
    let raw = "---\ntitle: t\ndate: 2024-01-01\n---\n| a | b |\n|---|---|\n| 1 | 2 |\n";
    let til = Tiller::new().parse_post(raw).unwrap();
    assert!(til.content.contains("<table"));
}

#[test]
fn meta_from_fields_accepts_any_field_order() {
    let fields = vec![
        ("date".to_string(), FmValue::Text("2024-01-01".to_string())),
        ("extra".to_string(), FmValue::Other),
        ("title".to_string(), FmValue::Text("t".to_string())),
    ];
    let m = meta_from_fields(&fields).unwrap();
    assert_eq!(m.title, "t");
    assert_eq!(m.date, "2024-01-01");
    assert!(m.tags.is_empty());
    assert_eq!(m.origin, None);
}

#[test]
fn meta_from_fields_empty_title_is_missing() {
    let fields = vec![
        ("title".to_string(), FmValue::Text(String::new())),
        ("date".to_string(), FmValue::Text("2024-01-01".to_string())),
    ];
    assert_eq!(meta_from_fields(&fields).unwrap_err(), TilError::MissingRequiredField);
}

#[test]
fn meta_from_fields_wrong_origin_shape_is_malformed() {
    let fields = vec![
        ("title".to_string(), FmValue::Text("t".to_string())),
        ("date".to_string(), FmValue::Text("2024-01-01".to_string())),
        ("origin".to_string(), FmValue::List(vec!["x".to_string()])),
    ];
    assert_eq!(meta_from_fields(&fields).unwrap_err(), TilError::MalformedFrontMatter);
}

#[test]
fn meta_from_fields_malformed_wins_over_missing() {
    let fields = vec![("date".to_string(), FmValue::List(vec![]))];
    assert_eq!(meta_from_fields(&fields).unwrap_err(), TilError::MalformedFrontMatter);
}

#[test]
fn meta_from_fields_sorts_and_dedups_tags() {
    let fields = vec![
        ("title".to_string(), FmValue::Text("t".to_string())),
        ("date".to_string(), FmValue::Text("2024-01-01".to_string())),
        (
            "tags".to_string(),
            FmValue::List(vec!["web".to_string(), "cli".to_string(), "web".to_string()]),
        ),
    ];
    let m = meta_from_fields(&fields).unwrap();
    assert_eq!(m.tags, vec!["cli".to_string(), "web".to_string()]);
}

#[test]
fn markdown_names_are_recognized() {
    assert!(is_markdown_name("note.md"));
    assert!(is_markdown_name("a.md"));
    assert!(is_markdown_name(".md"));
    assert!(!is_markdown_name("note.txt"));
    assert!(!is_markdown_name("md"));
    assert!(!is_markdown_name(""));
    assert!(!is_markdown_name("note.md.bak"));
}
