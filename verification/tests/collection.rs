use tiller::post::{Meta, TIL, TILs};

fn til(title: &str, date: &str, tags: &[&str]) -> TIL {
    TIL {
        meta: Meta {
            title: title.to_string(),
            tags: tags.iter().map(|t| t.to_string()).collect(),
            date: date.to_string(),
            origin: None,
        },
        content: format!("<p>{title}</p>"),
    }
}

#[test]
fn by_age_distinct_dates_descending() {
    let tils = TILs::new(vec![
        til("a", "2024-01-01", &[]),
        til("b", "2024-03-07", &[]),
        til("c", "2024-02-15", &[]),
    ]);
    let by_age = tils.by_age();
    let dates: Vec<&str> = by_age.iter().map(|t| t.meta.date.as_str()).collect();
    assert_eq!(dates, vec!["2024-03-07", "2024-02-15", "2024-01-01"]);
}

#[test]
fn by_age_equal_dates_reverse_insertion_order() {
    let tils = TILs::new(vec![
        til("first-inserted", "2024-01-01", &[]),
        til("second-inserted", "2024-01-01", &[]),
        til("third-inserted", "2024-01-01", &[]),
    ]);
    let by_age = tils.by_age();
    let titles: Vec<&str> = by_age.iter().map(|t| t.meta.title.as_str()).collect();
    assert_eq!(titles, vec!["third-inserted", "second-inserted", "first-inserted"]);
}

#[test]
fn by_age_mixes_dates_and_ties() {
    let tils = TILs::new(vec![
        til("old-early", "2023-12-31", &[]),
        til("new", "2024-06-01", &[]),
        til("old-late", "2023-12-31", &[]),
    ]);
    let by_age = tils.by_age();
    let titles: Vec<&str> = by_age.iter().map(|t| t.meta.title.as_str()).collect();
    assert_eq!(titles, vec!["new", "old-late", "old-early"]);
}

#[test]
fn by_age_empty_collection() {
    let tils = TILs::new(vec![]);
    assert!(tils.by_age().is_empty());
    assert!(tils.tags().is_empty());
    assert!(tils.by_tag().is_empty());
    assert!(tils.tag_counts().is_empty());
}

#[test]
fn tags_concatenate_each_posts_tags() {
    let tils = TILs::new(vec![
        til("a", "2024-01-01", &["rust", "web"]),
        til("b", "2024-01-02", &["cli", "rust"]),
    ]);
    let tags = tils.tags();
    let tags: Vec<&str> = tags.iter().map(|t| t.as_str()).collect();
    assert_eq!(tags, vec!["rust", "web", "cli", "rust"]);
}

#[test]
fn distinct_tags_sorted_and_unique() {
    let tils = TILs::new(vec![
        til("a", "2024-01-01", &["web", "rust"]),
        til("b", "2024-01-02", &["rust", "cli"]),
    ]);
    let tags = tils.distinct_tags();
    let tags: Vec<&str> = tags.iter().map(|t| t.as_str()).collect();
    assert_eq!(tags, vec!["cli", "rust", "web"]);
}

#[test]
fn by_tag_groups_are_date_descending() {
    let tils = TILs::new(vec![
        til("a", "2024-01-01", &["rust"]),
        til("b", "2024-02-01", &["rust", "web"]),
        til("c", "2024-03-01", &["rust"]),
    ]);
    let groups = tils.by_tag();
    assert_eq!(groups.len(), 2);
    assert_eq!(groups[0].0, "rust");
    let rust_titles: Vec<&str> = groups[0].1.iter().map(|t| t.meta.title.as_str()).collect();
    assert_eq!(rust_titles, vec!["c", "b", "a"]);
    assert_eq!(groups[1].0, "web");
    let web_titles: Vec<&str> = groups[1].1.iter().map(|t| t.meta.title.as_str()).collect();
    assert_eq!(web_titles, vec!["b"]);
}

#[test]
fn tag_counts_match_group_lengths_and_membership() {
    let tils = TILs::new(vec![
        til("a", "2024-01-01", &["rust"]),
        til("b", "2024-02-01", &["rust", "web"]),
    ]);
    let counts = tils.tag_counts();
    let groups = tils.by_tag();
    assert_eq!(counts.len(), groups.len());
    for (k, (tag, n)) in counts.iter().enumerate() {
        assert_eq!(tag, &groups[k].0);
        assert_eq!(*n, groups[k].1.len());
        let members = tils
            .0
            .iter()
            .filter(|t| t.meta.tags.iter().any(|x| x == tag))
            .count();
        assert_eq!(*n, members);
    }
    assert_eq!(counts[0], ("rust".to_string(), 2));
    assert_eq!(counts[1], ("web".to_string(), 1));
}

#[test]
fn posts_with_tag_filters_and_orders() {
    let tils = TILs::new(vec![
        til("a", "2024-01-01", &["web"]),
        til("b", "2024-02-01", &["rust"]),
        til("c", "2024-03-01", &["web"]),
    ]);
    let web = tils.posts_with_tag(&"web".to_string());
    let titles: Vec<&str> = web.iter().map(|t| t.meta.title.as_str()).collect();
    assert_eq!(titles, vec!["c", "a"]);
}
