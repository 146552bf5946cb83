use lazydraft::writing::{
    count_drafts, parse_publish_date, sort_writings, writing_from_content, Date, Writing,
};

#[test]
fn publish_date_parses_plain_dates() {
    assert_eq!(
        parse_publish_date("2024-03-01"),
        Some(Date { year: 2024, month: 3, day: 1 })
    );
    assert_eq!(parse_publish_date("not a date"), None);
    assert_eq!(parse_publish_date("2024-02-30"), None);
}

#[test]
fn writing_new_parses_its_date() {
    let w = Writing::new("/s/a.md".to_string(), "A".to_string(), true, "2023-12-31");
    assert_eq!(w.publish_date, Some(Date { year: 2023, month: 12, day: 31 }));
    let w2 = Writing::new("/s/b.md".to_string(), "B".to_string(), false, "");
    assert_eq!(w2.publish_date, None);
}

#[test]
fn writing_from_content_reads_the_frontmatter() {
    let w = writing_from_content(
        "/s/a.md",
        "---\ntitle: My Post\ndraft: true\npublishDate: 2024-01-02\n---\nbody",
    )
    .unwrap();
    assert_eq!(w.path, "/s/a.md");
    assert_eq!(w.title, "My Post");
    assert!(w.is_draft);
    assert_eq!(w.publish_date, Some(Date { year: 2024, month: 1, day: 2 }));
}

#[test]
fn writing_from_content_defaults_missing_fields() {
    let w = writing_from_content("/s/a.md", "no frontmatter here").unwrap();
    assert_eq!(w.title, "");
    assert!(!w.is_draft);
    assert_eq!(w.publish_date, None);
}

#[test]
fn writing_from_unparsable_file_is_skipped() {
    assert!(writing_from_content("/s/a.md", "---\n[oops\n---\nbody").is_none());
}

fn w(path: &str, draft: bool, date: &str) -> Writing {
    Writing::new(path.to_string(), path.to_string(), draft, date)
}

#[test]
fn listing_order_puts_drafts_first_newest_first() {
    let ws = vec![
        w("old-published", false, "2020-01-01"),
        w("new-draft", true, "2024-06-01"),
        w("new-published", false, "2024-01-01"),
        w("dateless-draft", true, ""),
        w("old-draft", true, "2021-01-01"),
    ];
    let sorted = sort_writings(ws);
    let order: Vec<&str> = sorted.iter().map(|x| x.path.as_str()).collect();
    assert_eq!(
        order,
        vec!["new-draft", "old-draft", "dateless-draft", "new-published", "old-published"]
    );
}

#[test]
fn draft_count_counts_only_drafts() {
    let ws = vec![w("a", true, ""), w("b", false, ""), w("c", true, "")];
    assert_eq!(count_drafts(&ws), 2);
}
