use lazydraft::document::{parse_document, serialize_document, Document};
use lazydraft::error::StageError;
use lazydraft::yaml::Yaml;

fn str_entry(k: &str, v: &str) -> (String, Yaml) {
    (k.to_string(), Yaml::Str(v.to_string()))
}

#[test]
fn parse_plain_document() {
    let doc = parse_document("---\ntitle: Hello\ndraft: true\n---\nBody text\n").unwrap();
    assert_eq!(doc.frontmatter.len(), 2);
    assert_eq!(doc.frontmatter[0].0, "title");
    match &doc.frontmatter[0].1 {
        Yaml::Str(s) => assert_eq!(s, "Hello"),
        other => panic!("unexpected value: {:?}", kind_of(other)),
    }
    match &doc.frontmatter[1].1 {
        Yaml::Bool(b) => assert!(*b),
        other => panic!("unexpected value: {:?}", kind_of(other)),
    }
    // the body keeps the closing delimiter line
    assert_eq!(doc.body, "---\nBody text\n");
}

fn kind_of(t: &Yaml) -> &'static str {
    match t {
        Yaml::Null => "null",
        Yaml::Bool(_) => "bool",
        Yaml::Str(_) => "str",
        Yaml::List(_) => "list",
        Yaml::Dict(_) => "dict",
        Yaml::Opaque(_) => "opaque",
    }
}

#[test]
fn parse_without_frontmatter_keeps_whole_content() {
    let doc = parse_document("Just text\nwith lines\n").unwrap();
    assert_eq!(doc.frontmatter.len(), 0);
    assert_eq!(doc.body, "Just text\nwith lines\n");
}

#[test]
fn parse_empty_frontmatter_block() {
    let doc = parse_document("---\n---\nBody").unwrap();
    assert_eq!(doc.frontmatter.len(), 0);
    assert_eq!(doc.body, "---\nBody");
}

#[test]
fn parse_rejects_invalid_yaml() {
    let r = parse_document("---\n: : :\n  - ]broken\n---\nBody");
    assert!(matches!(r, Err(StageError::Parse)));
}

#[test]
fn parse_rejects_scalar_frontmatter() {
    let r = parse_document("---\njust a string\n---\nBody");
    assert!(matches!(r, Err(StageError::Parse)));
}

#[test]
fn round_trip_parse_serialize_parse() {
    let source = "---\ntitle: Hello\ndraft: true\ntags:\n- a\n- b\n---\nBody line one\nline two";
    let doc = parse_document(source).unwrap();
    let body_before = doc.body.clone();
    let n_before = doc.frontmatter.len();
    let out = serialize_document(doc).unwrap();
    let again = parse_document(&out).unwrap();
    assert_eq!(again.body, body_before);
    assert_eq!(again.frontmatter.len(), n_before);
    assert_eq!(again.frontmatter[0].0, "title");
    match &again.frontmatter[0].1 {
        Yaml::Str(s) => assert_eq!(s, "Hello"),
        other => panic!("unexpected value: {:?}", kind_of(other)),
    }
    match &again.frontmatter[1].1 {
        Yaml::Bool(b) => assert!(*b),
        other => panic!("unexpected value: {:?}", kind_of(other)),
    }
    match &again.frontmatter[2].1 {
        Yaml::List(xs) => {
            assert_eq!(xs.len(), 2);
            match (&xs[0], &xs[1]) {
                (Yaml::Str(a), Yaml::Str(b)) => {
                    assert_eq!(a, "a");
                    assert_eq!(b, "b");
                }
                _ => panic!("tags should stay strings"),
            }
        }
        other => panic!("unexpected value: {:?}", kind_of(other)),
    }
}

#[test]
fn serialize_emits_delimited_document() {
    let doc = Document {
        frontmatter: vec![str_entry("title", "T")],
        body: "---\nB".to_string(),
    };
    let out = serialize_document(doc).unwrap();
    assert_eq!(out, "---\ntitle: T\n\n---\nB");
}

#[test]
fn parse_rejects_duplicate_keys() {
    let r = parse_document("---\na: 1\na: 2\n---\nBody");
    assert!(matches!(r, Err(StageError::Parse)));
}

#[test]
fn parse_empty_content() {
    let doc = parse_document("").unwrap();
    assert_eq!(doc.frontmatter.len(), 0);
    assert_eq!(doc.body, "");
}

#[test]
fn closing_delimiter_is_exactly_three_dashes() {
    // A longer dash run does not close the block: it stays part of the
    // frontmatter text, which here makes the block invalid YAML.
    let r = parse_document("---\ntitle: x\n----\n---\nbody");
    assert!(matches!(r, Err(StageError::Parse)));
}
