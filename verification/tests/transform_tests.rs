use lazydraft::assets::Asset;
use lazydraft::config::Config;
use lazydraft::error::{ConfigField, StageError};
use lazydraft::transform::{
    add_cover_image, change_image_formats, create_writing_name, output_file_name, stage_content,
    strip_tags, strip_wikilinks,
};
use lazydraft::yaml::{remove_empty_values, Yaml};

fn base_config() -> Config {
    Config {
        source_dir: Some("/src".to_string()),
        source_asset_dir: Some("/src/assets".to_string()),
        target_dir: Some("/target".to_string()),
        target_asset_dir: Some("/target/assets".to_string()),
        target_asset_prefix: Some("images".to_string()),
        target_hero_image_prefix: Some("hero".to_string()),
        yaml_asset_prefix: Some("assetPrefix".to_string()),
        sanitize_frontmatter: Some(false),
        auto_add_cover_img: Some(false),
        auto_add_hero_img: Some(false),
        remove_draft_on_stage: Some(false),
        add_date_prefix: Some(false),
        remove_wikilinks: Some(false),
        trim_tags: Some(false),
        tag_prefix: None,
        use_mdx_format: Some(false),
    }
}

#[test]
fn tag_trimming_strips_the_prefix() {
    let mut fm = vec![(
        "tags".to_string(),
        Yaml::List(vec![
            Yaml::Str("blog-draft".to_string()),
            Yaml::Str("blog-tech".to_string()),
            Yaml::Str("misc".to_string()),
        ]),
    )];
    strip_tags(&mut fm, "blog-");
    match &fm[0].1 {
        Yaml::List(xs) => {
            let got: Vec<&str> = xs
                .iter()
                .map(|t| match t {
                    Yaml::Str(s) => s.as_str(),
                    _ => panic!("tag should stay a string"),
                })
                .collect();
            assert_eq!(got, vec!["draft", "tech", "misc"]);
        }
        _ => panic!("tags should stay a list"),
    }
}

#[test]
fn wikilink_embed_rewrite() {
    let config = base_config();
    let out = change_image_formats("before ![[cover.png]] after".to_string(), &config);
    assert_eq!(out, "before ![](images/cover.png) after");
}

#[test]
fn wikilink_plain_rewrite() {
    let out = strip_wikilinks("see [[Some Page]] here".to_string());
    assert_eq!(out, "see Some Page here");
}

#[test]
fn wikilink_no_match_across_lines() {
    let config = base_config();
    let text = "open ![[not\nclosed]] end".to_string();
    let out = change_image_formats(text.clone(), &config);
    assert_eq!(out, text);
}

#[test]
fn filename_construction() {
    let mut config = base_config();
    config.add_date_prefix = Some(true);
    config.use_mdx_format = Some(true);
    let fm = vec![(
        "publishDate".to_string(),
        Yaml::Str("2024-03-01".to_string()),
    )];
    let name = create_writing_name(&fm, &config, "/src/hello.md");
    assert_eq!(name, "2024-03-01-hello.md");
    let full = output_file_name(&fm, &config, "/src/hello.md");
    assert_eq!(full, "2024-03-01-hello.mdx");
}

#[test]
fn filename_without_date_prefix() {
    let config = base_config();
    let fm = vec![];
    assert_eq!(output_file_name(&fm, &config, "/src/notes/post.md"), "post.md");
}

#[test]
fn prune_removes_null_fields_recursively() {
    let t = Yaml::Dict(vec![
        ("keep".to_string(), Yaml::Str("x".to_string())),
        ("drop".to_string(), Yaml::Null),
        (
            "nested".to_string(),
            Yaml::Dict(vec![
                ("inner_drop".to_string(), Yaml::Null),
                ("inner_keep".to_string(), Yaml::Bool(true)),
            ]),
        ),
    ]);
    match remove_empty_values(t) {
        Yaml::Dict(es) => {
            assert_eq!(es.len(), 2);
            assert_eq!(es[0].0, "keep");
            assert_eq!(es[1].0, "nested");
            match &es[1].1 {
                Yaml::Dict(inner) => {
                    assert_eq!(inner.len(), 1);
                    assert_eq!(inner[0].0, "inner_keep");
                }
                _ => panic!("nested mapping should stay a mapping"),
            }
        }
        _ => panic!("pruning a mapping should yield a mapping"),
    }
}

#[test]
fn cover_image_injection_uses_matching_header_asset() {
    let mut fm = vec![("assetPrefix".to_string(), Yaml::Str("post1".to_string()))];
    let assets = vec![
        Asset { asset_path: "/a/post1-img.png".to_string() },
        Asset { asset_path: "/a/post1-header.png".to_string() },
    ];
    add_cover_image(&mut fm, "images", &assets);
    assert_eq!(fm.len(), 2);
    assert_eq!(fm[1].0, "image");
    match &fm[1].1 {
        Yaml::Dict(es) => {
            assert_eq!(es.len(), 2);
            assert_eq!(es[0].0, "path");
            match &es[0].1 {
                Yaml::Str(s) => assert_eq!(s, "images/post1-header.png"),
                _ => panic!("path should be a string"),
            }
            assert_eq!(es[1].0, "alt");
            match &es[1].1 {
                Yaml::Str(s) => assert_eq!(s, "Cover Image"),
                _ => panic!("alt should be a string"),
            }
        }
        _ => panic!("image should be a mapping"),
    }
}

#[test]
fn missing_tag_prefix_fails_staging_before_any_output() {
    let mut config = base_config();
    config.trim_tags = Some(true);
    config.tag_prefix = None;
    let r = stage_content("---\ndraft: true\n---\nbody", &config, &vec![], "/src/a.md");
    assert_eq!(
        r.err().expect("staging must fail"),
        StageError::MissingSetting(ConfigField::TagPrefix)
    );
}

#[test]
fn missing_target_dir_fails_staging() {
    let mut config = base_config();
    config.target_dir = Some(String::new());
    let r = stage_content("---\ndraft: true\n---\nbody", &config, &vec![], "/src/a.md");
    assert_eq!(
        r.err().expect("staging must fail"),
        StageError::MissingSetting(ConfigField::TargetDir)
    );
}

#[test]
fn staging_twice_is_byte_identical() {
    let mut config = base_config();
    config.remove_draft_on_stage = Some(true);
    config.sanitize_frontmatter = Some(true);
    config.add_date_prefix = Some(true);
    config.use_mdx_format = Some(true);
    config.remove_wikilinks = Some(true);
    config.trim_tags = Some(true);
    config.tag_prefix = Some("blog-".to_string());
    let source = "---\ntitle: Post\ndraft: true\npublishDate: 2024-03-01\nempty:\ntags:\n- blog-a\n---\nsee ![[pic.png]] and [[Other]]\n";
    let assets: Vec<Asset> = vec![];
    let first = stage_content(source, &config, &assets, "/src/post.md").unwrap();
    let second = stage_content(source, &config, &assets, "/src/post.md").unwrap();
    assert_eq!(first.content, second.content);
    assert_eq!(first.file_name, second.file_name);
    assert_eq!(first.target_path, second.target_path);
    assert_eq!(first.file_name, "2024-03-01-post.mdx");
    assert_eq!(first.target_path, "/target/2024-03-01-post.mdx");
}

#[test]
fn staged_output_applies_the_rule_chain() {
    let mut config = base_config();
    config.remove_draft_on_stage = Some(true);
    config.sanitize_frontmatter = Some(true);
    config.remove_wikilinks = Some(true);
    let source = "---\ndraft: true\nempty:\n---\n![[c.png]] and [[Page]]";
    let out = stage_content(source, &config, &vec![], "/src/p.md").unwrap();
    assert_eq!(out.file_name, "p.md");
    let staged = lazydraft::document::parse_document(&out.content).unwrap();
    assert_eq!(staged.frontmatter.len(), 1);
    assert_eq!(staged.frontmatter[0].0, "draft");
    assert!(matches!(staged.frontmatter[0].1, Yaml::Bool(false)));
    assert!(out.content.contains("![](images/c.png) and Page"));
}

#[test]
fn staging_unparsable_document_is_a_parse_error() {
    let config = base_config();
    let r = stage_content("---\n[broken\n---\nbody", &config, &vec![], "/src/a.md");
    assert_eq!(r.err().expect("staging must fail"), StageError::Parse);
}

#[test]
fn adjacent_embeds_are_each_rewritten() {
    let config = base_config();
    let out = change_image_formats("![[a.png]]![[b.png]]".to_string(), &config);
    assert_eq!(out, "![](images/a.png)![](images/b.png)");
}

#[test]
fn shortest_closing_wins_inside_an_embed() {
    let config = base_config();
    let out = change_image_formats("![[a]b]] tail]]".to_string(), &config);
    assert_eq!(out, "![](images/a]b) tail]]");
}

#[test]
fn tag_trimming_leaves_non_string_tags_alone() {
    let mut fm = vec![(
        "tags".to_string(),
        Yaml::List(vec![Yaml::Str("blog-a".to_string()), Yaml::Null]),
    )];
    strip_tags(&mut fm, "blog-");
    match &fm[0].1 {
        Yaml::List(xs) => {
            assert!(matches!(&xs[0], Yaml::Str(s) if s == "a"));
            assert!(matches!(xs[1], Yaml::Null));
        }
        _ => panic!("tags should stay a list"),
    }
}
