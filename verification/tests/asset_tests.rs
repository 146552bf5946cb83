use lazydraft::assets::{basename, resolve_assets};
use lazydraft::config::Config;
use lazydraft::error::{ConfigField, StageError};
use lazydraft::yaml::Yaml;

fn config() -> Config {
    Config {
        source_dir: Some("/src".to_string()),
        source_asset_dir: Some("/src/assets".to_string()),
        target_dir: Some("/target".to_string()),
        target_asset_dir: Some("/target/assets".to_string()),
        target_asset_prefix: Some("images".to_string()),
        target_hero_image_prefix: None,
        yaml_asset_prefix: Some("assetPrefix".to_string()),
        sanitize_frontmatter: None,
        auto_add_cover_img: None,
        auto_add_hero_img: None,
        remove_draft_on_stage: None,
        add_date_prefix: None,
        remove_wikilinks: None,
        trim_tags: None,
        tag_prefix: None,
        use_mdx_format: None,
    }
}

fn fm_with_prefix(p: &str) -> Vec<(String, Yaml)> {
    vec![("assetPrefix".to_string(), Yaml::Str(p.to_string()))]
}

#[test]
fn matching_is_substring_based() {
    // `post1` matches its own assets, and also `post10-cover.png`:
    // substring containment is the documented matching rule, collisions
    // included.
    let files = vec![
        "/a/post1-cover.png".to_string(),
        "/a/post10-cover.png".to_string(),
        "/a/other.png".to_string(),
    ];
    let assets = resolve_assets(&fm_with_prefix("post1"), &config(), &files).unwrap();
    let got: Vec<&str> = assets.iter().map(|a| a.asset_path.as_str()).collect();
    assert_eq!(got, vec!["/a/post1-cover.png", "/a/post10-cover.png"]);
}

#[test]
fn matching_looks_at_the_file_name_only() {
    let files = vec!["/somewhere/post1/unrelated.png".to_string()];
    let assets = resolve_assets(&fm_with_prefix("post1"), &config(), &files).unwrap();
    assert_eq!(assets.len(), 0);
}

#[test]
fn empty_writing_prefix_gives_empty_list() {
    let files = vec!["/a/post1-cover.png".to_string()];
    let assets = resolve_assets(&fm_with_prefix(""), &config(), &files).unwrap();
    assert_eq!(assets.len(), 0);
    let assets2 = resolve_assets(&vec![], &config(), &files).unwrap();
    assert_eq!(assets2.len(), 0);
}

#[test]
fn unset_prefix_field_is_a_config_error() {
    let mut c = config();
    c.yaml_asset_prefix = None;
    let r = resolve_assets(&fm_with_prefix("post1"), &c, &vec![]);
    assert_eq!(
        r.err().expect("resolution must fail"),
        StageError::MissingSetting(ConfigField::YamlAssetPrefix)
    );
}

#[test]
fn unset_asset_root_is_a_config_error() {
    let mut c = config();
    c.source_asset_dir = Some(String::new());
    let r = resolve_assets(&fm_with_prefix("post1"), &c, &vec![]);
    assert_eq!(
        r.err().expect("resolution must fail"),
        StageError::MissingSetting(ConfigField::SourceAssetDir)
    );
}

#[test]
fn basename_takes_the_part_after_the_last_slash() {
    assert_eq!(basename("/a/b/c.png"), "c.png");
    assert_eq!(basename("plain.md"), "plain.md");
    assert_eq!(basename("/trailing/"), "");
}
