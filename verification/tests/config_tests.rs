use lazydraft::config::{
    expand_tilde, resolve_active_project, Config, ProjectConfig, ProjectSelectError,
};
use lazydraft::dashboard::{next_index, previous_index, project_stats_of, ViewMode};
use lazydraft::writing::Writing;

fn full_config() -> Config {
    Config {
        source_dir: Some("~/src".to_string()),
        source_asset_dir: Some("/sa".to_string()),
        target_dir: Some("/t".to_string()),
        target_asset_dir: Some("/ta".to_string()),
        target_asset_prefix: Some("images".to_string()),
        target_hero_image_prefix: None,
        yaml_asset_prefix: Some("assetPrefix".to_string()),
        sanitize_frontmatter: Some(true),
        auto_add_cover_img: Some(false),
        auto_add_hero_img: Some(false),
        remove_draft_on_stage: Some(true),
        add_date_prefix: Some(false),
        remove_wikilinks: Some(false),
        trim_tags: Some(false),
        tag_prefix: None,
        use_mdx_format: Some(false),
    }
}

#[test]
fn tilde_expansion() {
    assert_eq!(expand_tilde("~/notes", "/home/me"), "/home/me/notes");
    assert_eq!(expand_tilde("/abs/notes", "/home/me"), "/abs/notes");
    assert_eq!(expand_tilde("~", "/home/me"), "~");
}

#[test]
fn getters_expand_against_home() {
    let c = full_config();
    assert_eq!(c.get_source_dir("/home/me").as_deref(), Some("/home/me/src"));
    assert_eq!(c.get_target_dir("/home/me").as_deref(), Some("/t"));
    assert_eq!(c.get_source_asset_dir("/home/me").as_deref(), Some("/sa"));
    assert_eq!(c.get_target_asset_dir("/home/me").as_deref(), Some("/ta"));
}

#[test]
fn has_empty_fields_reports_the_first_missing_setting() {
    let mut c = full_config();
    assert!(c.has_empty_fields().is_none());
    c.target_dir = None;
    assert_eq!(c.has_empty_fields().as_deref(), Some("target_dir"));
    c.source_dir = Some(String::new());
    assert_eq!(c.has_empty_fields().as_deref(), Some("source_dir"));
}

#[test]
fn trim_tags_without_prefix_is_an_empty_field() {
    let mut c = full_config();
    c.trim_tags = Some(true);
    c.tag_prefix = None;
    assert_eq!(c.has_empty_fields().as_deref(), Some("tag_prefix"));
    c.tag_prefix = Some("blog-".to_string());
    assert!(c.has_empty_fields().is_none());
}

#[test]
fn new_project_starts_with_everything_off() {
    let p = ProjectConfig::new(
        "blog".to_string(),
        Some("site".to_string()),
        "2024-01-01T00:00:00Z".to_string(),
    );
    assert_eq!(p.name, "blog");
    assert_eq!(p.created_at.as_deref(), Some("2024-01-01T00:00:00Z"));
    assert_eq!(p.last_used.as_deref(), Some("2024-01-01T00:00:00Z"));
    assert_eq!(p.config.trim_tags, Some(false));
    assert!(p.config.source_dir.is_none());
}

#[test]
fn active_project_resolution() {
    let none: Vec<String> = vec![];
    assert_eq!(
        resolve_active_project(None, &none),
        Err(ProjectSelectError::NoProjects)
    );
    let one = vec!["only".to_string()];
    assert_eq!(resolve_active_project(None, &one), Ok(("only".to_string(), true)));
    let two = vec!["a".to_string(), "b".to_string()];
    assert_eq!(
        resolve_active_project(None, &two),
        Err(ProjectSelectError::MultipleProjects)
    );
    assert_eq!(
        resolve_active_project(Some("a".to_string()), &two),
        Ok(("a".to_string(), false))
    );
}

#[test]
fn dashboard_stats_and_navigation() {
    let ws = vec![
        Writing::new("a".to_string(), "a".to_string(), true, ""),
        Writing::new("b".to_string(), "b".to_string(), false, ""),
    ];
    let stats = project_stats_of("blog".to_string(), &ws, "1d ago".to_string(), true);
    assert_eq!(stats.draft_count, 1);
    assert_eq!(stats.total_files, 2);
    assert!(stats.is_active);
    assert_eq!(next_index(0, 3), 1);
    assert_eq!(next_index(2, 3), 0);
    assert_eq!(previous_index(0, 3), 2);
    assert_eq!(previous_index(2, 3), 1);
    assert!(ViewMode::Projects == ViewMode::Projects);
    assert!(ViewMode::Projects != ViewMode::Writings);
}
