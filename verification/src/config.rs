//! The staging configuration: an immutable record of the directories,
//! prefixes and toggles that one staging run works under, plus the
//! project records that the configuration store reads and writes.
use crate::error::ConfigField;
use crate::error::spec_field_name;
use crate::strutil::chars_to_string;
use crate::strutil::push_chars;
use crate::strutil::str_to_chars;
use vstd::prelude::*;

verus! {

/// All settings of one staging run.  Every field is optional; which of
/// them a run needs depends on the enabled steps.
#[derive(Clone)]
pub struct Config {
    pub source_dir: Option<String>,
    pub source_asset_dir: Option<String>,
    pub target_dir: Option<String>,
    pub target_asset_dir: Option<String>,
    pub target_asset_prefix: Option<String>,
    pub target_hero_image_prefix: Option<String>,
    pub yaml_asset_prefix: Option<String>,
    pub sanitize_frontmatter: Option<bool>,
    pub auto_add_cover_img: Option<bool>,
    pub auto_add_hero_img: Option<bool>,
    pub remove_draft_on_stage: Option<bool>,
    pub add_date_prefix: Option<bool>,
    pub remove_wikilinks: Option<bool>,
    pub trim_tags: Option<bool>,
    pub tag_prefix: Option<String>,
    pub use_mdx_format: Option<bool>,
}

/// Mathematical model of a configuration.
pub ghost struct ConfigV {
    pub source_dir: Option<Seq<char>>,
    pub source_asset_dir: Option<Seq<char>>,
    pub target_dir: Option<Seq<char>>,
    pub target_asset_dir: Option<Seq<char>>,
    pub target_asset_prefix: Option<Seq<char>>,
    pub target_hero_image_prefix: Option<Seq<char>>,
    pub yaml_asset_prefix: Option<Seq<char>>,
    pub sanitize_frontmatter: Option<bool>,
    pub auto_add_cover_img: Option<bool>,
    pub auto_add_hero_img: Option<bool>,
    pub remove_draft_on_stage: Option<bool>,
    pub add_date_prefix: Option<bool>,
    pub remove_wikilinks: Option<bool>,
    pub trim_tags: Option<bool>,
    pub tag_prefix: Option<Seq<char>>,
    pub use_mdx_format: Option<bool>,
}

/// The view of an optional string.
pub open spec fn opt_view(o: Option<String>) -> Option<Seq<char>> {
    match o {
        Option::Some(s) => Some(s@),
        Option::None => None,
    }
}

impl View for Config {
    type V = ConfigV;

    open spec fn view(&self) -> ConfigV {
        ConfigV {
            source_dir: opt_view(self.source_dir),
            source_asset_dir: opt_view(self.source_asset_dir),
            target_dir: opt_view(self.target_dir),
            target_asset_dir: opt_view(self.target_asset_dir),
            target_asset_prefix: opt_view(self.target_asset_prefix),
            target_hero_image_prefix: opt_view(self.target_hero_image_prefix),
            yaml_asset_prefix: opt_view(self.yaml_asset_prefix),
            sanitize_frontmatter: self.sanitize_frontmatter,
            auto_add_cover_img: self.auto_add_cover_img,
            auto_add_hero_img: self.auto_add_hero_img,
            remove_draft_on_stage: self.remove_draft_on_stage,
            add_date_prefix: self.add_date_prefix,
            remove_wikilinks: self.remove_wikilinks,
            trim_tags: self.trim_tags,
            tag_prefix: opt_view(self.tag_prefix),
            use_mdx_format: self.use_mdx_format,
        }
    }
}

/// An optional setting counts as unset when it is absent or empty.
pub open spec fn spec_unset(o: Option<Seq<char>>) -> bool {
    match o {
        Option::Some(s) => s.len() == 0,
        Option::None => true,
    }
}

/// A toggle counts as enabled only when it is present and true.
pub open spec fn spec_enabled(o: Option<bool>) -> bool {
    o == Some(true)
}

/// Whether an optional setting is absent or empty.
pub fn unset(o: &Option<String>) -> (r: bool)
    ensures
        r == spec_unset(opt_view(*o)),
{
    match o {
        Option::Some(s) => s.as_str().is_empty(),
        Option::None => true,
    }
}

/// Whether a toggle is on.
pub fn enabled(o: &Option<bool>) -> (r: bool)
    ensures
        r == spec_enabled(*o),
{
    match o {
        Option::Some(b) => *b,
        Option::None => false,
    }
}

/// Replace a leading `~/` with the home directory, handed in by the
/// caller; every other path is returned unchanged.
pub open spec fn spec_expand_tilde(p: Seq<char>, home: Seq<char>) -> Seq<char> {
    if p.len() >= 2 && p[0] == '~' && p[1] == '/' {
        home + p.subrange(1, p.len() as int)
    } else {
        p
    }
}

/// Expand a leading `~/` in a path against the given home directory.
pub fn expand_tilde(path: &str, home: &str) -> (r: String)
    ensures
        r@ == spec_expand_tilde(path@, home@),
{
    let p = str_to_chars(path);
    if p.len() >= 2 {
        let c0 = p[0];
        let c1 = p[1];
        if c0 == '~' && c1 == '/' {
            let mut out = str_to_chars(home);
            let mut i: usize = 1;
            while i < p.len()
                invariant
                    1 <= i <= p@.len(),
                    out@ == home@ + p@.subrange(1, i as int),
                decreases p@.len() - i,
            {
                out.push(p[i]);
                assert(out@ =~= home@ + p@.subrange(1, i + 1 as int));
                i = i + 1;
            }
            assert(out@ =~= home@ + p@.subrange(1, p@.len() as int));
            return chars_to_string(&out);
        }
    }
    chars_to_string(&p)
}

/// The expansion of an optional path setting.
pub open spec fn spec_expanded(o: Option<Seq<char>>, home: Seq<char>) -> Option<Seq<char>> {
    match o {
        Option::Some(p) => Some(spec_expand_tilde(p, home)),
        Option::None => None,
    }
}

fn expand_opt(o: &Option<String>, home: &str) -> (r: Option<String>)
    ensures
        opt_view(r) == spec_expanded(opt_view(*o), home@),
{
    match o {
        Option::Some(p) => Some(expand_tilde(p.as_str(), home)),
        Option::None => None,
    }
}

/// The first unset setting among those that every staging run needs, in
/// the order the configuration is checked, or the tag prefix when tag
/// trimming is enabled without one.
pub open spec fn spec_first_empty_field(c: ConfigV) -> Option<ConfigField> {
    if spec_unset(c.source_dir) {
        Some(ConfigField::SourceDir)
    } else if spec_unset(c.source_asset_dir) {
        Some(ConfigField::SourceAssetDir)
    } else if spec_unset(c.target_dir) {
        Some(ConfigField::TargetDir)
    } else if spec_unset(c.target_asset_dir) {
        Some(ConfigField::TargetAssetDir)
    } else if spec_unset(c.target_asset_prefix) {
        Some(ConfigField::TargetAssetPrefix)
    } else if spec_unset(c.yaml_asset_prefix) {
        Some(ConfigField::YamlAssetPrefix)
    } else if spec_enabled(c.trim_tags) && spec_unset(c.tag_prefix) {
        Some(ConfigField::TagPrefix)
    } else {
        None
    }
}

impl Config {
    /// The source directory with `~/` expanded against `home`.
    pub fn get_source_dir(&self, home: &str) -> (r: Option<String>)
        ensures
            opt_view(r) == spec_expanded(self@.source_dir, home@),
    {
        expand_opt(&self.source_dir, home)
    }

    /// The source asset directory with `~/` expanded against `home`.
    pub fn get_source_asset_dir(&self, home: &str) -> (r: Option<String>)
        ensures
            opt_view(r) == spec_expanded(self@.source_asset_dir, home@),
    {
        expand_opt(&self.source_asset_dir, home)
    }

    /// The target directory with `~/` expanded against `home`.
    pub fn get_target_dir(&self, home: &str) -> (r: Option<String>)
        ensures
            opt_view(r) == spec_expanded(self@.target_dir, home@),
    {
        expand_opt(&self.target_dir, home)
    }

    /// The target asset directory with `~/` expanded against `home`.
    pub fn get_target_asset_dir(&self, home: &str) -> (r: Option<String>)
        ensures
            opt_view(r) == spec_expanded(self@.target_asset_dir, home@),
    {
        expand_opt(&self.target_asset_dir, home)
    }

    /// The name of the first required setting that is unset or empty,
    /// or nothing when the configuration is complete.
    pub fn has_empty_fields(&self) -> (r: Option<String>)
        ensures
            match spec_first_empty_field(self@) {
                Option::Some(f) => r matches Some(s) && s@ == spec_field_name(f),
                Option::None => r is None,
            },
    {
        let f = if unset(&self.source_dir) {
            Some(ConfigField::SourceDir)
        } else if unset(&self.source_asset_dir) {
            Some(ConfigField::SourceAssetDir)
        } else if unset(&self.target_dir) {
            Some(ConfigField::TargetDir)
        } else if unset(&self.target_asset_dir) {
            Some(ConfigField::TargetAssetDir)
        } else if unset(&self.target_asset_prefix) {
            Some(ConfigField::TargetAssetPrefix)
        } else if unset(&self.yaml_asset_prefix) {
            Some(ConfigField::YamlAssetPrefix)
        } else if enabled(&self.trim_tags) && unset(&self.tag_prefix) {
            Some(ConfigField::TagPrefix)
        } else {
            None
        };
        match f {
            Option::Some(field) => {
                let mut name = String::new();
                name.append(field.field_name());
                Some(name)
            }
            Option::None => None,
        }
    }
}


/// Why no project could be chosen for a run.
#[derive(Clone, Copy, Debug, PartialEq, Eq, Structural)]
pub enum ProjectSelectError {
    /// No project exists yet; one must be created first.
    NoProjects,
    /// Several projects exist and none is marked active; one must be
    /// chosen explicitly.
    MultipleProjects,
}

/// Which project a run works under: the active one when set; otherwise
/// a sole existing project is chosen automatically (and should be made
/// active, which the `bool` signals); no project, or several with none
/// active, is an error.
pub fn resolve_active_project(active: Option<String>, names: &Vec<String>) -> (r: Result<
    (String, bool),
    ProjectSelectError,
>)
    ensures
        match active {
            Option::Some(n) => r matches Ok(p) && p.0@ == n@ && p.1 == false,
            Option::None => {
                if names@.len() == 0 {
                    r == Err::<(String, bool), _>(ProjectSelectError::NoProjects)
                } else if names@.len() == 1 {
                    r matches Ok(p) && p.0@ == names@[0]@ && p.1 == true
                } else {
                    r == Err::<(String, bool), _>(ProjectSelectError::MultipleProjects)
                }
            },
        },
{
    match active {
        Option::Some(n) => Ok((n, false)),
        Option::None => {
            if names.len() == 0 {
                Err(ProjectSelectError::NoProjects)
            } else if names.len() == 1 {
                Ok((names[0].clone(), true))
            } else {
                Err(ProjectSelectError::MultipleProjects)
            }
        }
    }
}

/// Whether a project may be deleted: every project but the active one.
pub fn can_delete_project(active: &Option<String>, name: &str) -> (r: bool)
    ensures
        r == match opt_view(*active) {
            Option::Some(a) => a != name@,
            Option::None => true,
        },
{
    match active {
        Option::Some(a) => !crate::strutil::str_eq(a.as_str(), name),
        Option::None => true,
    }
}

/// One named configuration profile as the store keeps it.
pub struct ProjectConfig {
    pub name: String,
    pub description: Option<String>,
    pub created_at: Option<String>,
    pub last_used: Option<String>,
    pub config: Config,
}

/// The configuration a fresh profile starts from: no path or prefix is
/// set, and every toggle is off.
pub open spec fn spec_default_config() -> ConfigV {
    ConfigV {
        source_dir: None,
        source_asset_dir: None,
        target_dir: None,
        target_asset_dir: None,
        target_asset_prefix: None,
        target_hero_image_prefix: None,
        yaml_asset_prefix: None,
        sanitize_frontmatter: Some(false),
        auto_add_cover_img: Some(false),
        auto_add_hero_img: Some(false),
        remove_draft_on_stage: Some(false),
        add_date_prefix: Some(false),
        remove_wikilinks: Some(false),
        trim_tags: Some(false),
        tag_prefix: None,
        use_mdx_format: Some(false),
    }
}

impl ProjectConfig {
    /// A fresh profile: the given name and description, both timestamps
    /// the moment of creation handed in by the caller, and the default
    /// configuration with every toggle off.
    pub fn new(name: String, description: Option<String>, now: String) -> (r: ProjectConfig)
        ensures
            r.name == name,
            r.description == description,
            opt_view(r.created_at) == Some(now@),
            opt_view(r.last_used) == Some(now@),
            r.config@ == spec_default_config(),
    {
        ProjectConfig {
            name,
            description,
            created_at: Some(now.clone()),
            last_used: Some(now),
            config: Config {
                source_dir: None,
                source_asset_dir: None,
                target_dir: None,
                target_asset_dir: None,
                target_asset_prefix: None,
                target_hero_image_prefix: None,
                yaml_asset_prefix: None,
                sanitize_frontmatter: Some(false),
                auto_add_cover_img: Some(false),
                auto_add_hero_img: Some(false),
                remove_draft_on_stage: Some(false),
                add_date_prefix: Some(false),
                remove_wikilinks: Some(false),
                trim_tags: Some(false),
                tag_prefix: None,
                use_mdx_format: Some(false),
            },
        }
    }

    /// Record a use of this profile at the given moment; every other
    /// field is unchanged.
    pub fn update_last_used(&mut self, now: String)
        ensures
            opt_view(final(self).last_used) == Some(now@),
            final(self).name == old(self).name,
            final(self).description == old(self).description,
            final(self).created_at == old(self).created_at,
            final(self).config == old(self).config,
    {
        self.last_used = Some(now);
    }
}

/// The record that names the active project.
pub struct ActiveProject {
    pub name: String,
}

/// The cover image record written into frontmatter.
pub struct Image {
    pub path: String,
    pub alt: String,
}

/// The hero image record written into frontmatter.
pub struct HeroImage {
    pub path: String,
    pub alt: String,
}

} // verus!
