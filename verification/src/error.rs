//! Errors of one staging attempt.  Every failure is recoverable at the
//! call site; none of them may end the process that drives staging.
use vstd::prelude::*;

verus! {

/// A setting of the staging configuration that a step found missing or
/// empty.
#[derive(Clone, Copy, Debug, PartialEq, Eq, Structural)]
pub enum ConfigField {
    SourceDir,
    SourceAssetDir,
    TargetDir,
    TargetAssetDir,
    TargetAssetPrefix,
    TargetHeroImagePrefix,
    YamlAssetPrefix,
    TagPrefix,
}

/// Why a staging attempt failed before any file was written.
#[derive(Clone, Copy, Debug, PartialEq, Eq, Structural)]
pub enum StageError {
    /// The frontmatter block is not valid YAML, or not a mapping.
    Parse,
    /// A setting that an enabled step needs is unset or empty.
    MissingSetting(ConfigField),
    /// The transformed frontmatter could not be emitted as a block that
    /// the reader would split at the same delimiter.
    Serialize,
}

/// The configuration key under which a field is written, as the staging
/// profile spells it.
pub open spec fn spec_field_name(f: ConfigField) -> Seq<char> {
    match f {
        ConfigField::SourceDir => "source_dir"@,
        ConfigField::SourceAssetDir => "source_asset_dir"@,
        ConfigField::TargetDir => "target_dir"@,
        ConfigField::TargetAssetDir => "target_asset_dir"@,
        ConfigField::TargetAssetPrefix => "target_asset_prefix"@,
        ConfigField::TargetHeroImagePrefix => "target_hero_image_prefix"@,
        ConfigField::YamlAssetPrefix => "yaml_asset_prefix"@,
        ConfigField::TagPrefix => "tag_prefix"@,
    }
}

impl ConfigField {
    /// The configuration key under which this field is written.
    pub fn field_name(&self) -> (r: &'static str)
        ensures
            r@ == spec_field_name(*self),
    {
        match self {
            ConfigField::SourceDir => "source_dir",
            ConfigField::SourceAssetDir => "source_asset_dir",
            ConfigField::TargetDir => "target_dir",
            ConfigField::TargetAssetDir => "target_asset_dir",
            ConfigField::TargetAssetPrefix => "target_asset_prefix",
            ConfigField::TargetHeroImagePrefix => "target_hero_image_prefix",
            ConfigField::YamlAssetPrefix => "yaml_asset_prefix",
            ConfigField::TagPrefix => "tag_prefix",
        }
    }
}

} // verus!
