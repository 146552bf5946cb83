//! The asset resolver: given the writing's declared prefix token, picks
//! the files under the source asset tree whose name contains it.
//!
//! Matching is substring containment, not a token match: prefix `post1`
//! matches `post1-cover.png` and also `post10-cover.png`.  That
//! collision risk is a documented property of the pipeline, kept for
//! compatibility; prefixes must be chosen to avoid it.
use crate::config::Config;
use crate::config::ConfigV;
use crate::config::spec_unset;
use crate::error::ConfigField;
use crate::error::StageError;
use crate::strutil::contains_chars;
use crate::strutil::spec_contains;
use crate::strutil::str_to_chars;
use crate::yaml::Yaml;
use crate::yaml::YamlV;
use crate::yaml::entry_views;
use crate::yaml::spec_dict_get;
use vstd::prelude::*;

verus! {

/// One discovered asset file.
pub struct Asset {
    pub asset_path: String,
}

impl View for Asset {
    type V = Seq<char>;

    open spec fn view(&self) -> Seq<char> {
        self.asset_path@
    }
}

/// The path views of a list of assets.
pub open spec fn asset_views(s: Seq<Asset>) -> Seq<Seq<char>> {
    s.map_values(|a: Asset| a@)
}

/// Index of the last occurrence of `c` at or before `i`, or `-1`.
pub open spec fn rfind_from(p: Seq<char>, c: char, i: int) -> int
    decreases i + 1,
{
    if i < 0 || i >= p.len() {
        -1
    } else if p[i] == c {
        i
    } else {
        rfind_from(p, c, i - 1)
    }
}

/// The file name of a path: everything after the last `/`.
pub open spec fn spec_basename(p: Seq<char>) -> Seq<char> {
    p.subrange(rfind_from(p, '/', p.len() - 1) + 1, p.len() as int)
}

/// The file name of a path.
pub fn basename(p: &str) -> (r: String)
    ensures
        r@ == spec_basename(p@),
{
    let v = str_to_chars(p);
    let mut j: usize = v.len();
    while j > 0
        invariant
            0 <= j <= v@.len(),
            rfind_from(v@, '/', v@.len() - 1) == rfind_from(v@, '/', j - 1),
        decreases j,
    {
        if v[j - 1] == '/' {
            assert(rfind_from(v@, '/', j - 1) == j - 1);
            let out = crate::strutil::chars_range(&v, j, v.len());
            assert(out@ =~= spec_basename(p@));
            return crate::strutil::chars_to_string(&out);
        }
        assert(rfind_from(v@, '/', j - 1) == rfind_from(v@, '/', j - 2));
        j = j - 1;
    }
    assert(rfind_from(v@, '/', v@.len() - 1) == -1);
    let out = crate::strutil::chars_range(&v, 0, v.len());
    assert(out@ =~= spec_basename(p@));
    crate::strutil::chars_to_string(&out)
}

/// Whether a path's file name contains the prefix token.
pub open spec fn spec_asset_matches(path: Seq<char>, prefix: Seq<char>) -> bool {
    spec_contains(spec_basename(path), prefix)
}

/// The writing's declared asset-prefix token: the string stored in the
/// frontmatter under the configured field name, or empty.
pub open spec fn spec_writing_prefix(
    fm: Seq<(Seq<char>, YamlV)>,
    field: Seq<char>,
) -> Seq<char> {
    match spec_dict_get(fm, field) {
        Option::Some(t) => match t {
            YamlV::Str(s) => s,
            _ => Seq::empty(),
        },
        Option::None => Seq::empty(),
    }
}

/// What resolving assets yields: the configured field name and asset
/// root must be set; a writing without a prefix value gets an empty
/// list; otherwise exactly the file paths whose name contains the
/// prefix as a substring, in their given order.
pub open spec fn spec_resolve_assets(
    fm: Seq<(Seq<char>, YamlV)>,
    c: ConfigV,
    files: Seq<Seq<char>>,
) -> Result<Seq<Seq<char>>, StageError> {
    if spec_unset(c.yaml_asset_prefix) {
        Err(StageError::MissingSetting(ConfigField::YamlAssetPrefix))
    } else if spec_unset(c.source_asset_dir) {
        Err(StageError::MissingSetting(ConfigField::SourceAssetDir))
    } else {
        let wp = spec_writing_prefix(fm, c.yaml_asset_prefix->Some_0);
        if wp.len() == 0 {
            Ok(Seq::empty())
        } else {
            Ok(files.filter(|f: Seq<char>| spec_asset_matches(f, wp)))
        }
    }
}

/// Resolve the assets of one writing against the candidate files found
/// under the source asset tree.
pub fn resolve_assets(fm: &Vec<(String, Yaml)>, config: &Config, files: &Vec<String>) -> (r:
    Result<Vec<Asset>, StageError>)
    ensures
        match r {
            Ok(assets) => spec_resolve_assets(
                entry_views(fm@),
                config@,
                files@.map_values(|f: String| f@),
            ) == Ok::<_, StageError>(asset_views(assets@)),
            Err(e) => spec_resolve_assets(
                entry_views(fm@),
                config@,
                files@.map_values(|f: String| f@),
            ) == Err::<Seq<Seq<char>>, _>(e),
        },
{
    broadcast use Seq::lemma_filter_push;

    let ghost filesv = files@.map_values(|f: String| f@);
    let field = match &config.yaml_asset_prefix {
        Option::Some(s) if !s.as_str().is_empty() => s,
        _ => {
            return Err(StageError::MissingSetting(ConfigField::YamlAssetPrefix));
        }
    };
    match &config.source_asset_dir {
        Option::Some(s) if !s.as_str().is_empty() => {}
        _ => {
            return Err(StageError::MissingSetting(ConfigField::SourceAssetDir));
        }
    }
    let prefix = match crate::yaml::dict_get(fm, field.as_str()) {
        Option::Some(t) => match t {
            Yaml::Str(s) => s.clone(),
            _ => String::new(),
        },
        Option::None => String::new(),
    };
    let ghost wp = spec_writing_prefix(entry_views(fm@), config@.yaml_asset_prefix->Some_0);
    assert(prefix@ == wp);
    let mut out: Vec<Asset> = Vec::new();
    if prefix.as_str().is_empty() {
        assert(asset_views(out@) =~~= Seq::<Seq<char>>::empty());
        return Ok(out);
    }
    let pc = str_to_chars(prefix.as_str());
    let mut i: usize = 0;
    assert(asset_views(out@) =~~= filesv.subrange(0, 0).filter(
        |f: Seq<char>| spec_asset_matches(f, wp),
    ));
    while i < files.len()
        invariant
            0 <= i <= files.len(),
            asset_views(out@) == filesv.subrange(0, i as int).filter(
                |f: Seq<char>| spec_asset_matches(f, wp),
            ),
        decreases files.len() - i,
    {
        let name = basename(files[i].as_str());
        let nc = str_to_chars(name.as_str());
        let ghost prev = asset_views(out@);
        if contains_chars(&nc, &pc) {
            out.push(Asset { asset_path: files[i].clone() });
            assert(asset_views(out@) =~~= prev.push(filesv[i as int]));
        }
        proof {
            let pred = |f: Seq<char>| spec_asset_matches(f, wp);
            let sub = filesv.subrange(0, i as int);
            assert(filesv.subrange(0, i + 1 as int) =~~= sub.push(filesv[i as int]));
            assert(sub.push(filesv[i as int]).filter(pred) == if pred(filesv[i as int]) {
                sub.filter(pred).push(filesv[i as int])
            } else {
                sub.filter(pred)
            });
            assert(asset_views(out@) =~~= filesv.subrange(0, i + 1 as int).filter(pred));
        }
        i = i + 1;
    }
    assert(filesv.subrange(0, files@.len() as int) =~~= filesv);
    Ok(out)
}

} // verus!
