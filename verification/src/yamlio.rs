//! The trusted boundary to serde_yaml.  Parsing and emission of YAML
//! text are performed by the outside crate; their results are named by
//! uninterpreted functions, and everything the pipeline does with the
//! parsed tree is verified code over `Yaml`.
use crate::yaml::Yaml;
use serde_yaml::Value;
use crate::yaml::YamlV;
use crate::yaml::fully_modeled;
use crate::yaml::tree_depth;
use crate::yaml::yaml_depth_limit;
use crate::yaml::wf_tree;
use vstd::prelude::*;

verus! {

/// A scalar the pipeline does not model — a number, a tagged value, or
/// a mapping with a non-string key — carried through a document
/// untouched.  Only the conversion below can create one, so every
/// opaque value in a tree came out of a parsed document as it stands.
pub struct OpaqueYaml {
    value: serde_yaml::Value,
}

impl View for OpaqueYaml {
    type V = serde_yaml::Value;

    closed spec fn view(&self) -> serde_yaml::Value {
        self.value
    }
}

/// The tree that a parsed YAML value holds.
pub uninterp spec fn yaml_tree_of(v: serde_yaml::Value) -> YamlV;

/// What parsing a YAML text yields: the tree of the parsed value, or
/// nothing when the text is not valid YAML.
pub uninterp spec fn yaml_parse_spec(s: Seq<char>) -> Option<YamlV>;

/// What emitting a tree as YAML text yields, or nothing when emission
/// fails.
pub uninterp spec fn yaml_dump_spec(t: YamlV) -> Option<Seq<char>>;

/// Relies on `serde_yaml::from_str::<Value>`: the result depends on the
/// text alone; a mapping that repeats a key is rejected rather than
/// merged, so every mapping of a parsed value has distinct keys; and the
/// parser enforces a recursion limit, so a parsed value nests at most
/// `yaml_depth_limit` sequence or mapping levels.
#[verifier::external_body]
pub fn yaml_from_str(s: &str) -> (r: Option<serde_yaml::Value>)
    ensures
        (r is Some) == (yaml_parse_spec(s@) is Some),
        r matches Some(v) ==> Some(yaml_tree_of(v)) == yaml_parse_spec(s@) && wf_tree(
            yaml_tree_of(v),
        ) && tree_depth(yaml_tree_of(v)) <= yaml_depth_limit(),
{
    serde_yaml::from_str::<Value>(s).ok()
}

/// Converts a parsed YAML value into the pipeline's own tree, variant by
/// variant.  Numbers, tagged values and mappings with a non-string key
/// are kept opaque.
#[verifier::external_body]
pub fn yaml_value_to_tree(v: serde_yaml::Value) -> (t: Yaml)
    ensures
        t@ == yaml_tree_of(v),
{
    match v {
        Value::Null => Yaml::Null,
        Value::Bool(b) => Yaml::Bool(b),
        Value::String(s) => Yaml::Str(s),
        Value::Sequence(xs) => Yaml::List(xs.into_iter().map(yaml_value_to_tree).collect()),
        Value::Mapping(m) if m.iter().all(|(k, _)| k.is_string()) => Yaml::Dict(
            m.into_iter().map(
                |(k, x)| (k.as_str().unwrap_or("").to_string(), yaml_value_to_tree(x)),
            ).collect(),
        ),
        other => Yaml::Opaque(OpaqueYaml { value: other }),
    }
}

/// Rebuilds a serde_yaml value from the pipeline's tree, variant by
/// variant; on a well-formed tree this inverts the conversion above, so
/// the rebuilt value holds the same tree.
#[verifier::external_body]
pub fn yaml_tree_to_value(t: Yaml) -> (v: serde_yaml::Value)
    ensures
        wf_tree(t@) ==> yaml_tree_of(v) == t@,
{
    match t {
        Yaml::Null => Value::Null,
        Yaml::Bool(b) => Value::Bool(b),
        Yaml::Str(s) => Value::String(s),
        Yaml::List(xs) => Value::Sequence(xs.into_iter().map(yaml_tree_to_value).collect()),
        Yaml::Dict(es) => Value::Mapping(
            es.into_iter().map(|(k, x)| (Value::String(k), yaml_tree_to_value(x))).collect(),
        ),
        Yaml::Opaque(o) => o.value,
    }
}

/// Relies on `serde_yaml::to_string`: emission is a deterministic
/// function of the value, and on a well-formed value built only of
/// nulls, booleans, strings, sequences and string-keyed mappings the
/// emitted text parses back to that same value.  The round trip is
/// claimed only up to the parser's recursion limit: the emitter has no
/// depth limit of its own, so the output of a deeper value would be
/// rejected when read back.
#[verifier::external_body]
pub fn yaml_to_string(v: &serde_yaml::Value) -> (r: Option<String>)
    ensures
        (r is Some) == (yaml_dump_spec(yaml_tree_of(*v)) is Some),
        r matches Some(s) ==> Some(s@) == yaml_dump_spec(yaml_tree_of(*v)),
        r matches Some(s) ==> (wf_tree(yaml_tree_of(*v)) && fully_modeled(yaml_tree_of(*v))
            && tree_depth(yaml_tree_of(*v)) <= yaml_depth_limit() ==> yaml_parse_spec(s@) == Some(
            yaml_tree_of(*v),
        )),
{
    serde_yaml::to_string(v).ok()
}

} // verus!
