//! The frontmatter data model: an ordered key/value tree with YAML
//! semantics.  Scalars the pipeline never inspects (numbers, tagged
//! values, mappings with non-string keys) are carried through opaquely.
use vstd::prelude::*;

verus! {

/// Declares `serde_yaml::Value` so that opaque scalars can be carried
/// through a staged document untouched.
#[verifier::external_type_specification]
#[verifier::external_body]
pub struct ExValue(serde_yaml::Value);

use crate::yamlio::OpaqueYaml;

/// Mathematical model of one frontmatter value.
pub ghost enum YamlV {
    Null,
    Bool(bool),
    Str(Seq<char>),
    List(Seq<YamlV>),
    Dict(Seq<(Seq<char>, YamlV)>),
    Opaque(serde_yaml::Value),
}

/// One frontmatter value: either a scalar or string-keyed mapping the
/// pipeline understands, or an opaque value it passes through.
pub enum Yaml {
    Null,
    Bool(bool),
    Str(String),
    List(Vec<Yaml>),
    Dict(Vec<(String, Yaml)>),
    Opaque(OpaqueYaml),
}

pub open spec fn tree_view(t: Yaml) -> YamlV
    decreases t, 1int,
    via tree_view_decreases
{
    match t {
        Yaml::Null => YamlV::Null,
        Yaml::Bool(b) => YamlV::Bool(b),
        Yaml::Str(s) => YamlV::Str(s@),
        Yaml::List(xs) => YamlV::List(list_views(xs@)),
        Yaml::Dict(es) => YamlV::Dict(entry_views(es@)),
        Yaml::Opaque(o) => YamlV::Opaque(o@),
    }
}

pub open spec fn list_views(xs: Seq<Yaml>) -> Seq<YamlV>
    decreases xs, 0int,
{
    if xs.len() == 0 {
        Seq::empty()
    } else {
        seq![tree_view(xs[0])] + list_views(xs.drop_first())
    }
}

pub open spec fn entry_views(es: Seq<(String, Yaml)>) -> Seq<(Seq<char>, YamlV)>
    decreases es, 0int,
{
    if es.len() == 0 {
        Seq::empty()
    } else {
        seq![(es[0].0@, tree_view(es[0].1))] + entry_views(es.drop_first())
    }
}

#[via_fn]
proof fn tree_view_decreases(t: Yaml) {
    match t {
        Yaml::List(xs) => {
            assert(decreases_to!(t => xs));
            assert(decreases_to!(xs => xs@));
        }
        Yaml::Dict(es) => {
            assert(decreases_to!(t => es));
            assert(decreases_to!(es => es@));
        }
        _ => {}
    }
}

impl View for Yaml {
    type V = YamlV;

    open spec fn view(&self) -> YamlV {
        tree_view(*self)
    }
}

pub proof fn lemma_list_views(xs: Seq<Yaml>)
    ensures
        list_views(xs).len() == xs.len(),
        forall|i: int| 0 <= i < xs.len() ==> list_views(xs)[i] == tree_view(xs[i]),
    decreases xs.len(),
{
    if xs.len() > 0 {
        lemma_list_views(xs.drop_first());
    }
}

pub proof fn lemma_entry_views(es: Seq<(String, Yaml)>)
    ensures
        entry_views(es).len() == es.len(),
        forall|i: int| 0 <= i < es.len() ==> entry_views(es)[i] == (es[i].0@, tree_view(
            es[i].1,
        )),
    decreases es.len(),
{
    if es.len() > 0 {
        lemma_entry_views(es.drop_first());
    }
}

/// The keys of a dictionary, in order.
pub open spec fn keys_of(es: Seq<(Seq<char>, YamlV)>) -> Seq<Seq<char>> {
    es.map_values(|e: (Seq<char>, YamlV)| e.0)
}

/// A tree is well formed when every dictionary in it has distinct keys.
pub open spec fn wf_tree(t: YamlV) -> bool
    decreases t, 1int,
    via wf_tree_decreases
{
    match t {
        YamlV::List(xs) => wf_list_upto(xs, xs.len() as int),
        YamlV::Dict(es) => keys_of(es).no_duplicates() && wf_entries_upto(es, es.len() as int),
        _ => true,
    }
}

pub open spec fn wf_list_upto(xs: Seq<YamlV>, n: int) -> bool
    decreases xs, n,
    via wf_list_upto_decreases
{
    if n <= 0 || n > xs.len() {
        true
    } else {
        wf_tree(xs[n - 1]) && wf_list_upto(xs, n - 1)
    }
}

pub open spec fn wf_entries_upto(es: Seq<(Seq<char>, YamlV)>, n: int) -> bool
    decreases es, n,
    via wf_entries_upto_decreases
{
    if n <= 0 || n > es.len() {
        true
    } else {
        wf_tree(es[n - 1].1) && wf_entries_upto(es, n - 1)
    }
}

#[via_fn]
proof fn wf_tree_decreases(t: YamlV) {
    match t {
        YamlV::List(xs) => {
            assert(decreases_to!(t => xs));
        }
        YamlV::Dict(es) => {
            assert(decreases_to!(t => es));
        }
        _ => {}
    }
}

#[via_fn]
proof fn wf_list_upto_decreases(xs: Seq<YamlV>, n: int) {
    if 0 < n <= xs.len() {
        assert(decreases_to!(xs => xs[n - 1]));
    }
}

#[via_fn]
proof fn wf_entries_upto_decreases(es: Seq<(Seq<char>, YamlV)>, n: int) {
    if 0 < n <= es.len() {
        assert(decreases_to!(es => es[n - 1]));
        assert(decreases_to!(es[n - 1] => es[n - 1].1));
    }
}

/// A tree is fully modeled when it holds no opaque scalar, so the model
/// describes it completely.
pub open spec fn fully_modeled(t: YamlV) -> bool
    decreases t, 1int,
    via fully_modeled_decreases
{
    match t {
        YamlV::List(xs) => modeled_list_upto(xs, xs.len() as int),
        YamlV::Dict(es) => modeled_entries_upto(es, es.len() as int),
        YamlV::Opaque(_) => false,
        _ => true,
    }
}

pub open spec fn modeled_list_upto(xs: Seq<YamlV>, n: int) -> bool
    decreases xs, n,
    via modeled_list_upto_decreases
{
    if n <= 0 || n > xs.len() {
        true
    } else {
        fully_modeled(xs[n - 1]) && modeled_list_upto(xs, n - 1)
    }
}

pub open spec fn modeled_entries_upto(es: Seq<(Seq<char>, YamlV)>, n: int) -> bool
    decreases es, n,
    via modeled_entries_upto_decreases
{
    if n <= 0 || n > es.len() {
        true
    } else {
        fully_modeled(es[n - 1].1) && modeled_entries_upto(es, n - 1)
    }
}

#[via_fn]
proof fn fully_modeled_decreases(t: YamlV) {
    match t {
        YamlV::List(xs) => {
            assert(decreases_to!(t => xs));
        }
        YamlV::Dict(es) => {
            assert(decreases_to!(t => es));
        }
        _ => {}
    }
}

#[via_fn]
proof fn modeled_list_upto_decreases(xs: Seq<YamlV>, n: int) {
    if 0 < n <= xs.len() {
        assert(decreases_to!(xs => xs[n - 1]));
    }
}

#[via_fn]
proof fn modeled_entries_upto_decreases(es: Seq<(Seq<char>, YamlV)>, n: int) {
    if 0 < n <= es.len() {
        assert(decreases_to!(es => es[n - 1]));
        assert(decreases_to!(es[n - 1] => es[n - 1].1));
    }
}

pub proof fn lemma_wf_entries_upto(es: Seq<(Seq<char>, YamlV)>, n: int)
    requires
        n <= es.len(),
    ensures
        wf_entries_upto(es, n) <==> (forall|i: int| 0 <= i < n ==> wf_tree(#[trigger] es[i].1)),
    decreases n,
{
    if n > 0 {
        lemma_wf_entries_upto(es, n - 1);
    }
}

pub proof fn lemma_wf_list_upto(xs: Seq<YamlV>, n: int)
    requires
        n <= xs.len(),
    ensures
        wf_list_upto(xs, n) <==> (forall|i: int| 0 <= i < n ==> wf_tree(#[trigger] xs[i])),
    decreases n,
{
    if n > 0 {
        lemma_wf_list_upto(xs, n - 1);
    }
}

/// The container-nesting depth of a tree: how many sequence or mapping
/// levels stand above the deepest scalar.  Scalars and opaque values
/// count as zero; what nests inside an opaque value is not modeled, so
/// this measure under-counts there and is exact on fully modeled trees.
pub open spec fn tree_depth(t: YamlV) -> int
    decreases t, 1int,
    via tree_depth_decreases
{
    match t {
        YamlV::List(xs) => 1 + list_depth_upto(xs, xs.len() as int),
        YamlV::Dict(es) => 1 + entries_depth_upto(es, es.len() as int),
        _ => 0,
    }
}

pub open spec fn list_depth_upto(xs: Seq<YamlV>, n: int) -> int
    decreases xs, n,
    via list_depth_upto_decreases
{
    if n <= 0 || n > xs.len() {
        0
    } else {
        let d = tree_depth(xs[n - 1]);
        let rest = list_depth_upto(xs, n - 1);
        if d >= rest {
            d
        } else {
            rest
        }
    }
}

pub open spec fn entries_depth_upto(es: Seq<(Seq<char>, YamlV)>, n: int) -> int
    decreases es, n,
    via entries_depth_upto_decreases
{
    if n <= 0 || n > es.len() {
        0
    } else {
        let d = tree_depth(es[n - 1].1);
        let rest = entries_depth_upto(es, n - 1);
        if d >= rest {
            d
        } else {
            rest
        }
    }
}

#[via_fn]
proof fn tree_depth_decreases(t: YamlV) {
    match t {
        YamlV::List(xs) => {
            assert(decreases_to!(t => xs));
        }
        YamlV::Dict(es) => {
            assert(decreases_to!(t => es));
        }
        _ => {}
    }
}

#[via_fn]
proof fn list_depth_upto_decreases(xs: Seq<YamlV>, n: int) {
    if 0 < n <= xs.len() {
        assert(decreases_to!(xs => xs[n - 1]));
    }
}

#[via_fn]
proof fn entries_depth_upto_decreases(es: Seq<(Seq<char>, YamlV)>, n: int) {
    if 0 < n <= es.len() {
        assert(decreases_to!(es => es[n - 1]));
        assert(decreases_to!(es[n - 1] => es[n - 1].1));
    }
}

/// serde_yaml's recursion limit: its parser admits at most this many
/// nested sequence or mapping levels in one document.
pub open spec fn yaml_depth_limit() -> int {
    128
}

/// Well-formedness of a frontmatter mapping, seen as a tree.
pub open spec fn wf_dict(es: Seq<(Seq<char>, YamlV)>) -> bool {
    wf_tree(YamlV::Dict(es))
}

/// A frontmatter mapping with no opaque scalar anywhere in it.
pub open spec fn modeled_dict(es: Seq<(Seq<char>, YamlV)>) -> bool {
    fully_modeled(YamlV::Dict(es))
}


/// Index of the first entry with key `k` at or after `i`, or the length
/// when the key is absent.
pub open spec fn dict_find(es: Seq<(Seq<char>, YamlV)>, k: Seq<char>, i: int) -> int
    decreases es.len() - i,
{
    if i < 0 || i >= es.len() {
        es.len() as int
    } else if es[i].0 == k {
        i
    } else {
        dict_find(es, k, i + 1)
    }
}

pub proof fn lemma_dict_find(es: Seq<(Seq<char>, YamlV)>, k: Seq<char>, i: int)
    requires
        0 <= i <= es.len(),
    ensures
        i <= dict_find(es, k, i) <= es.len(),
        dict_find(es, k, i) < es.len() ==> es[dict_find(es, k, i)].0 == k,
        forall|j: int| i <= j < dict_find(es, k, i) ==> (#[trigger] es[j].0) != k,
    decreases es.len() - i,
{
    if i < es.len() && es[i].0 != k {
        lemma_dict_find(es, k, i + 1);
    }
}

/// The value stored under `k`: the first entry with that key.
pub open spec fn spec_dict_get(es: Seq<(Seq<char>, YamlV)>, k: Seq<char>) -> Option<YamlV> {
    let j = dict_find(es, k, 0);
    if j < es.len() {
        Some(es[j].1)
    } else {
        None
    }
}

/// Store `v` under `k`: replace the value of the first entry with that
/// key in place, or append a new entry at the end.
pub open spec fn spec_dict_set(
    es: Seq<(Seq<char>, YamlV)>,
    k: Seq<char>,
    v: YamlV,
) -> Seq<(Seq<char>, YamlV)> {
    let j = dict_find(es, k, 0);
    if j < es.len() {
        es.update(j, (k, v))
    } else {
        es.push((k, v))
    }
}

/// Storing a well-formed value keeps the mapping well formed.
pub proof fn lemma_dict_set_wf(es: Seq<(Seq<char>, YamlV)>, k: Seq<char>, v: YamlV)
    requires
        wf_dict(es),
        wf_tree(v),
    ensures
        wf_dict(spec_dict_set(es, k, v)),
{
    lemma_dict_find(es, k, 0);
    lemma_wf_entries_upto(es, es.len() as int);
    let j = dict_find(es, k, 0);
    if j < es.len() {
        let r = es.update(j, (k, v));
        assert(keys_of(r) =~= keys_of(es));
        lemma_wf_entries_upto(r, r.len() as int);
        assert(forall|i: int| 0 <= i < r.len() ==> wf_tree(#[trigger] r[i].1));
    } else {
        let r = es.push((k, v));
        assert(keys_of(r) =~= keys_of(es).push(k));
        assert(forall|i: int| 0 <= i < es.len() ==> (#[trigger] es[i].0) != k);
        assert(forall|i: int| 0 <= i < keys_of(es).len() ==> #[trigger] keys_of(es)[i] == es[i].0);
        assert(keys_of(r).no_duplicates());
        lemma_wf_entries_upto(r, r.len() as int);
        assert(forall|i: int| 0 <= i < r.len() ==> wf_tree(#[trigger] r[i].1));
    }
}

/// Look a key up in a frontmatter mapping.
pub fn dict_get<'a>(es: &'a Vec<(String, Yaml)>, k: &str) -> (r: Option<&'a Yaml>)
    ensures
        match r {
            Option::Some(t) => spec_dict_get(entry_views(es@), k@) == Some(t@),
            Option::None => spec_dict_get(entry_views(es@), k@) is None,
        },
{
    proof {
        lemma_entry_views(es@);
    }
    let ghost ev = entry_views(es@);
    let mut i: usize = 0;
    while i < es.len()
        invariant
            0 <= i <= es.len(),
            dict_find(ev, k@, 0) == dict_find(ev, k@, i as int),
        decreases es.len() - i,
    {
        if crate::strutil::str_eq(es[i].0.as_str(), k) {
            assert(ev[i as int].0 == k@);
            assert(dict_find(ev, k@, i as int) == i);
            return Some(&es[i].1);
        }
        assert(ev[i as int].0 != k@);
        i = i + 1;
    }
    assert(dict_find(ev, k@, es@.len() as int) == es@.len());
    None
}

/// Store a value under a key: the first entry with that key is replaced
/// in place, keeping its position; a new key is appended at the end.
pub fn dict_set(es: &mut Vec<(String, Yaml)>, k: String, v: Yaml)
    ensures
        entry_views(final(es)@) == spec_dict_set(entry_views(old(es)@), k@, v@),
{
    proof {
        lemma_entry_views(es@);
    }
    let ghost ev = entry_views(es@);
    let mut i: usize = 0;
    while i < es.len()
        invariant
            0 <= i <= es.len(),
            es@ == old(es)@,
            dict_find(ev, k@, 0) == dict_find(ev, k@, i as int),
        decreases es.len() - i,
    {
        if crate::strutil::str_eq(es[i].0.as_str(), k.as_str()) {
            assert(ev[i as int].0 == k@);
            assert(dict_find(ev, k@, i as int) == i);
            es.remove(i);
            es.insert(i, (k, v));
            proof {
                lemma_entry_views(es@);
                assert(es@ =~= old(es)@.update(i as int, (k, v)));
                assert(entry_views(es@) =~= ev.update(i as int, (k@, v@)));
            }
            return ;
        }
        assert(ev[i as int].0 != k@);
        i = i + 1;
    }
    assert(dict_find(ev, k@, es@.len() as int) == es@.len());
    es.push((k, v));
    proof {
        lemma_entry_views(es@);
        assert(entry_views(es@) =~= ev.push((k@, v@)));
    }
}


/// Pruning: drop every mapping entry whose value is null, recursively
/// through mappings and sequences.
pub open spec fn prune_tree(t: YamlV) -> YamlV
    decreases t, 1int,
    via prune_tree_decreases
{
    match t {
        YamlV::List(xs) => YamlV::List(prune_list(xs, xs.len() as int)),
        YamlV::Dict(es) => YamlV::Dict(prune_entries(es, es.len() as int)),
        _ => t,
    }
}

pub open spec fn prune_list(xs: Seq<YamlV>, n: int) -> Seq<YamlV>
    decreases xs, n,
    via prune_list_decreases
{
    if n <= 0 || n > xs.len() {
        Seq::empty()
    } else {
        prune_list(xs, n - 1).push(prune_tree(xs[n - 1]))
    }
}

pub open spec fn prune_entries(es: Seq<(Seq<char>, YamlV)>, n: int) -> Seq<(Seq<char>, YamlV)>
    decreases es, n,
    via prune_entries_decreases
{
    if n <= 0 || n > es.len() {
        Seq::empty()
    } else if es[n - 1].1 is Null {
        prune_entries(es, n - 1)
    } else {
        prune_entries(es, n - 1).push((es[n - 1].0, prune_tree(es[n - 1].1)))
    }
}

#[via_fn]
proof fn prune_tree_decreases(t: YamlV) {
    match t {
        YamlV::List(xs) => {
            assert(decreases_to!(t => xs));
        }
        YamlV::Dict(es) => {
            assert(decreases_to!(t => es));
        }
        _ => {}
    }
}

#[via_fn]
proof fn prune_list_decreases(xs: Seq<YamlV>, n: int) {
    if 0 < n <= xs.len() {
        assert(decreases_to!(xs => xs[n - 1]));
    }
}

#[via_fn]
proof fn prune_entries_decreases(es: Seq<(Seq<char>, YamlV)>, n: int) {
    if 0 < n <= es.len() {
        assert(decreases_to!(es => es[n - 1]));
        assert(decreases_to!(es[n - 1] => es[n - 1].1));
    }
}

/// Pruning a well-formed tree yields a well-formed tree.
pub proof fn lemma_prune_wf(t: YamlV)
    requires
        wf_tree(t),
    ensures
        wf_tree(prune_tree(t)),
    decreases t, 1int,
{
    match t {
        YamlV::List(xs) => {
            lemma_wf_list_upto(xs, xs.len() as int);
            assert(decreases_to!(t => xs));
            lemma_prune_wf_list(xs, xs.len() as int);
            let p = prune_list(xs, xs.len() as int);
            lemma_wf_list_upto(p, p.len() as int);
        }
        YamlV::Dict(es) => {
            lemma_wf_entries_upto(es, es.len() as int);
            assert(decreases_to!(t => es));
            assert(forall|i: int|
                0 <= i < es.len() ==> #[trigger] keys_of(es)[i] == es[i].0);
            assert forall|i: int, j: int|
                0 <= i < j < es.len() implies (#[trigger] es[i].0) != (#[trigger] es[j].0) by {
                assert(keys_of(es)[i] == es[i].0);
                assert(keys_of(es)[j] == es[j].0);
            }
            lemma_prune_wf_entries(es, es.len() as int);
            let p = prune_entries(es, es.len() as int);
            lemma_wf_entries_upto(p, p.len() as int);
            assert(forall|i: int|
                0 <= i < keys_of(p).len() ==> #[trigger] keys_of(p)[i] == p[i].0);
            assert(keys_of(p).no_duplicates());
        }
        _ => {}
    }
}

/// Pointwise shape of a pruned sequence.
pub proof fn lemma_prune_wf_list(xs: Seq<YamlV>, n: int)
    requires
        0 <= n <= xs.len(),
        forall|i: int| 0 <= i < n ==> wf_tree(#[trigger] xs[i]),
    ensures
        prune_list(xs, n).len() == n,
        forall|i: int| 0 <= i < n ==> #[trigger] prune_list(xs, n)[i] == prune_tree(xs[i]),
        forall|i: int| 0 <= i < n ==> wf_tree(#[trigger] prune_list(xs, n)[i]),
    decreases xs, n,
{
    if n > 0 {
        lemma_prune_wf_list(xs, n - 1);
        assert(decreases_to!(xs => xs[n - 1]));
        lemma_prune_wf(xs[n - 1]);
    }
}

/// Shape of a pruned mapping: the kept entries are exactly those whose
/// value is not null, in order, with their values pruned; distinct keys
/// stay distinct.
pub proof fn lemma_prune_wf_entries(es: Seq<(Seq<char>, YamlV)>, n: int)
    requires
        0 <= n <= es.len(),
        forall|i: int| 0 <= i < n ==> wf_tree(#[trigger] es[i].1),
        forall|i: int, j: int| 0 <= i < j < n ==> (#[trigger] es[i].0) != (#[trigger] es[j].0),
    ensures
        forall|i: int|
            0 <= i < prune_entries(es, n).len() ==> wf_tree(#[trigger] prune_entries(es, n)[i].1),
        forall|k: Seq<char>|
            keys_of(prune_entries(es, n)).contains(k) ==> exists|j: int|
                0 <= j < n && (#[trigger] es[j].0) == k,
        keys_of(prune_entries(es, n)).no_duplicates(),
    decreases es, n,
{
    if n > 0 {
        lemma_prune_wf_entries(es, n - 1);
        let prev = prune_entries(es, n - 1);
        let cur = prune_entries(es, n);
        assert(forall|i: int| 0 <= i < keys_of(prev).len() ==> #[trigger] keys_of(prev)[i] == prev[i].0);
        assert(forall|i: int| 0 <= i < keys_of(cur).len() ==> #[trigger] keys_of(cur)[i] == cur[i].0);
        if es[n - 1].1 is Null {
        } else {
            assert(decreases_to!(es => es[n - 1]));
            assert(decreases_to!(es[n - 1] => es[n - 1].1));
            lemma_prune_wf(es[n - 1].1);
            let e = (es[n - 1].0, prune_tree(es[n - 1].1));
            assert(cur == prev.push(e));
            assert(!keys_of(prev).contains(e.0)) by {
                if keys_of(prev).contains(e.0) {
                    let j = choose|j: int| 0 <= j < n - 1 && (#[trigger] es[j].0) == e.0;
                    assert(es[j].0 == es[n - 1].0);
                }
            }
            assert forall|k: Seq<char>| keys_of(cur).contains(k) implies exists|j: int|
                0 <= j < n && (#[trigger] es[j].0) == k by {
                let i = choose|i: int| 0 <= i < keys_of(cur).len() && keys_of(cur)[i] == k;
                if i < prev.len() {
                    assert(keys_of(prev).contains(k)) by {
                        assert(keys_of(prev)[i] == k);
                    }
                } else {
                    assert(es[n - 1].0 == k);
                }
            }
            assert(keys_of(cur).no_duplicates()) by {
                assert(forall|i: int|
                    0 <= i < prev.len() ==> #[trigger] keys_of(cur)[i] == keys_of(prev)[i]);
                assert(keys_of(cur)[prev.len() as int] == e.0);
                assert(forall|i: int|
                    0 <= i < prev.len() ==> #[trigger] keys_of(prev)[i] != e.0);
            }
        }
    }
}

/// Drop every mapping entry whose value is null, recursively through
/// mappings and sequences; scalars and opaque values pass through.
pub fn remove_empty_values(t: Yaml) -> (r: Yaml)
    ensures
        r@ == prune_tree(t@),
    decreases t,
{
    let ghost t0 = t;
    match t {
        Yaml::List(xs) => {
            let ghost v0 = xs;
            let ghost xsv = list_views(v0@);
            proof {
                lemma_list_views(v0@);
                assert(t0 == Yaml::List(v0));
            }
            let mut xs = xs;
            let mut out: Vec<Yaml> = Vec::new();
            let ghost n0 = v0@.len();
            let ghost mut i: int = 0;
            proof {
                assert(xs@ =~= v0@.subrange(0, n0 as int));
                assert(list_views(out@) =~~= prune_list(xsv, 0));
            }
            while xs.len() > 0
                invariant
                    0 <= i <= n0,
                    i + xs@.len() == n0,
                    xs@ == v0@.subrange(i, n0 as int),
                    list_views(out@) == prune_list(xsv, i),
                decreases xs@.len(),
            {
                let x = xs.remove(0);
                assert(x == v0@[i]);
                proof {
                    assert(decreases_to!(t0 => v0));
                    assert(decreases_to!(v0 => v0@));
                    assert(decreases_to!(v0@ => v0@[i]));
                }
                let y = remove_empty_values(x);
                let ghost out_prev = out@;
                out.push(y);
                proof {
                    lemma_list_views(out_prev);
                    lemma_list_views(out@);
                    assert(out@ =~= out_prev.push(y));
                    assert(list_views(out@) =~= list_views(out_prev).push(y@));
                    assert(xsv[i] == tree_view(v0@[i]));
                    assert(list_views(out@) =~= prune_list(xsv, i + 1));
                    assert(xs@ =~= v0@.subrange(i + 1, n0 as int));
                }
                proof {
                    i = i + 1;
                }
            }
            assert(list_views(out@) == prune_list(xsv, n0 as int));
            Yaml::List(out)
        }
        Yaml::Dict(es) => {
            let ghost v0 = es;
            let ghost esv = entry_views(v0@);
            proof {
                lemma_entry_views(v0@);
                assert(t0 == Yaml::Dict(v0));
            }
            let mut es = es;
            let mut out: Vec<(String, Yaml)> = Vec::new();
            let ghost n0 = v0@.len();
            let ghost mut i: int = 0;
            proof {
                assert(es@ =~= v0@.subrange(0, n0 as int));
                assert(entry_views(out@) =~~= prune_entries(esv, 0));
            }
            while es.len() > 0
                invariant
                    0 <= i <= n0,
                    i + es@.len() == n0,
                    es@ == v0@.subrange(i, n0 as int),
                    entry_views(out@) == prune_entries(esv, i),
                decreases es@.len(),
            {
                let e = es.remove(0);
                assert(e == v0@[i]);
                let (k, x) = e;
                match x {
                    Yaml::Null => {
                        assert(esv[i].1 is Null);
                        assert(entry_views(out@) =~~= prune_entries(esv, i + 1));
                    }
                    x2 => {
                        assert(!(esv[i].1 is Null));
                        proof {
                            assert(decreases_to!(t0 => v0));
                            assert(decreases_to!(v0 => v0@));
                            assert(decreases_to!(v0@ => v0@[i]));
                            assert(decreases_to!(v0@[i] => v0@[i].1));
                        }
                        let y = remove_empty_values(x2);
                        let ghost out_prev = out@;
                        out.push((k, y));
                        proof {
                            lemma_entry_views(out_prev);
                            lemma_entry_views(out@);
                            assert(out@ =~= out_prev.push(out@[out@.len() - 1]));
                            assert(entry_views(out@) =~= entry_views(out_prev).push(
                                (out@[out@.len() - 1].0@, y@),
                            ));
                            assert(esv[i] == (v0@[i].0@, tree_view(v0@[i].1)));
                            assert(entry_views(out@) =~= prune_entries(esv, i + 1));
                        }
                    }
                }
                proof {
                    assert(es@ =~= v0@.subrange(i + 1, n0 as int));
                }
                proof {
                    i = i + 1;
                }
            }
            assert(entry_views(out@) == prune_entries(esv, n0 as int));
            Yaml::Dict(out)
        }
        other => other,
    }
}

} // verus!
