//! The transform rules: the ordered, individually togglable mutations
//! applied to a parsed document when a writing is staged.
use crate::assets::Asset;
use crate::assets::asset_views;
use crate::assets::rfind_from;
use crate::assets::spec_basename;
use crate::config::Config;
use crate::config::ConfigV;
use crate::config::spec_enabled;
use crate::config::spec_unset;
use crate::error::ConfigField;
use crate::error::StageError;
use crate::strutil::chars_range;
use crate::strutil::chars_to_string;
use crate::strutil::push_chars;
use crate::strutil::spec_contains;
use crate::strutil::spec_starts_with_at;
use crate::strutil::starts_with_at;
use crate::strutil::str_eq;
use crate::strutil::str_to_chars;
use crate::yaml::Yaml;
use crate::yaml::YamlV;
use crate::yaml::dict_find;
use crate::yaml::entry_views;
use crate::yaml::lemma_entry_views;
use crate::yaml::lemma_list_views;
use crate::yaml::list_views;
use crate::yaml::spec_dict_get;
use crate::yaml::spec_dict_set;
use crate::yaml::tree_view;
use vstd::prelude::*;

verus! {

/// Strip a literal prefix from a string; a string that does not start
/// with the prefix is unchanged.
pub open spec fn spec_strip_prefix(s: Seq<char>, p: Seq<char>) -> Seq<char> {
    if spec_starts_with_at(s, p, 0) {
        s.subrange(p.len() as int, s.len() as int)
    } else {
        s
    }
}

/// Tag trimming touches only the string entries of the tag list.
pub open spec fn spec_strip_tag(t: YamlV, p: Seq<char>) -> YamlV {
    match t {
        YamlV::Str(s) => YamlV::Str(spec_strip_prefix(s, p)),
        other => other,
    }
}

/// Strip the configured prefix from every string in the `tags`
/// sequence; a document without a `tags` sequence is unchanged.
pub open spec fn spec_strip_tags(
    es: Seq<(Seq<char>, YamlV)>,
    p: Seq<char>,
) -> Seq<(Seq<char>, YamlV)> {
    match spec_dict_get(es, "tags"@) {
        Option::Some(t) => match t {
            YamlV::List(xs) => spec_dict_set(
                es,
                "tags"@,
                YamlV::List(xs.map_values(|x: YamlV| spec_strip_tag(x, p))),
            ),
            _ => es,
        },
        Option::None => es,
    }
}

fn strip_tag_list(xs: Vec<Yaml>, prefix: &Vec<char>) -> (r: Vec<Yaml>)
    ensures
        list_views(r@) == list_views(xs@).map_values(|x: YamlV| spec_strip_tag(x, prefix@)),
{
    let ghost xs0 = xs@;
    let ghost xsv = list_views(xs0);
    proof {
        lemma_list_views(xs0);
    }
    let mut xs = xs;
    let mut out: Vec<Yaml> = Vec::new();
    let ghost mut i: int = 0;
    proof {
        lemma_list_views(out@);
    }
    while xs.len() > 0
        invariant
            0 <= i,
            i + xs@.len() == xs0.len(),
            xs@ == xs0.subrange(i, xs0.len() as int),
            list_views(out@).len() == i,
            forall|j: int|
                0 <= j < i ==> #[trigger] list_views(out@)[j] == spec_strip_tag(xsv[j], prefix@),
        decreases xs@.len(),
    {
        let x = xs.remove(0);
        assert(x == xs0[i]);
        let ghost out_prev = out@;
        match x {
            Yaml::Str(s) => {
                let sc = str_to_chars(s.as_str());
                if starts_with_at(&sc, prefix, 0) {
                    let stripped = chars_range(&sc, prefix.len(), sc.len());
                    out.push(Yaml::Str(chars_to_string(&stripped)));
                } else {
                    out.push(Yaml::Str(s));
                }
            }
            other => {
                out.push(other);
            }
        }
        proof {
            lemma_list_views(out_prev);
            lemma_list_views(out@);
            assert(out@ =~= out_prev.push(out@[out@.len() - 1]));
            assert forall|j: int| 0 <= j < i implies #[trigger] list_views(out@)[j]
                == spec_strip_tag(xsv[j], prefix@) by {
                assert(list_views(out_prev)[j] == spec_strip_tag(xsv[j], prefix@));
                assert(out@[j] == out_prev[j]);
            }
            assert(list_views(out@)[i] == spec_strip_tag(xsv[i], prefix@));
            assert(xs@ =~= xs0.subrange(i + 1, xs0.len() as int));
            i = i + 1;
        }
    }
    proof {
        lemma_list_views(out@);
        assert(list_views(out@) =~~= xsv.map_values(|x: YamlV| spec_strip_tag(x, prefix@)));
    }
    out
}

/// Strip the configured literal prefix from every string in the `tags`
/// sequence of the frontmatter.
pub fn strip_tags(fm: &mut Vec<(String, Yaml)>, tag_prefix: &str)
    ensures
        entry_views(final(fm)@) == spec_strip_tags(entry_views(old(fm)@), tag_prefix@),
{
    proof {
        lemma_entry_views(fm@);
    }
    let ghost ev = entry_views(fm@);
    let pc = str_to_chars(tag_prefix);
    let mut i: usize = 0;
    while i < fm.len()
        invariant
            0 <= i <= fm.len(),
            fm@ == old(fm)@,
            dict_find(ev, "tags"@, 0) == dict_find(ev, "tags"@, i as int),
        decreases fm.len() - i,
    {
        if str_eq(fm[i].0.as_str(), "tags") {
            assert(ev[i as int].0 == "tags"@);
            assert(dict_find(ev, "tags"@, i as int) == i);
            let (k, v) = fm.remove(i);
            match v {
                Yaml::List(xs) => {
                    let ghost xsv = list_views(xs@);
                    let stripped = strip_tag_list(xs, &pc);
                    fm.insert(i, (k, Yaml::List(stripped)));
                    proof {
                        lemma_entry_views(fm@);
                        assert(fm@ =~= old(fm)@.update(
                            i as int,
                            (fm@[i as int].0, fm@[i as int].1),
                        ));
                        assert(entry_views(fm@) =~= ev.update(
                            i as int,
                            ("tags"@, YamlV::List(xsv.map_values(|x: YamlV| spec_strip_tag(x, tag_prefix@)))),
                        ));
                    }
                }
                other => {
                    fm.insert(i, (k, other));
                    proof {
                        lemma_entry_views(fm@);
                        assert(fm@ =~= old(fm)@);
                        assert(entry_views(fm@) =~= ev);
                    }
                }
            }
            return ;
        }
        assert(ev[i as int].0 != "tags"@);
        i = i + 1;
    }
    assert(dict_find(ev, "tags"@, fm@.len() as int) == fm@.len());
}

/// The stem of a file name: everything before the last `.`, unless the
/// only `.` opens the name.
pub open spec fn spec_stem(name: Seq<char>) -> Seq<char> {
    let d = rfind_from(name, '.', name.len() - 1);
    if d <= 0 {
        name
    } else {
        name.subrange(0, d)
    }
}

/// The stem of a file name.
pub fn file_stem(name: &Vec<char>) -> (r: Vec<char>)
    ensures
        r@ == spec_stem(name@),
{
    let mut j: usize = name.len();
    while j > 0
        invariant
            0 <= j <= name@.len(),
            rfind_from(name@, '.', name@.len() - 1) == rfind_from(name@, '.', j - 1),
        decreases j,
    {
        if name[j - 1] == '.' {
            assert(rfind_from(name@, '.', j - 1) == j - 1);
            if j - 1 == 0 {
                return chars_range(name, 0, name.len());
            }
            return chars_range(name, 0, j - 1);
        }
        assert(rfind_from(name@, '.', j - 1) == rfind_from(name@, '.', j - 2));
        j = j - 1;
    }
    assert(rfind_from(name@, '.', name@.len() - 1) == -1);
    chars_range(name, 0, name.len())
}

/// The `publishDate` string of the frontmatter, or empty.
pub open spec fn spec_publish_date(fm: Seq<(Seq<char>, YamlV)>) -> Seq<char> {
    match spec_dict_get(fm, "publishDate"@) {
        Option::Some(t) => match t {
            YamlV::Str(s) => s,
            _ => Seq::empty(),
        },
        Option::None => Seq::empty(),
    }
}

/// The staged file's name before the extension rule: the base name of
/// the source path, with `<publishDate>-` prepended when the date
/// prefix is enabled and the frontmatter has a publish date.
pub open spec fn spec_writing_name(
    fm: Seq<(Seq<char>, YamlV)>,
    c: ConfigV,
    path: Seq<char>,
) -> Seq<char> {
    let base = spec_basename(path);
    let pd = spec_publish_date(fm);
    if spec_enabled(c.add_date_prefix) && pd.len() > 0 {
        pd + seq!['-'] + base
    } else {
        base
    }
}

/// The staged file's final name: the writing name, with its extension
/// replaced by `.mdx` when the MDX rule is enabled.
pub open spec fn spec_output_name(
    fm: Seq<(Seq<char>, YamlV)>,
    c: ConfigV,
    path: Seq<char>,
) -> Seq<char> {
    let name = spec_writing_name(fm, c, path);
    if spec_enabled(c.use_mdx_format) {
        spec_stem(name) + ".mdx"@
    } else {
        name
    }
}

/// Compute the staged file's name from the (transformed) frontmatter,
/// the configuration, and the source path.
pub fn create_writing_name(fm: &Vec<(String, Yaml)>, config: &Config, path: &str) -> (r: String)
    ensures
        r@ == spec_writing_name(entry_views(fm@), config@, path@),
{
    let base = crate::assets::basename(path);
    let pd = match crate::yaml::dict_get(fm, "publishDate") {
        Option::Some(t) => match t {
            Yaml::Str(s) => s.clone(),
            _ => String::new(),
        },
        Option::None => String::new(),
    };
    assert(pd@ == spec_publish_date(entry_views(fm@)));
    if crate::config::enabled(&config.add_date_prefix) && !pd.as_str().is_empty() {
        let mut out = str_to_chars(pd.as_str());
        out.push('-');
        let bc = str_to_chars(base.as_str());
        push_chars(&mut out, &bc);
        assert(out@ =~= pd@ + seq!['-'] + base@);
        return chars_to_string(&out);
    }
    base
}

/// Compute the staged file's final name, extension rule included.
pub fn output_file_name(fm: &Vec<(String, Yaml)>, config: &Config, path: &str) -> (r: String)
    ensures
        r@ == spec_output_name(entry_views(fm@), config@, path@),
{
    let name = create_writing_name(fm, config, path);
    if crate::config::enabled(&config.use_mdx_format) {
        let nc = str_to_chars(name.as_str());
        let mut out = file_stem(&nc);
        let ext = str_to_chars(".mdx");
        push_chars(&mut out, &ext);
        assert(out@ =~= spec_stem(name@) + ".mdx"@);
        return chars_to_string(&out);
    }
    name
}


/// The three characters that open an embedded-asset link.
pub open spec fn open_embed() -> Seq<char> {
    seq!['!', '[', '[']
}

/// The two characters that open a cross-reference link.
pub open spec fn open_link() -> Seq<char> {
    seq!['[', '[']
}

/// The two characters that close either link form.
pub open spec fn close_link() -> Seq<char> {
    seq![']', ']']
}

/// The four characters that open the rewritten image link.
pub open spec fn embed_head() -> Seq<char> {
    seq!['!', '[', ']', '(']
}

/// Index of the first `]]` at or after `j` with no newline before it,
/// or `-1` when a newline or the end of the text comes first.  A link
/// never spans lines, and the shortest closing wins.
pub open spec fn find_close(s: Seq<char>, j: int) -> int
    decreases s.len() - j,
{
    if j < 0 || j >= s.len() {
        -1
    } else if spec_starts_with_at(s, close_link(), j) {
        j
    } else if s[j] == '\n' {
        -1
    } else {
        find_close(s, j + 1)
    }
}

pub proof fn lemma_find_close(s: Seq<char>, j: int)
    requires
        0 <= j,
    ensures
        find_close(s, j) == -1 || (j <= find_close(s, j) && find_close(s, j) + 2 <= s.len()
            && spec_starts_with_at(s, close_link(), find_close(s, j))),
    decreases s.len() - j,
{
    if j < s.len() && !spec_starts_with_at(s, close_link(), j) && s[j] != '\n' {
        lemma_find_close(s, j + 1);
    }
}

/// Rewriting of embedded-asset links, from position `i` on: every
/// `![[NAME]]` becomes `![](PREFIX/NAME)`; all other characters are
/// kept.  This rule is unconditional: published output must not hold
/// the source-only embed syntax.
pub open spec fn spec_rewrite_embeds(s: Seq<char>, pre: Seq<char>, i: int) -> Seq<char>
    decreases s.len() - i,
    via spec_rewrite_embeds_decreases
{
    if i < 0 || i >= s.len() {
        Seq::empty()
    } else if spec_starts_with_at(s, open_embed(), i) && find_close(s, i + 3) >= 0 {
        let j = find_close(s, i + 3);
        embed_head() + pre + seq!['/'] + s.subrange(i + 3, j) + seq![')'] + spec_rewrite_embeds(
            s,
            pre,
            j + 2,
        )
    } else {
        seq![s[i]] + spec_rewrite_embeds(s, pre, i + 1)
    }
}

#[via_fn]
proof fn spec_rewrite_embeds_decreases(s: Seq<char>, pre: Seq<char>, i: int) {
    if 0 <= i < s.len() && spec_starts_with_at(s, open_embed(), i) && find_close(s, i + 3) >= 0 {
        lemma_find_close(s, i + 3);
    }
}

/// Removal of cross-reference links, from position `i` on: every
/// `[[NAME]]` becomes the bare `NAME`; all other characters are kept.
pub open spec fn spec_strip_links(s: Seq<char>, i: int) -> Seq<char>
    decreases s.len() - i,
    via spec_strip_links_decreases
{
    if i < 0 || i >= s.len() {
        Seq::empty()
    } else if spec_starts_with_at(s, open_link(), i) && find_close(s, i + 2) >= 0 {
        let j = find_close(s, i + 2);
        s.subrange(i + 2, j) + spec_strip_links(s, j + 2)
    } else {
        seq![s[i]] + spec_strip_links(s, i + 1)
    }
}

#[via_fn]
proof fn spec_strip_links_decreases(s: Seq<char>, i: int) {
    if 0 <= i < s.len() && spec_starts_with_at(s, open_link(), i) && find_close(s, i + 2) >= 0 {
        lemma_find_close(s, i + 2);
    }
}

fn close_chars() -> (r: Vec<char>)
    ensures
        r@ == close_link(),
{
    let mut r: Vec<char> = Vec::new();
    r.push(']');
    r.push(']');
    assert(r@ =~= close_link());
    r
}

fn find_close_exec(v: &Vec<char>, start: usize) -> (r: Option<usize>)
    ensures
        match r {
            Option::Some(j) => find_close(v@, start as int) == j && j + 2 <= v@.len(),
            Option::None => find_close(v@, start as int) == -1,
        },
{
    let close = close_chars();
    let mut j: usize = start;
    while j < v.len()
        invariant
            start <= j,
            find_close(v@, start as int) == find_close(v@, j as int),
        decreases v@.len() - j,
    {
        if starts_with_at(v, &close, j) {
            assert(find_close(v@, j as int) == j);
            return Some(j);
        }
        if v[j] == '\n' {
            assert(find_close(v@, j as int) == -1);
            return None;
        }
        j = j + 1;
    }
    assert(find_close(v@, j as int) == -1);
    None
}

/// Rewrite every embedded-asset link `![[NAME]]` of the body into the
/// plain image link `![](PREFIX/NAME)` under the target asset prefix.
pub fn rewrite_embeds(v: &Vec<char>, pre: &Vec<char>) -> (r: Vec<char>)
    ensures
        r@ == spec_rewrite_embeds(v@, pre@, 0),
{
    let mut open_pat: Vec<char> = Vec::new();
    open_pat.push('!');
    open_pat.push('[');
    open_pat.push('[');
    assert(open_pat@ =~= open_embed());
    let mut out: Vec<char> = Vec::new();
    let mut i: usize = 0;
    while i < v.len()
        invariant
            0 <= i <= v@.len(),
            spec_rewrite_embeds(v@, pre@, 0) == out@ + spec_rewrite_embeds(v@, pre@, i as int),
            open_pat@ == open_embed(),
        decreases v@.len() - i,
    {
        let ghost out0 = out@;
        if starts_with_at(v, &open_pat, i) {
            match find_close_exec(v, i + 3) {
                Option::Some(j) => {
                    proof {
                        lemma_find_close(v@, i + 3);
                    }
                    out.push('!');
                    out.push('[');
                    out.push(']');
                    out.push('(');
                    push_chars(&mut out, pre);
                    out.push('/');
                    let inner = chars_range(v, i + 3, j);
                    push_chars(&mut out, &inner);
                    out.push(')');
                    proof {
                        assert(out@ =~= out0 + (embed_head() + pre@ + seq!['/'] + v@.subrange(
                            i + 3,
                            j as int,
                        ) + seq![')']));
                        assert(out@ + spec_rewrite_embeds(v@, pre@, j + 2) =~= out0
                            + spec_rewrite_embeds(v@, pre@, i as int));
                    }
                    i = j + 2;
                    continue ;
                }
                Option::None => {
                    out.push(v[i]);
                    proof {
                        assert(out@ =~= out0 + seq![v@[i as int]]);
                        assert(out@ + spec_rewrite_embeds(v@, pre@, i + 1) =~= out0
                            + spec_rewrite_embeds(v@, pre@, i as int));
                    }
                    i = i + 1;
                    continue ;
                }
            }
        }
        out.push(v[i]);
        proof {
            assert(out@ =~= out0 + seq![v@[i as int]]);
            assert(out@ + spec_rewrite_embeds(v@, pre@, i + 1) =~= out0 + spec_rewrite_embeds(
                v@,
                pre@,
                i as int,
            ));
        }
        i = i + 1;
    }
    assert(spec_rewrite_embeds(v@, pre@, v@.len() as int) =~= Seq::<char>::empty());
    assert(out@ =~= spec_rewrite_embeds(v@, pre@, 0));
    out
}

/// Rewrite every cross-reference link `[[NAME]]` of the body into the
/// bare text `NAME`.
pub fn strip_link_text(v: &Vec<char>) -> (r: Vec<char>)
    ensures
        r@ == spec_strip_links(v@, 0),
{
    let mut open_pat: Vec<char> = Vec::new();
    open_pat.push('[');
    open_pat.push('[');
    assert(open_pat@ =~= open_link());
    let mut out: Vec<char> = Vec::new();
    let mut i: usize = 0;
    while i < v.len()
        invariant
            0 <= i <= v@.len(),
            spec_strip_links(v@, 0) == out@ + spec_strip_links(v@, i as int),
            open_pat@ == open_link(),
        decreases v@.len() - i,
    {
        let ghost out0 = out@;
        if starts_with_at(v, &open_pat, i) {
            match find_close_exec(v, i + 2) {
                Option::Some(j) => {
                    proof {
                        lemma_find_close(v@, i + 2);
                    }
                    let inner = chars_range(v, i + 2, j);
                    push_chars(&mut out, &inner);
                    proof {
                        assert(out@ =~= out0 + v@.subrange(i + 2, j as int));
                        assert(out@ + spec_strip_links(v@, j + 2) =~= out0 + spec_strip_links(
                            v@,
                            i as int,
                        ));
                    }
                    i = j + 2;
                    continue ;
                }
                Option::None => {
                    out.push(v[i]);
                    proof {
                        assert(out@ =~= out0 + seq![v@[i as int]]);
                        assert(out@ + spec_strip_links(v@, i + 1) =~= out0 + spec_strip_links(
                            v@,
                            i as int,
                        ));
                    }
                    i = i + 1;
                    continue ;
                }
            }
        }
        out.push(v[i]);
        proof {
            assert(out@ =~= out0 + seq![v@[i as int]]);
            assert(out@ + spec_strip_links(v@, i + 1) =~= out0 + spec_strip_links(v@, i as int));
        }
        i = i + 1;
    }
    assert(spec_strip_links(v@, v@.len() as int) =~= Seq::<char>::empty());
    assert(out@ =~= spec_strip_links(v@, 0));
    out
}

/// The target asset prefix as text, or empty when unset.
pub open spec fn spec_prefix_or_empty(o: Option<Seq<char>>) -> Seq<char> {
    match o {
        Option::Some(s) => s,
        Option::None => Seq::empty(),
    }
}

/// Rewrite embedded-asset links of the body against the configured
/// target asset prefix.
pub fn change_image_formats(content: String, config: &Config) -> (r: String)
    ensures
        r@ == spec_rewrite_embeds(
            content@,
            spec_prefix_or_empty(config@.target_asset_prefix),
            0,
        ),
{
    let v = str_to_chars(content.as_str());
    let pre = match &config.target_asset_prefix {
        Option::Some(s) => str_to_chars(s.as_str()),
        Option::None => Vec::new(),
    };
    assert(pre@ == spec_prefix_or_empty(config@.target_asset_prefix));
    let out = rewrite_embeds(&v, &pre);
    chars_to_string(&out)
}

/// Rewrite plain cross-reference links of the body into bare text.
pub fn strip_wikilinks(content: String) -> (r: String)
    ensures
        r@ == spec_strip_links(content@, 0),
{
    let v = str_to_chars(content.as_str());
    let out = strip_link_text(&v);
    chars_to_string(&out)
}


/// Index of the first asset whose full path contains the token, or the
/// length when none does.
pub open spec fn first_match(assets: Seq<Seq<char>>, token: Seq<char>, i: int) -> int
    decreases assets.len() - i,
{
    if i < 0 || i >= assets.len() {
        assets.len() as int
    } else if spec_contains(assets[i], token) {
        i
    } else {
        first_match(assets, token, i + 1)
    }
}

/// The image record written into the frontmatter: a path under the
/// given prefix, and a fixed alternative text.
pub open spec fn spec_image_value(prefix: Seq<char>, name: Seq<char>, alt: Seq<char>) -> YamlV {
    YamlV::Dict(
        seq![
            ("path"@, YamlV::Str(prefix + seq!['/'] + name)),
            ("alt"@, YamlV::Str(alt)),
        ],
    )
}

/// Injection of an image field: when the writing declares an asset
/// prefix and some resolved asset's path contains `<prefix>-header`,
/// store under `field` a record pointing at that asset's file name
/// under the target prefix; otherwise leave the frontmatter unchanged.
pub open spec fn spec_inject_image(
    es: Seq<(Seq<char>, YamlV)>,
    assets: Seq<Seq<char>>,
    target_prefix: Seq<char>,
    field: Seq<char>,
    alt: Seq<char>,
) -> Seq<(Seq<char>, YamlV)> {
    let ap = crate::assets::spec_writing_prefix(es, "assetPrefix"@);
    if ap.len() == 0 {
        es
    } else {
        let token = ap + "-header"@;
        let j = first_match(assets, token, 0);
        if j < assets.len() {
            let name = spec_basename(assets[j]);
            spec_dict_set(es, field, spec_image_value(target_prefix, name, alt))
        } else {
            es
        }
    }
}

fn inject_image(
    fm: &mut Vec<(String, Yaml)>,
    target_prefix: &str,
    assets: &Vec<Asset>,
    field: &str,
    alt: &str,
)
    ensures
        entry_views(final(fm)@) == spec_inject_image(
            entry_views(old(fm)@),
            asset_views(assets@),
            target_prefix@,
            field@,
            alt@,
        ),
{
    let ghost ev = entry_views(fm@);
    let ap = match crate::yaml::dict_get(fm, "assetPrefix") {
        Option::Some(t) => match t {
            Yaml::Str(s) => s.clone(),
            _ => String::new(),
        },
        Option::None => String::new(),
    };
    assert(ap@ == crate::assets::spec_writing_prefix(ev, "assetPrefix"@));
    if ap.as_str().is_empty() {
        return ;
    }
    let mut token = str_to_chars(ap.as_str());
    let suffix = str_to_chars("-header");
    push_chars(&mut token, &suffix);
    assert(token@ == ap@ + "-header"@);
    let ghost av = asset_views(assets@);
    let mut i: usize = 0;
    while i < assets.len()
        invariant
            0 <= i <= assets.len(),
            fm@ == old(fm)@,
            token@ == ap@ + "-header"@,
            first_match(av, token@, 0) == first_match(av, token@, i as int),
        decreases assets.len() - i,
    {
        let pc = str_to_chars(assets[i].asset_path.as_str());
        if crate::strutil::contains_chars(&pc, &token) {
            assert(spec_contains(av[i as int], token@));
            assert(first_match(av, token@, i as int) == i);
            let name = crate::assets::basename(assets[i].asset_path.as_str());
            let mut path_chars = str_to_chars(target_prefix);
            path_chars.push('/');
            let nc = str_to_chars(name.as_str());
            push_chars(&mut path_chars, &nc);
            assert(path_chars@ =~= target_prefix@ + seq!['/'] + spec_basename(av[i as int]));
            let mut img: Vec<(String, Yaml)> = Vec::new();
            img.push((String::from_str("path"), Yaml::Str(chars_to_string(&path_chars))));
            img.push((String::from_str("alt"), Yaml::Str(String::from_str(alt))));
            proof {
                lemma_entry_views(img@);
                assert(entry_views(img@) =~= spec_image_value(
                    target_prefix@,
                    spec_basename(av[i as int]),
                    alt@,
                )->Dict_0);
            }
            crate::yaml::dict_set(fm, String::from_str(field), Yaml::Dict(img));
            return ;
        }
        assert(av[i as int] == assets@[i as int].asset_path@);
        assert(!spec_contains(av[i as int], token@));
        i = i + 1;
    }
    assert(first_match(av, token@, assets@.len() as int) == assets@.len());
}

/// Inject the cover-image field `image` when a header asset matches.
pub fn add_cover_image(fm: &mut Vec<(String, Yaml)>, target_prefix: &str, assets: &Vec<Asset>)
    ensures
        entry_views(final(fm)@) == spec_inject_image(
            entry_views(old(fm)@),
            asset_views(assets@),
            target_prefix@,
            "image"@,
            "Cover Image"@,
        ),
{
    inject_image(fm, target_prefix, assets, "image", "Cover Image");
}

/// Inject the hero-image field `heroImage` when a header asset matches.
pub fn add_hero_image(fm: &mut Vec<(String, Yaml)>, target_prefix: &str, assets: &Vec<Asset>)
    ensures
        entry_views(final(fm)@) == spec_inject_image(
            entry_views(old(fm)@),
            asset_views(assets@),
            target_prefix@,
            "heroImage"@,
            "Social Cover Image"@,
        ),
{
    inject_image(fm, target_prefix, assets, "heroImage", "Social Cover Image");
}


/// The first missing setting among those the enabled steps need, in
/// check order: the target directory and target asset prefix always,
/// the hero-image prefix when hero injection is on, the tag prefix when
/// tag trimming is on.
pub open spec fn spec_required_setting(c: ConfigV) -> Option<ConfigField> {
    if spec_unset(c.target_dir) {
        Some(ConfigField::TargetDir)
    } else if spec_unset(c.target_asset_prefix) {
        Some(ConfigField::TargetAssetPrefix)
    } else if spec_enabled(c.auto_add_hero_img) && spec_unset(c.target_hero_image_prefix) {
        Some(ConfigField::TargetHeroImagePrefix)
    } else if spec_enabled(c.trim_tags) && spec_unset(c.tag_prefix) {
        Some(ConfigField::TagPrefix)
    } else {
        None
    }
}

/// Pruning of a frontmatter mapping.
pub open spec fn spec_prune_dict(es: Seq<(Seq<char>, YamlV)>) -> Seq<(Seq<char>, YamlV)> {
    crate::yaml::prune_entries(es, es.len() as int)
}

/// The full ordered rule chain over the frontmatter: clear the draft
/// flag, prune null fields, inject the cover image, inject the hero
/// image, trim tags — each only when its toggle is enabled.
pub open spec fn spec_transform_frontmatter(
    fm: Seq<(Seq<char>, YamlV)>,
    c: ConfigV,
    assets: Seq<Seq<char>>,
) -> Seq<(Seq<char>, YamlV)> {
    let f1 = if spec_enabled(c.remove_draft_on_stage) {
        spec_dict_set(fm, "draft"@, YamlV::Bool(false))
    } else {
        fm
    };
    let f2 = if spec_enabled(c.sanitize_frontmatter) {
        spec_prune_dict(f1)
    } else {
        f1
    };
    let f3 = if spec_enabled(c.auto_add_cover_img) {
        spec_inject_image(
            f2,
            assets,
            spec_prefix_or_empty(c.target_asset_prefix),
            "image"@,
            "Cover Image"@,
        )
    } else {
        f2
    };
    let f4 = if spec_enabled(c.auto_add_hero_img) {
        spec_inject_image(
            f3,
            assets,
            spec_prefix_or_empty(c.target_hero_image_prefix),
            "heroImage"@,
            "Social Cover Image"@,
        )
    } else {
        f3
    };
    if spec_enabled(c.trim_tags) {
        spec_strip_tags(f4, spec_prefix_or_empty(c.tag_prefix))
    } else {
        f4
    }
}

/// The body after its rules: embedded-asset links rewritten always,
/// cross-reference links removed when enabled.
pub open spec fn spec_transform_body(body: Seq<char>, c: ConfigV) -> Seq<char> {
    let b1 = spec_rewrite_embeds(body, spec_prefix_or_empty(c.target_asset_prefix), 0);
    if spec_enabled(c.remove_wikilinks) {
        spec_strip_links(b1, 0)
    } else {
        b1
    }
}

/// The outcome of staging one writing, before anything touches a disk.
pub struct StagedOutput {
    /// The computed file name of the staged document.
    pub file_name: String,
    /// The file name joined under the configured target directory.
    pub target_path: String,
    /// The full staged document.
    pub content: String,
}

/// Mathematical model of a staged outcome.
pub ghost struct StagedV {
    pub file_name: Seq<char>,
    pub target_path: Seq<char>,
    pub content: Seq<char>,
}

impl View for StagedOutput {
    type V = StagedV;

    open spec fn view(&self) -> StagedV {
        StagedV {
            file_name: self.file_name@,
            target_path: self.target_path@,
            content: self.content@,
        }
    }
}

/// What staging one writing yields, for every source text, configuration
/// and resolved asset list: each error with exactly the condition that
/// raises it, or the staged file's name, target path and content.
pub open spec fn spec_stage_content(
    content: Seq<char>,
    c: ConfigV,
    assets: Seq<Seq<char>>,
    path: Seq<char>,
) -> Result<StagedV, StageError> {
    match spec_required_setting(c) {
        Option::Some(f) => Err(StageError::MissingSetting(f)),
        Option::None => match crate::document::spec_parse_document(content) {
            Option::None => Err(StageError::Parse),
            Option::Some(doc) => {
                let fm2 = spec_transform_frontmatter(doc.frontmatter, c, assets);
                let body2 = spec_transform_body(doc.body, c);
                let name = spec_output_name(fm2, c, path);
                match crate::document::spec_serialize_document(fm2, body2) {
                    Option::None => Err(StageError::Serialize),
                    Option::Some(out) => Ok(
                        StagedV {
                            file_name: name,
                            target_path: spec_prefix_or_empty(c.target_dir) + seq!['/'] + name,
                            content: out,
                        },
                    ),
                }
            }
        },
    }
}

/// Trimming tags keeps the frontmatter well formed.
proof fn lemma_strip_tags_wf(es: Seq<(Seq<char>, YamlV)>, p: Seq<char>)
    requires
        crate::yaml::wf_dict(es),
    ensures
        crate::yaml::wf_dict(spec_strip_tags(es, p)),
{
    crate::yaml::lemma_dict_find(es, "tags"@, 0);
    let j = dict_find(es, "tags"@, 0);
    if j < es.len() {
        match es[j].1 {
            YamlV::List(xs) => {
                crate::yaml::lemma_wf_entries_upto(es, es.len() as int);
                assert(crate::yaml::wf_tree(es[j].1));
                crate::yaml::lemma_wf_list_upto(xs, xs.len() as int);
                let mapped = xs.map_values(|x: YamlV| spec_strip_tag(x, p));
                assert(forall|i: int| 0 <= i < mapped.len() ==> crate::yaml::wf_tree(
                    #[trigger] mapped[i],
                )) by {
                    assert(forall|i: int|
                        0 <= i < mapped.len() ==> mapped[i] == spec_strip_tag(xs[i], p));
                }
                crate::yaml::lemma_wf_list_upto(mapped, mapped.len() as int);
                assert(crate::yaml::wf_tree(YamlV::List(mapped)));
                crate::yaml::lemma_dict_set_wf(es, "tags"@, YamlV::List(mapped));
            }
            _ => {}
        }
    }
}

/// Injecting an image field keeps the frontmatter well formed.
proof fn lemma_inject_wf(
    es: Seq<(Seq<char>, YamlV)>,
    assets: Seq<Seq<char>>,
    target_prefix: Seq<char>,
    field: Seq<char>,
    alt: Seq<char>,
)
    requires
        crate::yaml::wf_dict(es),
    ensures
        crate::yaml::wf_dict(spec_inject_image(es, assets, target_prefix, field, alt)),
{
    let ap = crate::assets::spec_writing_prefix(es, "assetPrefix"@);
    if ap.len() != 0 {
        let token = ap + "-header"@;
        let j = first_match(assets, token, 0);
        if j < assets.len() {
            let v = spec_image_value(target_prefix, spec_basename(assets[j]), alt);
            assert(crate::yaml::wf_tree(v)) by {
                reveal_strlit("path");
                reveal_strlit("alt");
                let es2 = v->Dict_0;
                assert(crate::yaml::keys_of(es2).len() == 2);
                assert(crate::yaml::keys_of(es2)[0] == "path"@);
                assert(crate::yaml::keys_of(es2)[1] == "alt"@);
                assert("path"@.len() == 4 && "alt"@.len() == 3);
                assert(crate::yaml::keys_of(es2).no_duplicates());
                crate::yaml::lemma_wf_entries_upto(es2, 2);
            }
            crate::yaml::lemma_dict_set_wf(es, field, v);
        }
    }
}

/// Stage one writing: check the settings the enabled rules need, parse
/// the document, run the full rule chain, compute the output name and
/// target path, and serialize.  The result is a function of the source
/// text, the configuration and the resolved assets alone, so staging an
/// unchanged writing twice produces byte-identical output.
pub fn stage_content(content: &str, config: &Config, assets: &Vec<Asset>, source_path: &str) -> (r:
    Result<StagedOutput, StageError>)
    ensures
        match r {
            Ok(out) => spec_stage_content(
                content@,
                config@,
                asset_views(assets@),
                source_path@,
            ) == Ok::<_, StageError>(out@),
            Err(e) => spec_stage_content(
                content@,
                config@,
                asset_views(assets@),
                source_path@,
            ) == Err::<StagedV, _>(e),
        },
{
    if crate::config::unset(&config.target_dir) {
        return Err(StageError::MissingSetting(ConfigField::TargetDir));
    }
    if crate::config::unset(&config.target_asset_prefix) {
        return Err(StageError::MissingSetting(ConfigField::TargetAssetPrefix));
    }
    if crate::config::enabled(&config.auto_add_hero_img) && crate::config::unset(
        &config.target_hero_image_prefix,
    ) {
        return Err(StageError::MissingSetting(ConfigField::TargetHeroImagePrefix));
    }
    if crate::config::enabled(&config.trim_tags) && crate::config::unset(&config.tag_prefix) {
        return Err(StageError::MissingSetting(ConfigField::TagPrefix));
    }
    let doc = match crate::document::parse_document(content) {
        Ok(d) => d,
        Err(e) => {
            return Err(e);
        }
    };
    let crate::document::Document { mut frontmatter, body } = doc;
    let ghost fm0 = entry_views(frontmatter@);
    let ghost cv = config@;
    let ghost av = asset_views(assets@);
    if crate::config::enabled(&config.remove_draft_on_stage) {
        proof {
            crate::yaml::lemma_dict_set_wf(entry_views(frontmatter@), "draft"@, YamlV::Bool(false));
        }
        crate::yaml::dict_set(&mut frontmatter, String::from_str("draft"), Yaml::Bool(false));
    }
    let ghost f1 = entry_views(frontmatter@);
    assert(f1 == if spec_enabled(cv.remove_draft_on_stage) {
        spec_dict_set(fm0, "draft"@, YamlV::Bool(false))
    } else {
        fm0
    });
    if crate::config::enabled(&config.sanitize_frontmatter) {
        proof {
            crate::yaml::lemma_prune_wf(YamlV::Dict(entry_views(frontmatter@)));
        }
        let pruned = crate::yaml::remove_empty_values(Yaml::Dict(frontmatter));
        match pruned {
            Yaml::Dict(es) => {
                frontmatter = es;
            }
            other => {
                proof {
                    assert(false);
                }
                frontmatter = Vec::new();
            }
        }
    }
    let ghost f2 = entry_views(frontmatter@);
    assert(f2 == if spec_enabled(cv.sanitize_frontmatter) {
        spec_prune_dict(f1)
    } else {
        f1
    });
    assert(crate::yaml::wf_dict(f2));
    if crate::config::enabled(&config.auto_add_cover_img) {
        proof {
            lemma_inject_wf(
                f2,
                av,
                spec_prefix_or_empty(cv.target_asset_prefix),
                "image"@,
                "Cover Image"@,
            );
        }
        let pre = match &config.target_asset_prefix {
            Option::Some(s) => s.clone(),
            Option::None => String::new(),
        };
        add_cover_image(&mut frontmatter, pre.as_str(), assets);
    }
    let ghost f3 = entry_views(frontmatter@);
    if crate::config::enabled(&config.auto_add_hero_img) {
        proof {
            lemma_inject_wf(
                f3,
                av,
                spec_prefix_or_empty(cv.target_hero_image_prefix),
                "heroImage"@,
                "Social Cover Image"@,
            );
        }
        let pre = match &config.target_hero_image_prefix {
            Option::Some(s) => s.clone(),
            Option::None => String::new(),
        };
        add_hero_image(&mut frontmatter, pre.as_str(), assets);
    }
    let ghost f4 = entry_views(frontmatter@);
    if crate::config::enabled(&config.trim_tags) {
        proof {
            lemma_strip_tags_wf(f4, spec_prefix_or_empty(cv.tag_prefix));
        }
        let pre = match &config.tag_prefix {
            Option::Some(s) => s.clone(),
            Option::None => String::new(),
        };
        strip_tags(&mut frontmatter, pre.as_str());
    }
    let ghost f5 = entry_views(frontmatter@);
    assert(f5 == spec_transform_frontmatter(fm0, cv, av));
    assert(crate::yaml::wf_dict(f5));
    let b1 = change_image_formats(body, config);
    let body2 = if crate::config::enabled(&config.remove_wikilinks) {
        strip_wikilinks(b1)
    } else {
        b1
    };
    let name = output_file_name(&frontmatter, config, source_path);
    let mut path_chars = match &config.target_dir {
        Option::Some(s) => str_to_chars(s.as_str()),
        Option::None => Vec::new(),
    };
    path_chars.push('/');
    let nc = str_to_chars(name.as_str());
    push_chars(&mut path_chars, &nc);
    assert(path_chars@ =~= spec_prefix_or_empty(cv.target_dir) + seq!['/'] + name@);
    let target_path = chars_to_string(&path_chars);
    match crate::document::serialize_document(
        crate::document::Document { frontmatter, body: body2 },
    ) {
        Ok(content2) => Ok(
            StagedOutput { file_name: name, target_path, content: content2 },
        ),
        Err(e) => Err(e),
    }
}

/// Staging is deterministic: with the source text, the configuration
/// and the resolved asset list fixed, two runs yield the same outcome,
/// so staging twice in a row writes byte-identical target files.
pub proof fn lemma_staging_idempotent(
    content: Seq<char>,
    c: ConfigV,
    assets: Seq<Seq<char>>,
    path: Seq<char>,
    r1: Result<StagedV, StageError>,
    r2: Result<StagedV, StageError>,
)
    requires
        r1 == spec_stage_content(content, c, assets, path),
        r2 == spec_stage_content(content, c, assets, path),
    ensures
        r1 == r2,
{
}

} // verus!
