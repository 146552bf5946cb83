//! The document model: a markdown file is an optional frontmatter block
//! delimited by `---` lines, followed by a body.  Splitting into lines,
//! locating the delimiters and reassembling the staged file are all
//! verified; only the YAML text inside the block goes through serde_yaml.
use crate::error::StageError;
use crate::strutil::chars_to_string;
use crate::strutil::push_chars;
use crate::strutil::str_to_chars;
use crate::yaml::Yaml;
use crate::yaml::YamlV;
use crate::yaml::entry_views;
use crate::yaml::wf_entries_upto;
use crate::yaml::wf_tree;
use crate::yamlio::yaml_dump_spec;
use crate::yamlio::yaml_from_str;
use crate::yamlio::yaml_tree_to_value;
use crate::yamlio::yaml_parse_spec;
use crate::yamlio::yaml_value_to_tree;
use vstd::prelude::*;

verus! {

/// The characters of one frontmatter delimiter line.
pub open spec fn dashes() -> Seq<char> {
    seq!['-', '-', '-']
}

/// A line opens or closes a frontmatter block when it is exactly `---`.
pub open spec fn spec_is_dashes(l: Seq<char>) -> bool {
    l == dashes()
}

/// Split a text at every newline; the result always has at least one
/// segment, and keeps empty segments, so joining is an exact inverse.
pub open spec fn split_lines(s: Seq<char>) -> Seq<Seq<char>>
    decreases s.len(),
{
    if s.len() == 0 {
        seq![Seq::<char>::empty()]
    } else if s[0] == '\n' {
        seq![Seq::<char>::empty()] + split_lines(s.drop_first())
    } else {
        let rest = split_lines(s.drop_first());
        seq![seq![s[0]] + rest[0]] + rest.drop_first()
    }
}

/// Join segments with a newline between each pair.
pub open spec fn join_lines(ls: Seq<Seq<char>>) -> Seq<char>
    decreases ls.len(),
{
    if ls.len() == 0 {
        Seq::empty()
    } else if ls.len() == 1 {
        ls[0]
    } else {
        ls[0] + seq!['\n'] + join_lines(ls.drop_first())
    }
}

pub proof fn lemma_split_lines_len(s: Seq<char>)
    ensures
        split_lines(s).len() >= 1,
    decreases s.len(),
{
    if s.len() > 0 {
        lemma_split_lines_len(s.drop_first());
    }
}

/// Joining the split of a text gives the text back.
pub proof fn lemma_join_split(s: Seq<char>)
    ensures
        join_lines(split_lines(s)) == s,
    decreases s.len(),
{
    lemma_split_lines_len(s);
    if s.len() == 0 {
        assert(join_lines(split_lines(s)) =~= s);
    } else {
        lemma_join_split(s.drop_first());
        lemma_split_lines_len(s.drop_first());
        if s[0] == '\n' {
            let rest = split_lines(s.drop_first());
            assert(split_lines(s) == seq![Seq::<char>::empty()] + rest);
            assert((seq![Seq::<char>::empty()] + rest).drop_first() =~= rest);
            assert(join_lines(split_lines(s)) =~= s);
        } else {
            let rest = split_lines(s.drop_first());
            let head = seq![seq![s[0]] + rest[0]];
            assert(split_lines(s) == head + rest.drop_first());
            if rest.len() == 1 {
                assert(split_lines(s).len() == 1);
                assert(join_lines(split_lines(s)) == seq![s[0]] + rest[0]);
                assert(join_lines(rest) == rest[0]);
                assert(rest[0] == s.drop_first());
                assert(s =~= seq![s[0]] + s.drop_first());
                assert(join_lines(split_lines(s)) =~= s);
            } else {
                assert((head + rest.drop_first()).drop_first() =~~= rest.drop_first());
                assert(join_lines(split_lines(s)) == (seq![s[0]] + rest[0]) + seq!['\n']
                    + join_lines(rest.drop_first()));
                assert(join_lines(rest) == rest[0] + seq!['\n'] + join_lines(rest.drop_first()));
                assert(s.drop_first() == join_lines(rest));
                assert(s =~= seq![s[0]] + s.drop_first());
                assert(join_lines(split_lines(s)) =~= s);
            }
        }
    }
}

/// Splitting distributes over an explicit newline between two texts.
pub proof fn lemma_split_concat(a: Seq<char>, b: Seq<char>)
    ensures
        split_lines(a + seq!['\n'] + b) == split_lines(a) + split_lines(b),
    decreases a.len(),
{
    lemma_split_lines_len(a);
    lemma_split_lines_len(b);
    if a.len() == 0 {
        assert(a + seq!['\n'] + b =~= seq!['\n'] + b);
        assert((seq!['\n'] + b)[0] == '\n');
        assert((seq!['\n'] + b).drop_first() =~= b);
        assert(split_lines(a) =~~= seq![Seq::<char>::empty()]);
        assert(split_lines(a + seq!['\n'] + b) =~~= split_lines(a) + split_lines(b));
    } else {
        lemma_split_concat(a.drop_first(), b);
        let s = a + seq!['\n'] + b;
        assert(s[0] == a[0]);
        assert(s.drop_first() =~= a.drop_first() + seq!['\n'] + b);
        if a[0] == '\n' {
            assert(split_lines(s) == seq![Seq::<char>::empty()] + split_lines(s.drop_first()));
            assert(split_lines(s) =~~= split_lines(a) + split_lines(b));
        } else {
            let rest = split_lines(s.drop_first());
            let arest = split_lines(a.drop_first());
            assert(rest == arest + split_lines(b));
            assert(rest[0] == arest[0]);
            assert(rest.drop_first() =~~= arest.drop_first() + split_lines(b));
            assert(split_lines(s) == seq![seq![a[0]] + rest[0]] + rest.drop_first());
            assert(split_lines(a) == seq![seq![a[0]] + arest[0]] + arest.drop_first());
            assert(split_lines(s) =~~= split_lines(a) + split_lines(b));
        }
    }
}

/// How one appended character extends a split.
pub proof fn lemma_split_push(s: Seq<char>, c: char)
    ensures
        c == '\n' ==> split_lines(s.push(c)) == split_lines(s).push(Seq::<char>::empty()),
        c != '\n' ==> split_lines(s.push(c)) == split_lines(s).update(
            split_lines(s).len() - 1,
            split_lines(s).last().push(c),
        ),
    decreases s.len(),
{
    lemma_split_lines_len(s);
    if s.len() == 0 {
        assert(s.push(c).len() == 1);
        assert(s.push(c)[0] == c);
        assert(s.push(c).drop_first() =~= Seq::<char>::empty());
        assert(split_lines(s.push(c).drop_first()) =~~= seq![Seq::<char>::empty()]);
        if c == '\n' {
            assert(split_lines(s.push(c)) == seq![Seq::<char>::empty()] + split_lines(
                s.push(c).drop_first(),
            ));
            assert(split_lines(s.push(c)) =~~= split_lines(s).push(Seq::<char>::empty()));
        } else {
            assert(split_lines(s.push(c)) == seq![seq![c] + split_lines(s.push(c).drop_first())[0]]
                + split_lines(s.push(c).drop_first()).drop_first());
            assert(split_lines(s.push(c)) =~~= split_lines(s).update(
                split_lines(s).len() - 1,
                split_lines(s).last().push(c),
            ));
        }
    } else {
        lemma_split_push(s.drop_first(), c);
        lemma_split_lines_len(s.drop_first());
        let t = s.push(c);
        assert(t[0] == s[0]);
        assert(t.drop_first() =~= s.drop_first().push(c));
        let rest = split_lines(s.drop_first());
        let restp = split_lines(s.drop_first().push(c));
        if c == '\n' {
            if s[0] == '\n' {
                assert(split_lines(t) == seq![Seq::<char>::empty()] + restp);
                assert(split_lines(t) =~~= split_lines(s).push(Seq::<char>::empty()));
            } else {
                assert(restp == rest.push(Seq::<char>::empty()));
                assert(restp[0] == rest[0]);
                assert(restp.drop_first() =~~= rest.drop_first().push(Seq::<char>::empty()));
                assert(split_lines(t) == seq![seq![s[0]] + restp[0]] + restp.drop_first());
                assert(split_lines(t) =~~= split_lines(s).push(Seq::<char>::empty()));
            }
        } else {
            if s[0] == '\n' {
                assert(split_lines(t) == seq![Seq::<char>::empty()] + restp);
                assert(split_lines(s) == seq![Seq::<char>::empty()] + rest);
                assert(split_lines(s).last() == rest.last());
                assert(split_lines(t) =~~= split_lines(s).update(
                    split_lines(s).len() - 1,
                    split_lines(s).last().push(c),
                ));
            } else {
                assert(restp == rest.update(rest.len() - 1, rest.last().push(c)));
                if rest.len() == 1 {
                    assert(restp[0] == rest[0].push(c));
                    assert(restp.drop_first() =~~= rest.drop_first());
                    assert(split_lines(t) == seq![seq![s[0]] + restp[0]] + restp.drop_first());
                    assert(split_lines(s).len() == 1);
                    assert(split_lines(t) =~~= split_lines(s).update(
                        split_lines(s).len() - 1,
                        split_lines(s).last().push(c),
                    ));
                } else {
                    assert(restp[0] == rest[0]);
                    assert(restp.drop_first() =~~= rest.drop_first().update(
                        rest.drop_first().len() - 1,
                        rest.drop_first().last().push(c),
                    ));
                    assert(split_lines(t) == seq![seq![s[0]] + restp[0]] + restp.drop_first());
                    assert(split_lines(s).last() == rest.last());
                    assert(split_lines(t) =~~= split_lines(s).update(
                        split_lines(s).len() - 1,
                        split_lines(s).last().push(c),
                    ));
                }
            }
        }
    }
}

/// The element views of a vector of lines.
pub open spec fn views_of(ls: Seq<Vec<char>>) -> Seq<Seq<char>> {
    ls.map_values(|l: Vec<char>| l@)
}

/// Split a text into its lines.
pub fn split_lines_exec(v: &Vec<char>) -> (r: Vec<Vec<char>>)
    ensures
        views_of(r@) == split_lines(v@),
{
    let mut done: Vec<Vec<char>> = Vec::new();
    let mut cur: Vec<char> = Vec::new();
    let mut i: usize = 0;
    proof {
        assert(v@.subrange(0, 0) =~= Seq::<char>::empty());
        assert(views_of(done@).push(cur@) =~~= split_lines(v@.subrange(0, 0)));
    }
    while i < v.len()
        invariant
            i <= v.len(),
            views_of(done@).push(cur@) == split_lines(v@.subrange(0, i as int)),
        decreases v.len() - i,
    {
        proof {
            lemma_split_push(v@.subrange(0, i as int), v@[i as int]);
            assert(v@.subrange(0, i + 1 as int) =~= v@.subrange(0, i as int).push(v@[i as int]));
        }
        if v[i] == '\n' {
            done.push(cur);
            cur = Vec::new();
            assert(views_of(done@).push(cur@) =~~= split_lines(v@.subrange(0, i as int)).push(
                Seq::<char>::empty(),
            ));
        } else {
            let ghost prev = split_lines(v@.subrange(0, i as int));
            cur.push(v[i]);
            assert(views_of(done@).push(cur@) =~~= prev.update(prev.len() - 1, prev.last().push(
                v@[i as int],
            )));
        }
        i = i + 1;
    }
    assert(v@.subrange(0, v@.len() as int) =~= v@);
    done.push(cur);
    assert(views_of(done@) =~~= split_lines(v@));
    done
}

/// Join lines `from .. to` with newlines.
pub fn join_lines_exec(ls: &Vec<Vec<char>>, from: usize, to: usize) -> (r: Vec<char>)
    requires
        from <= to <= ls@.len(),
    ensures
        r@ == join_lines(views_of(ls@).subrange(from as int, to as int)),
{
    let mut out: Vec<char> = Vec::new();
    if from >= to {
        assert(views_of(ls@).subrange(from as int, to as int) =~~= Seq::<Seq<char>>::empty());
        return out;
    }
    push_chars(&mut out, &ls[from]);
    let mut i: usize = from + 1;
    proof {
        assert(views_of(ls@).subrange(from as int, from + 1 as int) =~~= seq![ls@[from as int]@]);
        lemma_join_append(views_of(ls@), from as int, from + 1 as int);
        assert(out@ =~= join_lines(views_of(ls@).subrange(from as int, from + 1 as int)));
    }
    while i < to
        invariant
            from < i <= to <= ls@.len(),
            out@ == join_lines(views_of(ls@).subrange(from as int, i as int)),
        decreases to - i,
    {
        out.push('\n');
        push_chars(&mut out, &ls[i]);
        proof {
            lemma_join_append(views_of(ls@), from as int, i + 1 as int);
            assert(out@ =~= join_lines(views_of(ls@).subrange(from as int, i + 1 as int)));
        }
        i = i + 1;
    }
    out
}

/// Joining one more line appends a newline and that line.
pub proof fn lemma_join_append(ls: Seq<Seq<char>>, from: int, to: int)
    requires
        0 <= from < to <= ls.len(),
    ensures
        to == from + 1 ==> join_lines(ls.subrange(from, to)) == ls[from],
        to > from + 1 ==> join_lines(ls.subrange(from, to)) == join_lines(
            ls.subrange(from, to - 1),
        ) + seq!['\n'] + ls[to - 1],
    decreases to - from,
{
    if to == from + 1 {
        assert(ls.subrange(from, to) =~= seq![ls[from]]);
    } else {
        lemma_join_append(ls, from + 1, to);
        assert(ls.subrange(from, to).drop_first() =~~= ls.subrange(from + 1, to));
        assert(ls.subrange(from, to - 1).drop_first() =~~= ls.subrange(from + 1, to - 1));
        assert(ls.subrange(from, to)[0] == ls[from]);
        if to == from + 2 {
            assert(join_lines(ls.subrange(from, to)) == ls[from] + seq!['\n'] + ls[to - 1]);
            assert(ls.subrange(from, to - 1) =~~= seq![ls[from]]);
        }
    }
}


/// A text whose characters include no newline splits into itself alone.
pub proof fn lemma_split_no_newline(s: Seq<char>)
    requires
        forall|i: int| 0 <= i < s.len() ==> s[i] != '\n',
    ensures
        split_lines(s) == seq![s],
    decreases s.len(),
{
    if s.len() == 0 {
        assert(split_lines(s) =~~= seq![s]);
    } else {
        lemma_split_no_newline(s.drop_first());
        let rest = split_lines(s.drop_first());
        assert(rest == seq![s.drop_first()]);
        assert(rest.drop_first() =~~= Seq::<Seq<char>>::empty());
        assert(seq![s[0]] + rest[0] =~= s);
        assert(split_lines(s) =~~= seq![s]);
    }
}

/// Index of the first closing delimiter at or after `i`, or the length
/// when no later line is exactly `---`.
pub open spec fn first_closing(ls: Seq<Seq<char>>, i: int) -> int
    decreases ls.len() - i,
{
    if i < 0 || i >= ls.len() {
        ls.len() as int
    } else if spec_is_dashes(ls[i]) {
        i
    } else {
        first_closing(ls, i + 1)
    }
}

/// When no line in `[i, k)` is exactly `---` and line `k` is (or `k` is
/// the end), the first closing delimiter at or after `i` is `k`.
pub proof fn lemma_first_closing_finds(ls: Seq<Seq<char>>, i: int, k: int)
    requires
        0 <= i <= k <= ls.len(),
        forall|j: int| i <= j < k ==> !spec_is_dashes(#[trigger] ls[j]),
        k < ls.len() ==> spec_is_dashes(ls[k]),
    ensures
        first_closing(ls, i) == k,
    decreases k - i,
{
    if i < k {
        lemma_first_closing_finds(ls, i + 1, k);
    }
}

/// A parsed document: the frontmatter mapping and the body text.
pub struct Document {
    pub frontmatter: Vec<(String, Yaml)>,
    pub body: String,
}

/// Mathematical model of a parsed document.
pub ghost struct DocV {
    pub frontmatter: Seq<(Seq<char>, YamlV)>,
    pub body: Seq<char>,
}

impl View for Document {
    type V = DocV;

    open spec fn view(&self) -> DocV {
        DocV { frontmatter: entry_views(self.frontmatter@), body: self.body@ }
    }
}

/// What parsing a markdown text yields.  A document opens with a line
/// exactly `---`; its frontmatter is the YAML mapping on the lines up to
/// the next line exactly `---`; the body is every line from that
/// delimiter on, kept verbatim.  Without an opening delimiter the whole
/// text is the body.  `None` stands for a rejected document: frontmatter
/// text that is not valid YAML — or valid YAML that is not a mapping
/// and not null.  The second case is deliberately stricter than
/// rejecting invalid syntax alone: the document model is a key/value
/// mapping, and a scalar or sequence in its place has no field to read
/// or rewrite, so it is refused here rather than failing mid-stage.
pub open spec fn spec_parse_document(c: Seq<char>) -> Option<DocV> {
    let ls = split_lines(c);
    if ls[0] != dashes() {
        Some(DocV { frontmatter: Seq::empty(), body: c })
    } else {
        let k = first_closing(ls, 1);
        let yaml_text = join_lines(ls.subrange(1, k));
        let body = join_lines(ls.subrange(k, ls.len() as int));
        if yaml_text.len() == 0 {
            Some(DocV { frontmatter: Seq::empty(), body })
        } else {
            match yaml_parse_spec(yaml_text) {
                Option::None => Option::<DocV>::None,
                Option::Some(t) => match t {
                    YamlV::Null => Some(DocV { frontmatter: Seq::empty(), body }),
                    YamlV::Dict(es) => Some(DocV { frontmatter: es, body }),
                    _ => Option::<DocV>::None,
                },
            }
        }
    }
}

fn dash_chars() -> (r: Vec<char>)
    ensures
        r@ == dashes(),
{
    let mut r: Vec<char> = Vec::new();
    r.push('-');
    r.push('-');
    r.push('-');
    assert(r@ =~= dashes());
    r
}

/// Parse a markdown text into frontmatter and body.  A parsed
/// frontmatter mapping has distinct keys and nests within the reader's
/// recursion limit.
pub fn parse_document(content: &str) -> (r: Result<Document, StageError>)
    ensures
        r matches Ok(d) ==> Some(d@) == spec_parse_document(content@) && crate::yaml::wf_dict(
            d@.frontmatter,
        ) && crate::yaml::tree_depth(YamlV::Dict(d@.frontmatter)) <= crate::yaml::yaml_depth_limit(),
        r matches Err(e) ==> e == StageError::Parse && spec_parse_document(content@) is None,
{
    let chars = str_to_chars(content);
    let lines = split_lines_exec(&chars);
    proof {
        lemma_split_lines_len(chars@);
        assert(views_of(lines@).len() == lines@.len());
    }
    let dash = dash_chars();
    let ghost ls = split_lines(content@);
    if !crate::strutil::chars_eq(&lines[0], &dash) {
        assert(ls[0] != dashes());
        let body = chars_to_string(&chars);
        let frontmatter: Vec<(String, Yaml)> = Vec::new();
        assert(entry_views(frontmatter@) =~~= Seq::<(Seq<char>, YamlV)>::empty());
        proof {
            crate::yaml::lemma_wf_entries_upto(Seq::<(Seq<char>, YamlV)>::empty(), 0);
            assert(crate::yaml::tree_depth(YamlV::Dict(Seq::empty())) == 1);
        }
        return Ok(Document { frontmatter, body });
    }
    assert(ls[0] == dashes());
    let mut k: usize = 1;
    while k < lines.len() && !crate::strutil::chars_eq(&lines[k], &dash)
        invariant
            1 <= k <= lines.len(),
            views_of(lines@) == ls,
            dash@ == dashes(),
            forall|j: int| 1 <= j < k ==> !spec_is_dashes(#[trigger] ls[j]),
        decreases lines.len() - k,
    {
        k = k + 1;
    }
    proof {
        lemma_first_closing_finds(ls, 1, k as int);
    }
    let yaml_chars = join_lines_exec(&lines, 1, k);
    let body_chars = join_lines_exec(&lines, k, lines.len());
    let body = chars_to_string(&body_chars);
    if yaml_chars.len() == 0 {
        let frontmatter: Vec<(String, Yaml)> = Vec::new();
        assert(entry_views(frontmatter@) =~~= Seq::<(Seq<char>, YamlV)>::empty());
        proof {
            crate::yaml::lemma_wf_entries_upto(Seq::<(Seq<char>, YamlV)>::empty(), 0);
            assert(crate::yaml::tree_depth(YamlV::Dict(Seq::empty())) == 1);
        }
        return Ok(Document { frontmatter, body });
    }
    let yaml_text = chars_to_string(&yaml_chars);
    match yaml_from_str(yaml_text.as_str()) {
        Option::None => Err(StageError::Parse),
        Option::Some(v) => {
            let t = yaml_value_to_tree(v);
            match t {
                Yaml::Null => {
                    let frontmatter: Vec<(String, Yaml)> = Vec::new();
                    assert(entry_views(frontmatter@) =~~= Seq::<(Seq<char>, YamlV)>::empty());
                    proof {
                        crate::yaml::lemma_wf_entries_upto(Seq::<(Seq<char>, YamlV)>::empty(), 0);
                        assert(crate::yaml::tree_depth(YamlV::Dict(Seq::empty())) == 1);
                    }
                    Ok(Document { frontmatter, body })
                }
                Yaml::Dict(es) => {
                    assert(YamlV::Dict(entry_views(es@)) == yaml_parse_spec(yaml_text@)->Some_0);
                    Ok(Document { frontmatter: es, body })
                }
                _ => Err(StageError::Parse),
            }
        }
    }
}


/// A body whose first line is exactly `---`, i.e. one that carries the
/// closing delimiter of the frontmatter block, as every body read out of
/// a delimited document does.
pub open spec fn body_reopens(b: Seq<char>) -> bool {
    spec_is_dashes(split_lines(b)[0])
}

/// What serializing a document yields: an opening `---` line, the
/// emitted YAML of the frontmatter mapping, one newline, then the body
/// verbatim.  Emission is rejected when the emitted YAML is empty or one
/// of its lines is exactly `---`, which the reader would take for the
/// closing delimiter.
pub open spec fn spec_serialize_document(
    fm: Seq<(Seq<char>, YamlV)>,
    body: Seq<char>,
) -> Option<Seq<char>> {
    match yaml_dump_spec(YamlV::Dict(fm)) {
        Option::None => Option::<Seq<char>>::None,
        Option::Some(d) => {
            if d.len() == 0 || (exists|i: int|
                0 <= i < split_lines(d).len() && spec_is_dashes(#[trigger] split_lines(d)[i])) {
                Option::<Seq<char>>::None
            } else {
                Some(dashes() + seq!['\n'] + d + seq!['\n'] + body)
            }
        }
    }
}

/// Re-parsing a serialized document recovers the frontmatter and body:
/// the emitted YAML lines hold no delimiter, so the reader splits the
/// output at the body's own leading delimiter line.
proof fn lemma_serialize_reparse(fm: Seq<(Seq<char>, YamlV)>, body: Seq<char>, d: Seq<char>)
    requires
        d.len() > 0,
        forall|i: int|
            0 <= i < split_lines(d).len() ==> !spec_is_dashes(#[trigger] split_lines(d)[i]),
        body_reopens(body),
        yaml_parse_spec(d) == Some(YamlV::Dict(fm)),
    ensures
        spec_parse_document(dashes() + seq!['\n'] + d + seq!['\n'] + body) == Some(
            DocV { frontmatter: fm, body },
        ),
{
    let out = dashes() + seq!['\n'] + d + seq!['\n'] + body;
    lemma_split_no_newline(dashes());
    lemma_split_concat(dashes(), d + seq!['\n'] + body);
    lemma_split_concat(d, body);
    assert(out =~= dashes() + seq!['\n'] + (d + seq!['\n'] + body));
    let ls = split_lines(out);
    assert(ls =~~= seq![dashes()] + split_lines(d) + split_lines(body));
    lemma_split_lines_len(d);
    lemma_split_lines_len(body);
    let nd = split_lines(d).len() as int;
    assert(ls[0] == dashes());
    assert forall|j: int| 1 <= j < 1 + nd implies !spec_is_dashes(#[trigger] ls[j]) by {
        assert(ls[j] == split_lines(d)[j - 1]);
    }
    assert(ls[1 + nd] == split_lines(body)[0]);
    lemma_first_closing_finds(ls, 1, 1 + nd);
    assert(first_closing(ls, 1) == 1 + nd);
    assert(ls.subrange(1, 1 + nd) =~~= split_lines(d));
    lemma_join_split(d);
    assert(join_lines(ls.subrange(1, 1 + nd)) == d);
    assert(ls.subrange(1 + nd, ls.len() as int) =~~= split_lines(body));
    lemma_join_split(body);
    assert(join_lines(ls.subrange(1 + nd, ls.len() as int)) == body);
}

/// Serialize a document for the target workspace.  On success the output
/// is exactly the spec-level serialization; and whenever the frontmatter
/// is fully modeled, nests within the reader's recursion limit, and the
/// body opens with a delimiter line, re-parsing the output yields the
/// document back (the round-trip law).  Every document the pipeline
/// itself parses meets the first two premises or is not fully modeled.
pub fn serialize_document(doc: Document) -> (r: Result<String, StageError>)
    requires
        crate::yaml::wf_dict(doc@.frontmatter),
    ensures
        r matches Ok(s) ==> Some(s@) == spec_serialize_document(doc@.frontmatter, doc@.body),
        r matches Err(e) ==> e == StageError::Serialize && spec_serialize_document(
            doc@.frontmatter,
            doc@.body,
        ) is None,
        r matches Ok(s) ==> (crate::yaml::modeled_dict(doc@.frontmatter) && crate::yaml::tree_depth(
            YamlV::Dict(doc@.frontmatter),
        ) <= crate::yaml::yaml_depth_limit() && body_reopens(doc@.body) ==> spec_parse_document(s@)
            == Some(doc@)),
{
    let ghost fmv = entry_views(doc.frontmatter@);
    let ghost bodyv = doc.body@;
    let Document { frontmatter, body } = doc;
    let body_chars = str_to_chars(body.as_str());
    let t = Yaml::Dict(frontmatter);
    assert(t@ == YamlV::Dict(fmv));
    let v = yaml_tree_to_value(t);
    match crate::yamlio::yaml_to_string(&v) {
        Option::None => Err(StageError::Serialize),
        Option::Some(d) => {
            let dchars = str_to_chars(d.as_str());
            if dchars.len() == 0 {
                return Err(StageError::Serialize);
            }
            let dlines = split_lines_exec(&dchars);
            let dash = dash_chars();
            proof {
                lemma_split_lines_len(d@);
            }
            let mut i: usize = 0;
            while i < dlines.len()
                invariant
                    i <= dlines.len(),
                    dash@ == dashes(),
                    views_of(dlines@) == split_lines(d@),
                    forall|j: int|
                        0 <= j < i ==> !spec_is_dashes(#[trigger] split_lines(d@)[j]),
                decreases dlines.len() - i,
            {
                if crate::strutil::chars_eq(&dlines[i], &dash) {
                    assert(spec_is_dashes(split_lines(d@)[i as int]));
                    return Err(StageError::Serialize);
                }
                i = i + 1;
            }
            let mut out = dash_chars();
            out.push('\n');
            push_chars(&mut out, &dchars);
            out.push('\n');
            push_chars(&mut out, &body_chars);
            assert(out@ =~= dashes() + seq!['\n'] + d@ + seq!['\n'] + bodyv);
            let s = chars_to_string(&out);
            proof {
                if crate::yaml::modeled_dict(fmv) && crate::yaml::tree_depth(YamlV::Dict(fmv))
                    <= crate::yaml::yaml_depth_limit() && body_reopens(bodyv) {
                    lemma_serialize_reparse(fmv, bodyv, d@);
                }
            }
            Ok(s)
        }
    }
}

} // verus!
