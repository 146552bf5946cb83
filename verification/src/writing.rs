//! Writings: the markdown documents discovered under the source
//! directory, with the listing order of the status views.
use crate::document::parse_document;
use crate::document::spec_parse_document;
use crate::yaml::Yaml;
use crate::yaml::YamlV;
use crate::yaml::entry_views;
use crate::yaml::spec_dict_get;
use chrono::Datelike;
use vstd::prelude::*;
use vstd::seq_lib::to_multiset_insert;
use vstd::seq_lib::group_to_multiset_ensures;

verus! {

/// A calendar date, held as plain year, month and day.
#[derive(Clone, Copy, Debug, PartialEq, Eq, Structural)]
pub struct Date {
    pub year: i32,
    pub month: u8,
    pub day: u8,
}

/// What parsing a `YYYY-MM-DD` publish date yields.
pub uninterp spec fn spec_parse_date(s: Seq<char>) -> Option<Date>;

/// Relies on `chrono::NaiveDate::parse_from_str` with the `%Y-%m-%d`
/// format: the result depends on the text alone, and a parsed date is a
/// valid calendar date.
#[verifier::external_body]
pub fn parse_publish_date(s: &str) -> (r: Option<Date>)
    ensures
        r == spec_parse_date(s@),
        r matches Some(d) ==> 1 <= d.month <= 12 && 1 <= d.day <= 31,
{
    match chrono::NaiveDate::parse_from_str(s, "%Y-%m-%d") {
        Ok(d) => Some(Date { year: d.year(), month: d.month() as u8, day: d.day() as u8 }),
        Err(_) => None,
    }
}

/// One discovered markdown document.
pub struct Writing {
    pub path: String,
    pub title: String,
    pub is_draft: bool,
    pub publish_date: Option<Date>,
}

/// Mathematical model of a writing.
pub ghost struct WritingV {
    pub path: Seq<char>,
    pub title: Seq<char>,
    pub is_draft: bool,
    pub publish_date: Option<Date>,
}

impl View for Writing {
    type V = WritingV;

    open spec fn view(&self) -> WritingV {
        WritingV {
            path: self.path@,
            title: self.title@,
            is_draft: self.is_draft,
            publish_date: self.publish_date,
        }
    }
}

/// The views of a list of writings.
pub open spec fn writing_views(s: Seq<Writing>) -> Seq<WritingV> {
    s.map_values(|w: Writing| w@)
}

impl Writing {
    /// Build a writing from its fields; the publish date is parsed from
    /// its `YYYY-MM-DD` text, and an unparsable date is simply absent.
    pub fn new(path: String, title: String, is_draft: bool, publish_date: &str) -> (r: Writing)
        ensures
            r@ == (WritingV {
                path: path@,
                title: title@,
                is_draft,
                publish_date: spec_parse_date(publish_date@),
            }),
    {
        let date = parse_publish_date(publish_date);
        Writing { path, title, is_draft, publish_date: date }
    }
}

/// The string under `k` in the frontmatter, or empty.
pub open spec fn spec_get_str(es: Seq<(Seq<char>, YamlV)>, k: Seq<char>) -> Seq<char> {
    match spec_dict_get(es, k) {
        Option::Some(t) => match t {
            YamlV::Str(s) => s,
            _ => Seq::empty(),
        },
        Option::None => Seq::empty(),
    }
}

/// The boolean under `k` in the frontmatter, or false.
pub open spec fn spec_get_bool(es: Seq<(Seq<char>, YamlV)>, k: Seq<char>) -> bool {
    match spec_dict_get(es, k) {
        Option::Some(t) => match t {
            YamlV::Bool(b) => b,
            _ => false,
        },
        Option::None => false,
    }
}

/// What listing one file yields: nothing when its frontmatter does not
/// parse (such a file is skipped, not an error), else a writing with
/// the title, draft flag and publish date read from the frontmatter.
pub open spec fn spec_writing_from(path: Seq<char>, content: Seq<char>) -> Option<WritingV> {
    match spec_parse_document(content) {
        Option::None => None,
        Option::Some(doc) => Some(
            WritingV {
                path,
                title: spec_get_str(doc.frontmatter, "title"@),
                is_draft: spec_get_bool(doc.frontmatter, "draft"@),
                publish_date: spec_parse_date(spec_get_str(doc.frontmatter, "publishDate"@)),
            },
        ),
    }
}

/// Read one writing out of a file's content.
pub fn writing_from_content(path: &str, content: &str) -> (r: Option<Writing>)
    ensures
        match r {
            Option::Some(w) => spec_writing_from(path@, content@) == Some(w@),
            Option::None => spec_writing_from(path@, content@) is None,
        },
{
    let doc = match parse_document(content) {
        Ok(d) => d,
        Err(_) => {
            return None;
        }
    };
    let title = match crate::yaml::dict_get(&doc.frontmatter, "title") {
        Option::Some(t) => match t {
            Yaml::Str(s) => s.clone(),
            _ => String::new(),
        },
        Option::None => String::new(),
    };
    let is_draft = match crate::yaml::dict_get(&doc.frontmatter, "draft") {
        Option::Some(t) => match t {
            Yaml::Bool(b) => *b,
            _ => false,
        },
        Option::None => false,
    };
    let pd = match crate::yaml::dict_get(&doc.frontmatter, "publishDate") {
        Option::Some(t) => match t {
            Yaml::Str(s) => s.clone(),
            _ => String::new(),
        },
        Option::None => String::new(),
    };
    let mut p = String::new();
    p.append(path);
    Some(Writing::new(p, title, is_draft, pd.as_str()))
}

/// Chronological order on optional dates; an absent date sorts first.
pub open spec fn spec_date_le(a: Option<Date>, b: Option<Date>) -> bool {
    match (a, b) {
        (Option::None, _) => true,
        (Option::Some(_), Option::None) => false,
        (Option::Some(x), Option::Some(y)) => x.year < y.year || (x.year == y.year && (x.month
            < y.month || (x.month == y.month && x.day <= y.day))),
    }
}

/// The listing order: drafts before published writings, and within each
/// group the newest publish date first (an absent date last).
pub open spec fn spec_listing_le(a: WritingV, b: WritingV) -> bool {
    (a.is_draft && !b.is_draft) || (a.is_draft == b.is_draft && spec_date_le(
        b.publish_date,
        a.publish_date,
    ))
}

/// The listing order relates every pair, one way or the other.
pub proof fn lemma_listing_le_total(a: WritingV, b: WritingV)
    ensures
        spec_listing_le(a, b) || spec_listing_le(b, a),
{
}

/// The listing order is transitive.
pub proof fn lemma_listing_le_trans(a: WritingV, b: WritingV, c: WritingV)
    requires
        spec_listing_le(a, b),
        spec_listing_le(b, c),
    ensures
        spec_listing_le(a, c),
{
}

/// A list sorted for display.
pub open spec fn spec_listing_sorted(s: Seq<WritingV>) -> bool {
    forall|i: int, j: int| 0 <= i < j < s.len() ==> spec_listing_le(#[trigger] s[i], #[trigger] s[j])
}

/// Whether `a` comes at or before `b` in the listing order.
pub fn listing_le(a: &Writing, b: &Writing) -> (r: bool)
    ensures
        r == spec_listing_le(a@, b@),
{
    if a.is_draft && !b.is_draft {
        return true;
    }
    if a.is_draft != b.is_draft {
        return false;
    }
    match (&b.publish_date, &a.publish_date) {
        (Option::None, _) => true,
        (Option::Some(_), Option::None) => false,
        (Option::Some(x), Option::Some(y)) => x.year < y.year || (x.year == y.year && (x.month
            < y.month || (x.month == y.month && x.day <= y.day))),
    }
}

/// Sort writings into the listing order: drafts first, newest first.
/// The result holds exactly the given writings.
pub fn sort_writings(ws: Vec<Writing>) -> (r: Vec<Writing>)
    ensures
        spec_listing_sorted(writing_views(r@)),
        writing_views(r@).to_multiset() == writing_views(ws@).to_multiset(),
{
    broadcast use to_multiset_insert, group_to_multiset_ensures;

    let ghost ws0 = ws@;
    let mut ws = ws;
    let mut out: Vec<Writing> = Vec::new();
    let ghost mut done: int = 0;
    proof {
        assert(ws@ =~= ws0.subrange(0, ws0.len() as int));
        assert(writing_views(out@) =~= Seq::<WritingV>::empty());
        assert(writing_views(ws0.subrange(0, 0)) =~= Seq::<WritingV>::empty());
    }
    while ws.len() > 0
        invariant
            0 <= done,
            done + ws@.len() == ws0.len(),
            ws@ == ws0.subrange(done, ws0.len() as int),
            spec_listing_sorted(writing_views(out@)),
            writing_views(out@).to_multiset() == writing_views(ws0.subrange(0, done)).to_multiset(),
        decreases ws@.len(),
    {
        let w = ws.remove(0);
        assert(w == ws0[done]);
        insert_listing(&mut out, w);
        proof {
            assert(ws0.subrange(0, done + 1) =~= ws0.subrange(0, done).push(ws0[done]));
            assert(writing_views(ws0.subrange(0, done + 1)) =~= writing_views(
                ws0.subrange(0, done),
            ).push(ws0[done]@));
            writing_views(ws0.subrange(0, done)).to_multiset_ensures();
            assert(ws@ =~= ws0.subrange(done + 1, ws0.len() as int));
            done = done + 1;
        }
    }
    proof {
        assert(ws0.subrange(0, ws0.len() as int) =~= ws0);
    }
    out
}

/// Insert one writing into a sorted list, keeping it sorted.
fn insert_listing(out: &mut Vec<Writing>, w: Writing)
    requires
        spec_listing_sorted(writing_views(old(out)@)),
    ensures
        spec_listing_sorted(writing_views(final(out)@)),
        writing_views(final(out)@).to_multiset() == writing_views(old(out)@).to_multiset().insert(
            w@,
        ),
{
    broadcast use to_multiset_insert;

    let mut j: usize = 0;
    while j < out.len() && listing_le(&out[j], &w)
        invariant
            0 <= j <= out@.len(),
            out@ == old(out)@,
            forall|i: int| 0 <= i < j ==> spec_listing_le(#[trigger] writing_views(out@)[i], w@),
        decreases out@.len() - j,
    {
        assert(writing_views(out@)[j as int] == out@[j as int]@);
        j = j + 1;
    }
    proof {
        if j < out@.len() {
            assert(!spec_listing_le(out@[j as int]@, w@));
            lemma_listing_le_total(out@[j as int]@, w@);
        }
    }
    let ghost before = out@;
    out.insert(j, w);
    proof {
        assert(out@ =~= before.insert(j as int, w));
        let ov = writing_views(out@);
        let bv = writing_views(before);
        assert(ov =~= bv.insert(j as int, w@));
        assert forall|x: int, y: int| 0 <= x < y < ov.len() implies spec_listing_le(
            #[trigger] ov[x],
            #[trigger] ov[y],
        ) by {
            if x < j && y < j {
                assert(ov[x] == bv[x] && ov[y] == bv[y]);
            } else if x < j && y == j {
                assert(ov[x] == bv[x] && ov[y] == w@);
            } else if x < j && y > j {
                assert(ov[x] == bv[x] && ov[y] == bv[y - 1]);
            } else if x == j && y > j {
                assert(ov[x] == w@ && ov[y] == bv[y - 1]);
                assert(!spec_listing_le(bv[j as int], w@));
                lemma_listing_le_total(bv[j as int], w@);
                if y - 1 > j {
                    lemma_listing_le_trans(w@, bv[j as int], bv[y - 1]);
                }
            } else {
                assert(x > j || (x == j && y == j));
                assert(ov[x] == bv[x - 1] && ov[y] == bv[y - 1]);
            }
        }
        assert(ov.to_multiset() =~= bv.to_multiset().insert(w@));
    }
}

/// How many of the writings are drafts.
pub open spec fn spec_draft_count(s: Seq<WritingV>) -> int {
    s.filter(|w: WritingV| w.is_draft).len() as int
}

/// Count the drafts in a list of writings.
pub fn count_drafts(ws: &Vec<Writing>) -> (r: usize)
    ensures
        r == spec_draft_count(writing_views(ws@)),
{
    broadcast use Seq::lemma_filter_push;

    let ghost wv = writing_views(ws@);
    let mut n: usize = 0;
    let mut i: usize = 0;
    proof {
        assert(wv.subrange(0, 0).filter(|w: WritingV| w.is_draft) =~= Seq::<WritingV>::empty());
    }
    while i < ws.len()
        invariant
            0 <= i <= ws@.len(),
            n == wv.subrange(0, i as int).filter(|w: WritingV| w.is_draft).len(),
            n <= i,
        decreases ws@.len() - i,
    {
        proof {
            assert(wv.subrange(0, i + 1 as int) =~= wv.subrange(0, i as int).push(wv[i as int]));
        }
        if ws[i].is_draft {
            assert(wv[i as int].is_draft);
            n = n + 1;
        } else {
            assert(!wv[i as int].is_draft);
        }
        i = i + 1;
    }
    proof {
        assert(wv.subrange(0, ws@.len() as int) =~= wv);
    }
    n
}

} // verus!
