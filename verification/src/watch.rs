//! The change-watch decisions: which writing a filesystem event should
//! re-stage, and the set of paths under per-file auto-staging.  The
//! watch backend and the loop that drains its events live outside the
//! library; they hand plain paths in and perform the decided action.
use crate::strutil::contains_chars;
use crate::strutil::spec_contains;
use crate::strutil::str_eq;
use crate::strutil::str_to_chars;
use crate::writing::Writing;
use crate::writing::WritingV;
use crate::writing::writing_views;
use vstd::prelude::*;

verus! {

/// The views of a list of paths.
pub open spec fn path_views(s: Seq<String>) -> Seq<Seq<char>> {
    s.map_values(|p: String| p@)
}

/// Whether one of the event's paths contains the writing's path.
pub open spec fn spec_event_matches(w: WritingV, events: Seq<Seq<char>>) -> bool {
    exists|i: int| 0 <= i < events.len() && spec_contains(#[trigger] events[i], w.path)
}

/// Index of the first writing matched by the event's paths, or the
/// length when none matches.
pub open spec fn spec_first_modified(ws: Seq<WritingV>, events: Seq<Seq<char>>, i: int) -> int
    decreases ws.len() - i,
{
    if i < 0 || i >= ws.len() {
        ws.len() as int
    } else if spec_event_matches(ws[i], events) {
        i
    } else {
        spec_first_modified(ws, events, i + 1)
    }
}

/// The directory-watch decision: the first writing whose path occurs in
/// one of the event's paths is re-staged, and only while it is still a
/// draft.  Events matching no writing, or a published one, are ignored,
/// so a published writing is never targeted by watch re-staging.
pub open spec fn spec_restage_decision(
    ws: Seq<WritingV>,
    events: Seq<Seq<char>>,
) -> Option<int> {
    let j = spec_first_modified(ws, events, 0);
    if j < ws.len() && ws[j].is_draft {
        Some(j)
    } else {
        None
    }
}

fn event_matches(w: &Writing, events: &Vec<String>) -> (r: bool)
    ensures
        r == spec_event_matches(w@, path_views(events@)),
{
    let wp = str_to_chars(w.path.as_str());
    let mut i: usize = 0;
    while i < events.len()
        invariant
            0 <= i <= events.len(),
            forall|j: int| 0 <= j < i ==> !spec_contains(#[trigger] path_views(events@)[j], w@.path),
        decreases events.len() - i,
    {
        let ec = str_to_chars(events[i].as_str());
        if contains_chars(&ec, &wp) {
            assert(spec_contains(path_views(events@)[i as int], w@.path));
            return true;
        }
        assert(!spec_contains(path_views(events@)[i as int], w@.path));
        i = i + 1;
    }
    false
}

/// Decide which writing, if any, a modify event should re-stage.
pub fn restage_decision(ws: &Vec<Writing>, event_paths: &Vec<String>) -> (r: Option<usize>)
    ensures
        match r {
            Option::Some(i) => Some(i as int) == spec_restage_decision(
                writing_views(ws@),
                path_views(event_paths@),
            ) && i < ws@.len() && ws@[i as int]@.is_draft,
            Option::None => spec_restage_decision(
                writing_views(ws@),
                path_views(event_paths@),
            ) is None,
        },
{
    let ghost wsv = writing_views(ws@);
    let ghost ev = path_views(event_paths@);
    let mut i: usize = 0;
    while i < ws.len()
        invariant
            0 <= i <= ws.len(),
            spec_first_modified(wsv, ev, 0) == spec_first_modified(wsv, ev, i as int),
        decreases ws.len() - i,
    {
        assert(wsv[i as int] == ws@[i as int]@);
        if event_matches(&ws[i], event_paths) {
            assert(spec_first_modified(wsv, ev, i as int) == i);
            if ws[i].is_draft {
                return Some(i);
            }
            return None;
        }
        assert(!spec_event_matches(wsv[i as int], ev));
        i = i + 1;
    }
    assert(spec_first_modified(wsv, ev, ws@.len() as int) == ws@.len());
    None
}

/// The indices of the writings a bulk staging pass targets: exactly the
/// drafts, in listing order.  Writing the staged files is the caller's
/// step; this plan never names a published writing.
pub fn stage_all_drafts(ws: &Vec<Writing>) -> (r: Vec<usize>)
    ensures
        forall|k: int| 0 <= k < r@.len() ==> 0 <= #[trigger] r@[k] < ws@.len() && ws@[r@[k] as int]@.is_draft,
        forall|i: int|
            0 <= i < ws@.len() && ws@[i]@.is_draft ==> r@.contains(i as usize),
        forall|k1: int, k2: int| 0 <= k1 < k2 < r@.len() ==> r@[k1] < r@[k2],
{
    let mut r: Vec<usize> = Vec::new();
    let mut i: usize = 0;
    while i < ws.len()
        invariant
            0 <= i <= ws.len(),
            forall|k: int|
                0 <= k < r@.len() ==> 0 <= #[trigger] r@[k] < i && ws@[r@[k] as int]@.is_draft,
            forall|j: int| 0 <= j < i && ws@[j]@.is_draft ==> r@.contains(j as usize),
            forall|k1: int, k2: int| 0 <= k1 < k2 < r@.len() ==> r@[k1] < r@[k2],
        decreases ws.len() - i,
    {
        if ws[i].is_draft {
            let ghost prev = r@;
            r.push(i);
            assert(r@ =~= prev.push(i));
            assert(r@[r@.len() - 1] == i);
            assert forall|j: int| 0 <= j < i && ws@[j]@.is_draft implies #[trigger] r@.contains(
                j as usize,
            ) by {
                assert(prev.contains(j as usize));
                let k = choose|k: int| 0 <= k < prev.len() && prev[k] == j as usize;
                assert(r@[k] == j as usize);
            }
            assert(r@[r@.len() - 1] == i as usize);
            assert(r@.contains(i as usize));
        }
        i = i + 1;
    }
    r
}

/// The set of writing paths currently under auto re-staging: a path is
/// added when its writing is staged, and removed when it is reverted; a
/// path appears at most once.
pub struct StagedSet {
    paths: Vec<String>,
}

impl StagedSet {
    /// The paths in the set.
    pub closed spec fn view(&self) -> Set<Seq<char>> {
        path_views(self.paths@).to_set()
    }

    /// No path appears twice.
    pub closed spec fn wf(&self) -> bool {
        path_views(self.paths@).no_duplicates()
    }

    /// The empty set: watching starts with nothing staged.
    pub fn new() -> (r: StagedSet)
        ensures
            r@ == Set::<Seq<char>>::empty(),
            r.wf(),
    {
        let r = StagedSet { paths: Vec::new() };
        proof {
            assert(path_views(r.paths@) =~~= Seq::<Seq<char>>::empty());
            assert(r@ =~= Set::<Seq<char>>::empty());
        }
        r
    }

    /// Whether a path is under auto re-staging.
    pub fn contains(&self, path: &str) -> (r: bool)
        ensures
            r == self@.contains(path@),
    {
        let ghost pv = path_views(self.paths@);
        let mut i: usize = 0;
        while i < self.paths.len()
            invariant
                0 <= i <= self.paths.len(),
                forall|j: int| 0 <= j < i ==> #[trigger] pv[j] != path@,
            decreases self.paths.len() - i,
        {
            if str_eq(self.paths[i].as_str(), path) {
                assert(pv[i as int] == path@);
                assert(pv.contains(path@));
                return true;
            }
            assert(pv[i as int] != path@);
            i = i + 1;
        }
        assert(!pv.contains(path@));
        false
    }

    /// Record that a writing was staged: its path joins the set.
    pub fn stage(&mut self, path: &str)
        requires
            old(self).wf(),
        ensures
            final(self)@ == old(self)@.insert(path@),
            final(self).wf(),
    {
        if self.contains(path) {
            proof {
                assert(old(self)@.insert(path@) =~= old(self)@);
            }
            return ;
        }
        let ghost prev = path_views(self.paths@);
        let mut p = String::new();
        p.append(path);
        self.paths.push(p);
        proof {
            let now = path_views(self.paths@);
            assert(now =~~= prev.push(path@));
            assert(!prev.contains(path@));
            assert(now.no_duplicates());
            assert forall|x: Seq<char>| now.contains(x) == (prev.contains(x) || x == path@) by {
                if now.contains(x) {
                    let j = choose|j: int| 0 <= j < now.len() && now[j] == x;
                    if j < prev.len() {
                        assert(prev[j] == x);
                    } else {
                        assert(x == path@);
                    }
                }
                if prev.contains(x) {
                    let j = choose|j: int| 0 <= j < prev.len() && prev[j] == x;
                    assert(now[j] == x);
                }
                if x == path@ {
                    assert(now[now.len() - 1] == x);
                }
            }
            assert(self@ =~= old(self)@.insert(path@));
        }
    }

    /// Record a revert: the path leaves the set, so later modify events
    /// for it trigger nothing.
    pub fn revert(&mut self, path: &str)
        requires
            old(self).wf(),
        ensures
            final(self)@ == old(self)@.remove(path@),
            final(self).wf(),
    {
        let ghost prev = path_views(self.paths@);
        let mut i: usize = 0;
        while i < self.paths.len()
            invariant
                0 <= i <= self.paths.len(),
                self.paths@ == old(self).paths@,
                forall|j: int| 0 <= j < i ==> #[trigger] prev[j] != path@,
            decreases self.paths.len() - i,
        {
            if str_eq(self.paths[i].as_str(), path) {
                assert(prev[i as int] == path@);
                self.paths.remove(i);
                proof {
                    assert(self.paths@ =~= old(self).paths@.remove(i as int));
                    let now = path_views(self.paths@);
                    assert(now =~~= prev.remove(i as int));
                    assert(forall|j: int| 0 <= j < i ==> #[trigger] now[j] == prev[j]);
                    assert(forall|j: int|
                        i <= j < now.len() ==> #[trigger] now[j] == prev[j + 1]);
                    assert(now.no_duplicates());
                    assert forall|x: Seq<char>| now.contains(x) == (prev.contains(x) && x
                        != path@) by {
                        if now.contains(x) {
                            let j = choose|j: int| 0 <= j < now.len() && now[j] == x;
                            if j < i {
                                assert(prev[j] == x);
                            } else {
                                assert(prev[j + 1] == x);
                            }
                            assert(prev.contains(x));
                            assert(x != path@);
                        }
                        if prev.contains(x) && x != path@ {
                            let j = choose|j: int| 0 <= j < prev.len() && prev[j] == x;
                            if j < i {
                                assert(now[j] == x);
                            } else {
                                assert(j != i);
                                assert(now[j - 1] == x);
                            }
                            assert(now.contains(x));
                        }
                    }
                    assert(self@ =~= old(self)@.remove(path@));
                }
                return ;
            }
            assert(prev[i as int] != path@);
            i = i + 1;
        }
        proof {
            assert(!prev.contains(path@));
            assert(self@ =~= old(self)@.remove(path@));
        }
    }
}

/// The per-file auto-stage rule: a modify event re-stages its writing
/// exactly when auto-staging is on and the path is still in the set.
pub open spec fn spec_should_restage(s: Set<Seq<char>>, auto_enabled: bool, path: Seq<char>) -> bool {
    auto_enabled && s.contains(path)
}

/// Decide whether a modify event for a watched path re-stages it.
pub fn should_restage(s: &StagedSet, auto_enabled: bool, path: &str) -> (r: bool)
    ensures
        r == spec_should_restage(s@, auto_enabled, path@),
{
    if !auto_enabled {
        return false;
    }
    s.contains(path)
}

/// Reverting a writing stops its auto re-staging for good: after the
/// path leaves the set, no modify event re-stages it, even while the
/// global auto-stage toggle stays on.
pub proof fn lemma_revert_stops_restaging(s: Set<Seq<char>>, path: Seq<char>, auto_enabled: bool)
    ensures
        !spec_should_restage(s.remove(path), auto_enabled, path),
{
}

} // verus!
