//! The dashboard's data and selection logic: per-project statistics and
//! the wrap-around list navigation.  Terminal rendering and the key
//! loop live outside the library.
use crate::writing::Writing;
use crate::writing::count_drafts;
use crate::writing::spec_draft_count;
use crate::writing::writing_views;
use vstd::prelude::*;

verus! {

/// Which list the dashboard currently shows.
#[derive(Clone, PartialEq, Eq, Structural)]
pub enum ViewMode {
    Projects,
    Writings,
}

/// The per-project numbers the dashboard displays.
pub struct ProjectStats {
    pub name: String,
    pub draft_count: usize,
    pub total_files: usize,
    pub last_activity: String,
    pub is_active: bool,
}

/// Build the statistics of one project from its writings: the draft
/// count is exactly the number of drafts, the total the number of
/// writings.
pub fn project_stats_of(name: String, writings: &Vec<Writing>, last_activity: String, is_active: bool) -> (r: ProjectStats)
    ensures
        r.name@ == name@,
        r.draft_count == spec_draft_count(writing_views(writings@)),
        r.total_files == writings@.len(),
        r.last_activity@ == last_activity@,
        r.is_active == is_active,
{
    let draft_count = count_drafts(writings);
    ProjectStats { name, draft_count, total_files: writings.len(), last_activity, is_active }
}

/// The next selection in a wrap-around list.
pub fn next_index(i: usize, len: usize) -> (r: usize)
    requires
        len > 0,
        i < len,
    ensures
        i + 1 < len ==> r == i + 1,
        i + 1 == len ==> r == 0,
{
    if i + 1 == len {
        0
    } else {
        i + 1
    }
}

/// The previous selection in a wrap-around list.
pub fn previous_index(i: usize, len: usize) -> (r: usize)
    requires
        len > 0,
        i < len,
    ensures
        i == 0 ==> r == len - 1,
        i > 0 ==> r == i - 1,
{
    if i == 0 {
        len - 1
    } else {
        i - 1
    }
}

} // verus!
