use lazydraft::watch::{restage_decision, should_restage, stage_all_drafts, StagedSet};
use lazydraft::writing::Writing;

fn w(path: &str, draft: bool) -> Writing {
    Writing::new(path.to_string(), path.to_string(), draft, "")
}

#[test]
fn revert_stops_auto_restaging_even_with_the_toggle_on() {
    let mut set = StagedSet::new();
    set.stage("/s/a.md");
    assert!(should_restage(&set, true, "/s/a.md"));
    set.revert("/s/a.md");
    assert!(!should_restage(&set, true, "/s/a.md"));
    assert!(!should_restage(&set, false, "/s/a.md"));
}

#[test]
fn auto_toggle_gates_restaging() {
    let mut set = StagedSet::new();
    set.stage("/s/a.md");
    assert!(!should_restage(&set, false, "/s/a.md"));
    assert!(!should_restage(&set, true, "/s/other.md"));
}

#[test]
fn staging_twice_then_reverting_once_empties_the_set() {
    let mut set = StagedSet::new();
    set.stage("/s/a.md");
    set.stage("/s/a.md");
    set.revert("/s/a.md");
    assert!(!set.contains("/s/a.md"));
}

#[test]
fn watch_event_restages_the_matching_draft() {
    let ws = vec![w("/s/a.md", false), w("/s/b.md", true)];
    let events = vec!["/watched/s/b.md".to_string()];
    assert_eq!(restage_decision(&ws, &events), Some(1));
}

#[test]
fn watch_event_never_targets_a_published_writing() {
    let ws = vec![w("/s/a.md", false)];
    let events = vec!["/watched/s/a.md".to_string()];
    assert_eq!(restage_decision(&ws, &events), None);
}

#[test]
fn watch_event_matching_nothing_is_ignored() {
    let ws = vec![w("/s/a.md", true)];
    let events = vec!["/elsewhere/c.md".to_string()];
    assert_eq!(restage_decision(&ws, &events), None);
}

#[test]
fn bulk_staging_targets_exactly_the_drafts() {
    let ws = vec![w("a", true), w("b", false), w("c", true), w("d", false)];
    assert_eq!(stage_all_drafts(&ws), vec![0, 2]);
}
