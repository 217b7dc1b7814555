use std::collections::BTreeMap;

use jj::path::{AbsPath, RelPath};
use jj::tracker::{JjRepositoryEntry, JjTracker, UpdatedJjRepository};

fn abs(text: &str) -> AbsPath {
    let components: Vec<String> = std::path::Path::new(text)
        .components()
        .map(|c| c.as_os_str().to_string_lossy().into_owned())
        .collect();
    AbsPath::new(text.to_string(), components)
}

fn rel(text: &str) -> RelPath {
    RelPath::unix(text).expect("a relative path")
}

fn entry(id: u64, rel_path: &str, abs_path: &str, scan_id: usize) -> JjRepositoryEntry {
    JjRepositoryEntry {
        work_directory_id: id,
        work_directory_abs_path: abs(abs_path),
        work_directory_rel_path: rel(rel_path),
        jj_dir_abs_path: abs(&format!("{abs_path}/.jj")),
        jj_dir_scan_id: scan_id,
        covers_entire_project: rel_path.is_empty(),
    }
}

fn scan(entries: Vec<JjRepositoryEntry>) -> BTreeMap<u64, JjRepositoryEntry> {
    let mut map = BTreeMap::new();
    for e in entries {
        map.insert(e.work_directory_id, e);
    }
    map
}

fn shown(path: &Option<AbsPath>) -> Option<String> {
    path.as_ref().map(|p| p.display().clone())
}

fn summary(change: &UpdatedJjRepository) -> (u64, Option<String>, Option<String>, Option<String>) {
    (
        change.work_directory_id,
        shown(&change.old_work_directory_abs_path),
        shown(&change.new_work_directory_abs_path),
        shown(&change.jj_dir_abs_path),
    )
}

/// Applies the changes to `old`, fetching the records of what is new from `new`.
fn apply(
    old: &BTreeMap<u64, JjRepositoryEntry>,
    changes: &[UpdatedJjRepository],
    new: &BTreeMap<u64, JjRepositoryEntry>,
) -> BTreeMap<u64, JjRepositoryEntry> {
    let mut state: BTreeMap<u64, JjRepositoryEntry> =
        old.iter().map(|(id, e)| (*id, e.clone())).collect();
    for change in changes {
        if change.new_work_directory_abs_path.is_some() {
            if let Some(e) = new.get(&change.work_directory_id) {
                state.insert(change.work_directory_id, e.clone());
            }
        } else {
            state.remove(&change.work_directory_id);
        }
    }
    state
}

fn fingerprint(map: &BTreeMap<u64, JjRepositoryEntry>) -> Vec<(u64, String, String, String, usize, bool)> {
    map.iter()
        .map(|(id, e)| {
            (
                *id,
                e.work_directory_abs_path.display().clone(),
                e.work_directory_rel_path.to_unix_string(),
                e.jj_dir_abs_path.display().clone(),
                e.jj_dir_scan_id,
                e.covers_entire_project,
            )
        })
        .collect()
}

#[test]
fn new_tracker_is_empty() {
    let tracker = JjTracker::new(true);
    assert!(tracker.enabled());
    assert!(tracker.repositories().is_empty());
    assert!(!JjTracker::new(false).enabled());
}

#[test]
fn force_scan_only_for_the_control_directory_of_an_enabled_tracker() {
    let on = JjTracker::new(true);
    assert!(on.should_force_scan(".jj"));
    assert!(!on.should_force_scan(".git"));
    assert!(!on.should_force_scan(".jjx"));
    assert!(!on.should_force_scan(".j"));
    assert!(!on.should_force_scan(""));
    assert!(!on.should_force_scan("jj"));
    let off = JjTracker::new(false);
    assert!(!off.should_force_scan(".jj"));
}

#[test]
fn insert_replaces_the_entry_of_the_same_identifier() {
    let mut tracker = JjTracker::new(true);
    tracker.insert(entry(7, "a", "/w/a", 1));
    tracker.insert(entry(7, "b", "/w/b", 2));
    assert_eq!(tracker.repositories().len(), 1);
    let kept = &tracker.repositories()[&7];
    assert_eq!(kept.work_directory_rel_path.to_unix_string(), "b");
    assert_eq!(kept.jj_dir_scan_id, 2);
}

#[test]
fn insert_twice_is_the_same_as_once() {
    let mut once = JjTracker::new(true);
    once.insert(entry(1, "a", "/w/a", 1));
    let mut twice = JjTracker::new(true);
    twice.insert(entry(1, "a", "/w/a", 1));
    twice.insert(entry(1, "a", "/w/a", 1));
    assert_eq!(fingerprint(once.repositories()), fingerprint(twice.repositories()));
}

#[test]
fn mark_scan_changes_only_the_scan_of_a_known_entry() {
    let mut tracker = JjTracker::new(true);
    tracker.insert(entry(1, "a", "/w/a", 1));
    tracker.mark_scan(&1, 9);
    tracker.mark_scan(&2, 9);
    assert_eq!(tracker.repositories().len(), 1);
    let kept = &tracker.repositories()[&1];
    assert_eq!(kept.jj_dir_scan_id, 9);
    assert_eq!(kept.work_directory_rel_path.to_unix_string(), "a");
    assert_eq!(kept.work_directory_abs_path.display(), "/w/a");
}

#[test]
fn repositories_mut_changes_the_tracker() {
    let mut tracker = JjTracker::new(true);
    tracker.repositories_mut().insert(3, entry(3, "c", "/w/c", 1));
    assert!(tracker.repositories().contains_key(&3));
}

#[test]
fn directory_contains_is_prefix_correct() {
    let repo = entry(1, "a/b", "/w/a/b", 1);
    assert!(repo.directory_contains(&rel("a/b/c.txt")));
    assert!(!repo.directory_contains(&rel("a/bc.txt")));
    assert!(repo.directory_contains(&rel("a/b")));
    assert!(!repo.directory_contains(&rel("a")));
    let foo = entry(2, "foo", "/w/foo", 1);
    assert!(!foo.directory_contains(&rel("foobar")));
}

#[test]
fn a_repository_that_covers_the_worktree_contains_everything() {
    let mut repo = entry(1, "a/b", "/w/a/b", 1);
    repo.covers_entire_project = true;
    assert!(repo.directory_contains(&rel("x/y")));
    assert!(repo.directory_contains(&rel("")));
}

#[test]
fn lookups_find_the_lowest_identifier() {
    let mut tracker = JjTracker::new(true);
    tracker.insert(entry(5, "a", "/w/a", 1));
    tracker.insert(entry(2, "a", "/w/other", 1));
    tracker.insert(entry(9, "b", "/w/b", 1));
    let (id, found) = tracker.repo_for_relative_path(&rel("a")).expect("found");
    assert_eq!(id, 2);
    assert_eq!(found.work_directory_abs_path.display(), "/w/other");
    assert!(tracker.repo_for_relative_path(&rel("c")).is_none());
    assert_eq!(tracker.repo_id_by_jj_dir(&abs("/w/b/.jj")), Some(9));
    assert_eq!(tracker.repo_id_by_jj_dir(&abs("/w/a/.jj")), Some(5));
    assert_eq!(tracker.repo_id_by_jj_dir(&abs("/w/zzz/.jj")), None);
}

#[test]
fn repos_containing_come_in_ascending_order() {
    let mut tracker = JjTracker::new(true);
    tracker.insert(entry(30, "a/b", "/w/a/b", 1));
    tracker.insert(entry(10, "a", "/w/a", 1));
    tracker.insert(entry(20, "c", "/w/c", 1));
    tracker.insert(entry(40, "", "/w", 1));
    let found: Vec<u64> = tracker
        .repos_containing(&rel("a/b/file.rs"))
        .iter()
        .map(|(id, _)| *id)
        .collect();
    assert_eq!(found, vec![10, 30, 40]);
    let again: Vec<u64> = tracker
        .repos_containing(&rel("a/b/file.rs"))
        .iter()
        .map(|(id, _)| *id)
        .collect();
    assert_eq!(again, found);
    assert!(tracker
        .repos_containing(&rel("c/x"))
        .iter()
        .all(|(_, repo)| repo.directory_contains(&rel("c/x"))));
}

#[test]
fn retain_existing_drops_what_is_gone() {
    let mut tracker = JjTracker::new(true);
    tracker.insert(entry(1, "a", "/w/a", 1));
    tracker.insert(entry(2, "b", "/w/b", 1));
    tracker.insert(entry(3, "c", "/w/c", 1));
    tracker.retain_existing(|repo| repo.work_directory_id != 2);
    let left: Vec<u64> = tracker.repositories().keys().copied().collect();
    assert_eq!(left, vec![1, 3]);
    tracker.retain_existing(|_| true);
    assert_eq!(tracker.repositories().len(), 2);
    tracker.retain_existing(|_| false);
    assert!(tracker.repositories().is_empty());
}

#[test]
fn diff_of_a_changed_path_is_one_update() {
    let old = scan(vec![entry(1, "p", "p1", 1)]);
    let new = scan(vec![entry(1, "p", "p2", 1)]);
    let changes = JjTracker::diff(&old, &new);
    assert_eq!(changes.len(), 1);
    assert_eq!(
        summary(&changes[0]),
        (1, Some("p1".to_string()), Some("p2".to_string()), Some("p2/.jj".to_string()))
    );
}

#[test]
fn diff_of_a_scan_with_itself_is_empty() {
    let m = scan(vec![entry(1, "a", "/w/a", 1), entry(2, "b", "/w/b", 4)]);
    assert!(JjTracker::diff(&m, &m).is_empty());
    let empty = scan(vec![]);
    assert!(JjTracker::diff(&empty, &empty).is_empty());
}

#[test]
fn diff_reports_additions_removals_and_updates_in_order() {
    let old = scan(vec![
        entry(1, "a", "/w/a", 1),
        entry(3, "c", "/w/c", 1),
        entry(4, "d", "/w/d", 1),
        entry(6, "f", "/w/f", 1),
    ]);
    let new = scan(vec![
        entry(2, "b", "/w/b", 1),
        entry(3, "c", "/w/c", 1),
        entry(4, "d", "/w/d", 2),
        entry(6, "f", "/w/f2", 1),
        entry(8, "h", "/w/h", 1),
    ]);
    let changes = JjTracker::diff(&old, &new);
    let got: Vec<_> = changes.iter().map(summary).collect();
    assert_eq!(
        got,
        vec![
            (1, Some("/w/a".into()), None, Some("/w/a/.jj".into())),
            (2, None, Some("/w/b".into()), Some("/w/b/.jj".into())),
            (4, Some("/w/d".into()), Some("/w/d".into()), Some("/w/d/.jj".into())),
            (6, Some("/w/f".into()), Some("/w/f2".into()), Some("/w/f2/.jj".into())),
            (8, None, Some("/w/h".into()), Some("/w/h/.jj".into())),
        ]
    );
}

#[test]
fn diff_against_nothing() {
    let some = scan(vec![entry(1, "a", "/w/a", 1), entry(2, "b", "/w/b", 1)]);
    let none = scan(vec![]);
    let added = JjTracker::diff(&none, &some);
    assert_eq!(added.len(), 2);
    assert!(added.iter().all(|c| c.old_work_directory_abs_path.is_none()
        && c.new_work_directory_abs_path.is_some()));
    let removed = JjTracker::diff(&some, &none);
    assert_eq!(removed.len(), 2);
    assert!(removed.iter().all(|c| c.old_work_directory_abs_path.is_some()
        && c.new_work_directory_abs_path.is_none()));
}

#[test]
fn applying_a_diff_to_the_old_scan_gives_the_new_scan() {
    let old = scan(vec![
        entry(1, "a", "/w/a", 1),
        entry(3, "c", "/w/c", 1),
        entry(4, "d", "/w/d", 1),
    ]);
    let new = scan(vec![
        entry(2, "b", "/w/b", 1),
        entry(3, "c", "/w/c", 1),
        entry(4, "d", "/w/d", 2),
    ]);
    let changes = JjTracker::diff(&old, &new);
    assert_eq!(fingerprint(&apply(&old, &changes, &new)), fingerprint(&new));
    // Two identifiers on one side only, one on both sides with another scan.
    assert_eq!(changes.len(), 2 + 1);
}

#[test]
fn a_change_that_touches_neither_path_nor_scan_goes_unreported() {
    let old = scan(vec![entry(1, "a", "/w/a", 1)]);
    let mut moved = entry(1, "a", "/w/a", 1);
    moved.jj_dir_abs_path = abs("/elsewhere/.jj");
    let new = scan(vec![moved]);
    assert!(JjTracker::diff(&old, &new).is_empty());
}

#[test]
fn paths_that_differ_only_in_their_writing_are_no_update() {
    let old = scan(vec![entry(1, "a", "/w/a", 1)]);
    let mut same = entry(1, "a", "/w/a", 1);
    same.work_directory_abs_path = abs("/w//a/");
    let new = scan(vec![same]);
    assert!(JjTracker::diff(&old, &new).is_empty());
}

#[test]
fn the_items_are_reached_from_the_root_of_the_library() {
    let tracker = jj::JjTracker::new(true);
    assert!(tracker.enabled());
    let id = jj::ChangeId::new(vec![0xab]);
    assert_eq!(jj::short_change_hash(&id), "po");
    assert_eq!(jj::short_commit_hash(&jj::CommitId::new(vec![0xab])), "ab");
}

#[test]
fn mark_scan_keeps_how_the_paths_are_shown() {
    let mut tracker = JjTracker::new(true);
    let mut shown = entry(1, "a", "/w/a", 1);
    shown.work_directory_abs_path = abs("/w//a/");
    shown.jj_dir_abs_path = abs("/w//a/.jj/");
    tracker.insert(shown);
    tracker.mark_scan(&1, 2);
    let kept = &tracker.repositories()[&1];
    assert_eq!(kept.work_directory_abs_path.display(), "/w//a/");
    assert_eq!(kept.jj_dir_abs_path.display(), "/w//a/.jj/");
    assert_eq!(kept.jj_dir_scan_id, 2);
}

#[test]
fn a_change_shows_its_paths_as_the_records_do() {
    let mut before = entry(1, "a", "/w/a", 1);
    before.work_directory_abs_path = abs("/w//a");
    let mut after = entry(1, "a", "/w/b", 1);
    after.work_directory_abs_path = abs("/w/./b");
    after.jj_dir_abs_path = abs("/w/./b/.jj");
    let changes = JjTracker::diff(&scan(vec![before]), &scan(vec![after]));
    assert_eq!(
        summary(&changes[0]),
        (1, Some("/w//a".into()), Some("/w/./b".into()), Some("/w/./b/.jj".into()))
    );
}
