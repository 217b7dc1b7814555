use std::cell::Cell;
use std::collections::BTreeMap;
use std::sync::Arc;

use jj::cache::WorkspaceCache;
use jj::events::WorktreeStoreEvent;
use jj::path::{AbsPath, RelPath};
use jj::store::{BufferFile, JjRepositoryState, JjStore, RecalculationStep};
use jj::tracker::{JjRepositoryEntry, JjTracker};

fn abs(text: &str) -> AbsPath {
    let components: Vec<String> = std::path::Path::new(text)
        .components()
        .map(|c| c.as_os_str().to_string_lossy().into_owned())
        .collect();
    AbsPath::new(text.to_string(), components)
}

fn entry(id: u64, abs_path: &str) -> JjRepositoryEntry {
    JjRepositoryEntry {
        work_directory_id: id,
        work_directory_abs_path: abs(abs_path),
        work_directory_rel_path: RelPath::empty(),
        jj_dir_abs_path: abs(&format!("{abs_path}/.jj")),
        jj_dir_scan_id: 1,
        covers_entire_project: false,
    }
}

fn file(worktree_id: u64, path: &str) -> BufferFile {
    BufferFile { is_local: true, worktree_id, abs_path: abs(path) }
}

type Handle = Arc<String>;

fn open(path: &AbsPath) -> Result<Handle, String> {
    Ok(Arc::new(format!("opened {}", path.display())))
}

fn refuse(path: &AbsPath) -> Result<Handle, String> {
    Err(format!("cannot open {}", path.display()))
}

fn owner(store: &JjStore<Handle>, f: &BufferFile) -> Option<(u64, String)> {
    store
        .repository_and_path_for_buffer(Some(f))
        .map(|(repo, path)| (repo.work_directory_id(), path))
}

fn ids(store: &JjStore<Handle>) -> Vec<u64> {
    let mut ids: Vec<u64> = store.repositories().iter().map(|r| r.id).collect();
    ids.sort();
    ids
}

const A: u64 = 1;
const B: u64 = 2;

fn nested() -> JjStore<Handle> {
    let mut store = JjStore::new();
    store.track_repository(10, entry(A, "root"));
    store.track_repository(10, entry(B, "root/lib"));
    store
}

#[test]
fn new_store_has_no_repositories() {
    let store: JjStore<Handle> = JjStore::new();
    assert!(!store.has_repositories());
    assert!(store.repositories().is_empty());
    assert_eq!(store.any_repository(), None);
}

#[test]
fn a_file_resolves_to_the_innermost_repository() {
    let store = nested();
    assert_eq!(owner(&store, &file(10, "root/lib/x.txt")), Some((B, "x.txt".to_string())));
    assert_eq!(owner(&store, &file(10, "root/y.txt")), Some((A, "y.txt".to_string())));
}

#[test]
fn the_order_of_tracking_does_not_decide_the_owner() {
    let mut store: JjStore<Handle> = JjStore::new();
    store.track_repository(10, entry(B, "root/sub"));
    store.track_repository(10, entry(A, "root"));
    assert_eq!(owner(&store, &file(10, "root/sub/x")), Some((B, "x".to_string())));
    let mut other: JjStore<Handle> = JjStore::new();
    other.track_repository(10, entry(A, "root"));
    other.track_repository(10, entry(B, "root/sub"));
    assert_eq!(owner(&other, &file(10, "root/sub/x")), Some((B, "x".to_string())));
    assert_eq!(owner(&other, &file(10, "root/sub/deep/er/x")), Some((B, "deep/er/x".to_string())));
}

#[test]
fn a_file_outside_every_repository_has_no_owner() {
    let store = nested();
    assert_eq!(owner(&store, &file(10, "elsewhere/x.txt")), None);
    assert_eq!(owner(&store, &file(10, "rootlib/x.txt")), None);
    assert_eq!(owner(&store, &file(11, "root/lib/x.txt")), None);
    assert!(store.repository_and_path_for_buffer(None).is_none());
    let remote = BufferFile { is_local: false, worktree_id: 10, abs_path: abs("root/lib/x.txt") };
    assert!(store.repository_and_path_for_buffer(Some(&remote)).is_none());
}

#[test]
fn the_root_of_a_repository_is_owned_with_an_empty_path() {
    let store = nested();
    assert_eq!(owner(&store, &file(10, "root/lib")), Some((B, String::new())));
}

#[test]
fn tracked_then_removed_is_absent_from_both_indices() {
    let mut store: JjStore<Handle> = JjStore::new();
    store.track_repository(10, entry(A, "root"));
    assert!(store.has_repositories());
    store.remove_repository(A);
    assert!(!store.has_repositories());
    assert!(store.repositories().is_empty());
    assert_eq!(owner(&store, &file(10, "root/x")), None);
    assert!(store.workspace(A, open).is_none());
}

#[test]
fn removing_one_of_two_keeps_the_other() {
    let mut store = nested();
    store.remove_repository(B);
    assert_eq!(ids(&store), vec![A]);
    assert_eq!(owner(&store, &file(10, "root/lib/x.txt")), Some((A, "lib/x.txt".to_string())));
    store.remove_repository(B);
    assert_eq!(ids(&store), vec![A]);
}

#[test]
fn tracking_after_removing_wins() {
    let mut store: JjStore<Handle> = JjStore::new();
    store.track_repository(10, entry(A, "root"));
    store.remove_repository(A);
    store.track_repository(10, entry(A, "root"));
    assert_eq!(ids(&store), vec![A]);
    assert_eq!(owner(&store, &file(10, "root/x")), Some((A, "x".to_string())));
}

#[test]
fn tracking_again_replaces_the_record() {
    let mut store: JjStore<Handle> = JjStore::new();
    store.track_repository(10, entry(A, "root"));
    store.track_repository(10, entry(A, "moved"));
    assert_eq!(ids(&store), vec![A]);
    assert_eq!(owner(&store, &file(10, "root/x")), None);
    assert_eq!(owner(&store, &file(10, "moved/x")), Some((A, "x".to_string())));
    store.track_repository(11, entry(A, "moved"));
    assert_eq!(owner(&store, &file(10, "moved/x")), None);
    assert_eq!(owner(&store, &file(11, "moved/x")), Some((A, "x".to_string())));
    let shown = store.repositories();
    assert_eq!(shown.len(), 1);
    assert_eq!((shown[0].id, shown[0].worktree_id, shown[0].path.as_str()), (A, 11, "moved"));
}

#[test]
fn removing_a_worktree_removes_its_repositories() {
    let mut store = nested();
    store.track_repository(20, entry(3, "other"));
    store.remove_worktree(10);
    assert_eq!(ids(&store), vec![3]);
    assert_eq!(owner(&store, &file(10, "root/lib/x.txt")), None);
    store.remove_worktree(10);
    assert_eq!(ids(&store), vec![3]);
}

#[test]
fn from_entry_records_the_depth_of_the_path() {
    let state = JjRepositoryState::from_entry(4, entry(9, "/a/b/c"));
    assert_eq!(state.path_depth(), 4);
    assert_eq!(state.worktree_id(), 4);
    assert_eq!(state.work_directory_id(), 9);
    assert_eq!(state.display_name(), "/a/b/c");
    assert_eq!(state.relative_repo_path(&abs("/a/b/c/d/e")), Some("d/e".to_string()));
    assert_eq!(state.relative_repo_path(&abs("/a/b/x")), None);
}

#[test]
fn the_handle_is_opened_once_and_kept() {
    let mut store = nested();
    let opened = Cell::new(0);
    let counting = |path: &AbsPath| {
        opened.set(opened.get() + 1);
        open(path)
    };
    let first = store.workspace(A, counting).expect("tracked").expect("opened");
    let second = store.workspace(A, counting).expect("tracked").expect("opened");
    assert!(Arc::ptr_eq(&first, &second));
    assert_eq!(opened.get(), 1);
    assert_eq!(first.as_str(), "opened root");
}

#[test]
fn a_failure_to_open_is_not_kept() {
    let mut store = nested();
    assert_eq!(store.workspace(A, refuse), Some(Err("cannot open root".to_string())));
    let handle = store.workspace(A, open).expect("tracked").expect("opened");
    assert_eq!(handle.as_str(), "opened root");
    let again = store.workspace(A, refuse).expect("tracked").expect("kept");
    assert!(Arc::ptr_eq(&handle, &again));
}

#[test]
fn tracking_again_invalidates_the_handle() {
    let mut store = nested();
    let first = store.workspace(A, open).expect("tracked").expect("opened");
    store.track_repository(10, entry(A, "moved"));
    let second = store.workspace(A, open).expect("tracked").expect("opened");
    assert!(!Arc::ptr_eq(&first, &second));
    assert_eq!(second.as_str(), "opened moved");
}

#[test]
fn a_cache_hands_out_the_same_handle_until_it_is_invalidated() {
    let mut cache: WorkspaceCache<Handle> = WorkspaceCache::new();
    assert!(!cache.is_initialized());
    assert!(cache.get().is_none());
    let failed: Result<Handle, String> = cache.get_or_init(|| Err("no".to_string()));
    assert_eq!(failed, Err("no".to_string()));
    assert!(!cache.is_initialized());
    let first: Handle = cache
        .get_or_init(|| Ok::<Handle, String>(Arc::new("one".to_string())))
        .unwrap();
    let second: Handle = cache
        .get_or_init(|| Ok::<Handle, String>(Arc::new("two".to_string())))
        .unwrap();
    assert!(Arc::ptr_eq(&first, &second));
    assert!(Arc::ptr_eq(&first, cache.get().unwrap()));
    cache.invalidate();
    let third: Handle = cache
        .get_or_init(|| Ok::<Handle, String>(Arc::new("three".to_string())))
        .unwrap();
    assert!(!Arc::ptr_eq(&first, &third));
    assert_eq!(third.as_str(), "three");
}

#[test]
fn open_diff_is_unavailable_without_an_owner() {
    let mut store = nested();
    assert!(store.open_unstaged_diff(Some(&file(10, "elsewhere/x")), open).is_none());
    assert!(store.open_unstaged_diff(None, open).is_none());
    assert!(store.open_uncommitted_diff(Some(&file(10, "elsewhere/x")), open).is_none());
}

#[test]
fn open_diff_names_the_owner_and_the_path() {
    let mut store = nested();
    let request = store
        .open_unstaged_diff(Some(&file(10, "root/lib/x.txt")), open)
        .expect("owned")
        .expect("opened");
    assert_eq!(request.repository.work_directory_id(), B);
    assert_eq!(request.repo_path, "x.txt");
    assert_eq!(request.workspace.as_str(), "opened root/lib");
    let other = store
        .open_uncommitted_diff(Some(&file(10, "root/y.txt")), open)
        .expect("owned")
        .expect("opened");
    assert_eq!(other.repository.work_directory_id(), A);
    assert_eq!(other.repo_path, "y.txt");
}

#[test]
fn open_diff_hands_on_the_failure_to_open() {
    let mut store = nested();
    let failed = store.open_unstaged_diff(Some(&file(10, "root/y.txt")), refuse).expect("owned");
    assert_eq!(failed.err(), Some("cannot open root".to_string()));
}

#[test]
fn recalculate_selects_the_buffers_with_a_diff() {
    let mut store = nested();
    assert!(store.recalculate_buffer_diffs(&vec![1, 2, 3]).is_none());
    let request = store
        .open_unstaged_diff(Some(&file(10, "root/lib/x.txt")), open)
        .unwrap()
        .unwrap();
    store.track_diff(2, 77, request.repository, request.repo_path);
    let jobs = store.recalculate_buffer_diffs(&vec![3, 2, 1, 2]).expect("jobs");
    let got: Vec<(u64, u64, String)> =
        jobs.iter().map(|(b, s)| (*b, s.diff, s.repo_path.clone())).collect();
    assert_eq!(got, vec![(2, 77, "x.txt".to_string()), (2, 77, "x.txt".to_string())]);
    assert!(store.recalculate_buffer_diffs(&vec![]).is_none());
}

#[test]
fn recalculate_fetches_for_a_live_diff() {
    let mut store = nested();
    let request = store
        .open_unstaged_diff(Some(&file(10, "root/lib/x.txt")), open)
        .unwrap()
        .unwrap();
    store.track_diff(2, 77, request.repository, request.repo_path);
    let jobs = store.recalculate_buffer_diffs(&vec![2]).unwrap();
    let (buffer, state) = &jobs[0];
    match store.recalculate_diff_for_job(*buffer, state, true, open) {
        RecalculationStep::Fetch(prepared) => {
            assert_eq!(prepared.repository.work_directory_id(), B);
            assert_eq!(prepared.repo_path, "x.txt");
            assert!(Arc::ptr_eq(&prepared.workspace, &request.workspace));
        }
        other => panic!("unexpected step {other:?}"),
    }
    assert!(store.recalculate_buffer_diffs(&vec![2]).is_some());
}

#[test]
fn recalculate_drops_the_binding_of_a_discarded_diff() {
    let mut store = nested();
    let request = store
        .open_unstaged_diff(Some(&file(10, "root/lib/x.txt")), open)
        .unwrap()
        .unwrap();
    store.track_diff(2, 77, request.repository, request.repo_path);
    let jobs = store.recalculate_buffer_diffs(&vec![2]).unwrap();
    let (buffer, state) = &jobs[0];
    let step = store.recalculate_diff_for_job(*buffer, state, false, open);
    assert!(matches!(step, RecalculationStep::BindingDropped));
    assert!(store.recalculate_buffer_diffs(&vec![2]).is_none());
}

#[test]
fn recalculate_hands_on_the_failure_to_open() {
    let mut store = nested();
    let request = store
        .open_unstaged_diff(Some(&file(10, "root/lib/x.txt")), open)
        .unwrap()
        .unwrap();
    store.track_diff(2, 77, request.repository, request.repo_path);
    // Tracking the same record again empties the cache and keeps the binding current.
    store.track_repository(10, entry(B, "root/lib"));
    let jobs = store.recalculate_buffer_diffs(&vec![2]).unwrap();
    let (buffer, state) = &jobs[0];
    match store.recalculate_diff_for_job(*buffer, state, true, refuse) {
        RecalculationStep::Failed(error) => assert_eq!(error, "cannot open root/lib"),
        other => panic!("unexpected step {other:?}"),
    }
    assert!(store.recalculate_buffer_diffs(&vec![2]).is_some());
}

#[test]
fn recalculate_drops_the_binding_of_a_repository_that_is_gone() {
    // The worktree holds two repositories; a buffer gets a diff against one of them.
    let mut tracker = JjTracker::new(true);
    tracker.insert(entry(A, "root"));
    tracker.insert(entry(B, "root/lib"));
    let mut store: JjStore<Handle> = JjStore::new();
    let before: BTreeMap<u64, JjRepositoryEntry> =
        tracker.repositories().iter().map(|(id, e)| (*id, e.clone())).collect();
    store.add_worktree_repositories(10, Some(before.values().cloned().collect()));
    let request = store
        .open_unstaged_diff(Some(&file(10, "root/lib/x.txt")), open)
        .unwrap()
        .unwrap();
    store.track_diff(5, 77, request.repository, request.repo_path);

    // The repository disappears from disk, which the next scan confirms.
    tracker.retain_existing(|repo| repo.work_directory_id != B);
    let changes = JjTracker::diff(&before, tracker.repositories());
    assert_eq!(changes.len(), 1);
    store.apply_repository_changes(10, &changes, Some(tracker.repositories()));
    assert_eq!(ids(&store), vec![A]);

    // The binding still names the repository; bringing it up to date drops it.
    let jobs = store.recalculate_buffer_diffs(&vec![5]).expect("the binding is still there");
    let (buffer, state) = &jobs[0];
    let step = store.recalculate_diff_for_job(*buffer, state, true, open);
    assert!(matches!(step, RecalculationStep::BindingDropped));
    assert!(store.recalculate_buffer_diffs(&vec![5]).is_none());
}

#[test]
fn events_keep_both_indices_in_step() {
    let mut store: JjStore<Handle> = JjStore::new();
    store.on_worktree_store_event(WorktreeStoreEvent::WorktreeAdded {
        worktree_id: 10,
        entries: Some(vec![entry(A, "root"), entry(B, "root/lib")]),
    });
    store.on_worktree_store_event(WorktreeStoreEvent::WorktreeAdded {
        worktree_id: 20,
        entries: None,
    });
    assert_eq!(ids(&store), vec![A, B]);
    assert_eq!(owner(&store, &file(10, "root/lib/x")), Some((B, "x".to_string())));

    let old: BTreeMap<u64, JjRepositoryEntry> =
        vec![(A, entry(A, "root")), (B, entry(B, "root/lib"))].into_iter().collect();
    let new: BTreeMap<u64, JjRepositoryEntry> =
        vec![(B, entry(B, "root/lib2")), (3, entry(3, "root/more"))].into_iter().collect();
    let changes = JjTracker::diff(&old, &new);
    store.on_worktree_store_event(WorktreeStoreEvent::WorktreeUpdatedJjRepositories {
        worktree_id: 10,
        changes,
        current: Some(new),
    });
    assert_eq!(ids(&store), vec![B, 3]);
    assert_eq!(owner(&store, &file(10, "root/y")), None);
    assert_eq!(owner(&store, &file(10, "root/lib2/y")), Some((B, "y".to_string())));
    assert_eq!(owner(&store, &file(10, "root/more/y")), Some((3, "y".to_string())));

    store.on_worktree_store_event(WorktreeStoreEvent::Other);
    assert_eq!(ids(&store), vec![B, 3]);
    store.on_worktree_store_event(WorktreeStoreEvent::WorktreeReleased(10));
    assert!(!store.has_repositories());
    store.on_worktree_store_event(WorktreeStoreEvent::WorktreeRemoved(10));
    assert!(!store.has_repositories());
}

#[test]
fn a_change_whose_record_cannot_be_fetched_changes_nothing() {
    let mut store: JjStore<Handle> = JjStore::new();
    let old: BTreeMap<u64, JjRepositoryEntry> = BTreeMap::new();
    let new: BTreeMap<u64, JjRepositoryEntry> = vec![(A, entry(A, "root"))].into_iter().collect();
    let changes = JjTracker::diff(&old, &new);
    store.apply_repository_changes(10, &changes, None);
    assert!(!store.has_repositories());
    store.apply_repository_changes(10, &changes, Some(&old));
    assert!(!store.has_repositories());
    store.apply_repository_changes(10, &changes, Some(&new));
    assert_eq!(ids(&store), vec![A]);
}

#[test]
fn refresh_tracks_the_repositories_of_every_worktree() {
    let mut store: JjStore<Handle> = JjStore::new();
    store.refresh_existing_worktrees(vec![
        (10, Some(vec![entry(A, "root")])),
        (20, None),
        (30, Some(vec![entry(B, "other"), entry(3, "other/in")])),
    ]);
    assert_eq!(ids(&store), vec![A, B, 3]);
    assert_eq!(owner(&store, &file(30, "other/in/x")), Some((3, "x".to_string())));
}

#[test]
fn the_history_is_that_of_the_named_repository_or_of_any() {
    let mut store = nested();
    let named = store.recent_commits(Some(B), open).expect("tracked").expect("opened");
    assert_eq!(named.as_str(), "opened root/lib");
    assert!(store.recent_commits(Some(99), open).is_none());
    let any = store.recent_commits(None, open).expect("some repository").expect("opened");
    assert!(any.as_str() == "opened root" || any.as_str() == "opened root/lib");
    let mut empty: JjStore<Handle> = JjStore::new();
    assert!(empty.recent_commits(None, open).is_none());
}

#[test]
fn changes_are_made_in_the_named_repository() {
    let mut store = nested();
    let edit = store.edit_change(A, open).expect("tracked").expect("opened");
    assert_eq!(edit.as_str(), "opened root");
    let rename = store.rename_change(A, open).expect("tracked").expect("kept");
    assert!(Arc::ptr_eq(&edit, &rename));
    assert!(store.edit_change(99, open).is_none());
    assert!(store.rename_change(99, open).is_none());
}

#[test]
fn the_diff_of_a_buffer_is_found_by_its_identifier() {
    let mut store = nested();
    assert!(store.diff_of_buffer(1).is_none());
    let request = store
        .open_unstaged_diff(Some(&file(10, "root/lib/x.txt")), open)
        .unwrap()
        .unwrap();
    store.track_diff(1, 77, request.repository, request.repo_path);
    let found = store.diff_of_buffer(1).expect("a diff");
    assert_eq!((found.diff, found.repo_path.as_str()), (77, "x.txt"));
    assert_eq!(found.repository.work_directory_id(), B);
    assert!(store.diff_of_buffer(2).is_none());
}
