use std::sync::Arc;

use jj::path::{AbsPath, RelPath};
use jj::store::{BufferFile, JjStore};
use jj::tracker::JjRepositoryEntry;
use jj::vcs::{
    select_backend, Backend, DiffRoute, ProjectVcsBackend, RecalculationRoute, VcsOperation,
};

type Handle = Arc<String>;

fn abs(text: &str) -> AbsPath {
    let components: Vec<String> = std::path::Path::new(text)
        .components()
        .map(|c| c.as_os_str().to_string_lossy().into_owned())
        .collect();
    AbsPath::new(text.to_string(), components)
}

fn entry(id: u64, abs_path: &str) -> JjRepositoryEntry {
    JjRepositoryEntry {
        work_directory_id: id,
        work_directory_abs_path: abs(abs_path),
        work_directory_rel_path: RelPath::empty(),
        jj_dir_abs_path: abs(&format!("{abs_path}/.jj")),
        jj_dir_scan_id: 1,
        covers_entire_project: false,
    }
}

fn file(path: &str) -> BufferFile {
    BufferFile { is_local: true, worktree_id: 10, abs_path: abs(path) }
}

fn open(path: &AbsPath) -> Result<Handle, String> {
    Ok(Arc::new(format!("opened {}", path.display())))
}

fn refuse(path: &AbsPath) -> Result<Handle, String> {
    Err(format!("cannot open {}", path.display()))
}

fn with_repository() -> ProjectVcsBackend<Handle> {
    let mut store = JjStore::new();
    store.track_repository(10, entry(1, "root"));
    ProjectVcsBackend::new(Some(store))
}

const ALL: [VcsOperation; 8] = [
    VcsOperation::OpenUnstagedDiff,
    VcsOperation::OpenUncommittedDiff,
    VcsOperation::BlameBuffer,
    VcsOperation::GetPermalinkToLine,
    VcsOperation::ActiveRepository,
    VcsOperation::Repositories,
    VcsOperation::StatusForBufferId,
    VcsOperation::RecalculateBufferDiffs,
];

#[test]
fn git_serves_everything_unless_jj_is_preferred() {
    for operation in ALL {
        assert_eq!(select_backend(operation, false, true), Backend::Git);
        assert_eq!(select_backend(operation, false, false), Backend::Git);
    }
}

#[test]
fn jj_serves_only_diffs() {
    for operation in [
        VcsOperation::BlameBuffer,
        VcsOperation::GetPermalinkToLine,
        VcsOperation::ActiveRepository,
        VcsOperation::Repositories,
        VcsOperation::StatusForBufferId,
    ] {
        assert_eq!(select_backend(operation, true, true), Backend::Git);
    }
    assert_eq!(select_backend(VcsOperation::OpenUnstagedDiff, true, true), Backend::Jj);
    assert_eq!(select_backend(VcsOperation::OpenUncommittedDiff, true, true), Backend::Jj);
    assert_eq!(select_backend(VcsOperation::OpenUnstagedDiff, true, false), Backend::Git);
    assert_eq!(select_backend(VcsOperation::OpenUncommittedDiff, true, false), Backend::Git);
    assert_eq!(select_backend(VcsOperation::RecalculateBufferDiffs, true, true), Backend::Jj);
    assert_eq!(select_backend(VcsOperation::RecalculateBufferDiffs, true, false), Backend::Git);
}

#[test]
fn jj_is_preferred_when_it_is_there_enabled_and_not_empty() {
    let none: ProjectVcsBackend<Handle> = ProjectVcsBackend::new(None);
    assert!(!none.preferred_jj_backend(true));
    assert!(none.jj_store().is_none());
    let empty: ProjectVcsBackend<Handle> = ProjectVcsBackend::new(Some(JjStore::new()));
    assert!(!empty.preferred_jj_backend(true));
    let full = with_repository();
    assert!(full.preferred_jj_backend(true));
    assert!(!full.preferred_jj_backend(false));
    assert!(full.jj_store().is_some());
}

#[test]
fn a_diff_is_opened_by_jj_for_a_file_that_it_owns() {
    let mut backend = with_repository();
    match backend.open_unstaged_diff(true, Some(&file("root/a.txt")), open) {
        DiffRoute::Jj(Ok(request)) => {
            assert_eq!(request.repository.work_directory_id(), 1);
            assert_eq!(request.repo_path, "a.txt");
        }
        other => panic!("unexpected {other:?}"),
    }
    match backend.open_uncommitted_diff(true, Some(&file("root/b/c.txt")), open) {
        DiffRoute::Jj(Ok(request)) => assert_eq!(request.repo_path, "b/c.txt"),
        other => panic!("unexpected {other:?}"),
    }
}

#[test]
fn a_diff_falls_back_to_git() {
    let mut backend = with_repository();
    assert!(matches!(
        backend.open_unstaged_diff(true, Some(&file("elsewhere/a.txt")), open),
        DiffRoute::Git
    ));
    assert!(matches!(
        backend.open_unstaged_diff(false, Some(&file("root/a.txt")), open),
        DiffRoute::Git
    ));
    assert!(matches!(backend.open_uncommitted_diff(true, None, open), DiffRoute::Git));
    let mut none: ProjectVcsBackend<Handle> = ProjectVcsBackend::new(None);
    assert!(matches!(
        none.open_unstaged_diff(true, Some(&file("root/a.txt")), open),
        DiffRoute::Git
    ));
    // The decision is taken anew each time.
    assert!(matches!(
        backend.open_unstaged_diff(true, Some(&file("root/a.txt")), open),
        DiffRoute::Jj(Ok(_))
    ));
}

#[test]
fn a_failure_of_jj_is_no_reason_to_ask_git() {
    let mut backend = with_repository();
    match backend.open_unstaged_diff(true, Some(&file("root/a.txt")), refuse) {
        DiffRoute::Jj(Err(error)) => assert_eq!(error, "cannot open root"),
        other => panic!("unexpected {other:?}"),
    }
}

fn jobs_of(route: &RecalculationRoute) -> Vec<(u64, u64)> {
    route.jj.iter().map(|(buffer, state)| (*buffer, state.diff)).collect()
}

#[test]
fn a_buffer_without_a_diff_in_jj_is_left_to_git() {
    let mut backend = with_repository();
    let request = match backend.open_unstaged_diff(true, Some(&file("root/a.txt")), open) {
        DiffRoute::Jj(Ok(request)) => request,
        other => panic!("unexpected {other:?}"),
    };
    backend
        .jj_store_mut()
        .expect("a store")
        .track_diff(2, 77, request.repository, request.repo_path);
    // Buffer 2 has a diff in the store; buffers 1 and 3 belong to Git.
    let route = backend.recalculate_buffer_diffs(true, &vec![1, 2, 3, 2]);
    assert_eq!(jobs_of(&route), vec![(2, 77), (2, 77)]);
    assert_eq!(route.git, vec![1, 3]);
}

#[test]
fn every_buffer_is_left_to_git_where_jj_has_no_diff_of_it() {
    let backend = with_repository();
    let route = backend.recalculate_buffer_diffs(true, &vec![1, 2]);
    assert!(route.jj.is_empty());
    assert_eq!(route.git, vec![1, 2]);
    let nothing = backend.recalculate_buffer_diffs(true, &vec![]);
    assert!(nothing.jj.is_empty() && nothing.git.is_empty());
}

#[test]
fn every_buffer_is_left_to_git_where_jj_is_not_preferred() {
    let mut backend = with_repository();
    let request = match backend.open_unstaged_diff(true, Some(&file("root/a.txt")), open) {
        DiffRoute::Jj(Ok(request)) => request,
        other => panic!("unexpected {other:?}"),
    };
    backend
        .jj_store_mut()
        .expect("a store")
        .track_diff(2, 77, request.repository, request.repo_path);
    let disabled = backend.recalculate_buffer_diffs(false, &vec![1, 2]);
    assert!(disabled.jj.is_empty());
    assert_eq!(disabled.git, vec![1, 2]);
    let none: ProjectVcsBackend<Handle> = ProjectVcsBackend::new(None);
    let route = none.recalculate_buffer_diffs(true, &vec![5, 4]);
    assert!(route.jj.is_empty());
    assert_eq!(route.git, vec![5, 4]);
    let empty: ProjectVcsBackend<Handle> = ProjectVcsBackend::new(Some(JjStore::new()));
    assert_eq!(empty.recalculate_buffer_diffs(true, &vec![5, 4]).git, vec![5, 4]);
}
