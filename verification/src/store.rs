//! The store of tracked repositories: which repositories each worktree has,
//! which of them owns a file, and which buffers have a diff against one.

use std::collections::HashMap;
use vstd::prelude::*;

use crate::cache::WorkspaceCache;
use crate::path::repo_relative_text;
use crate::path::AbsPath;
use crate::store_model::binding_is_current;
use crate::store_model::consistent;
use crate::store_model::depth_recorded;
use crate::store_model::empty_store;
use crate::store_model::insertion_index;
use crate::store_model::is_workspace_outcome;
use crate::store_model::jobs_for;
use crate::store_model::lemma_without_worktree_consistent;
use crate::store_model::owner_in;
use crate::store_model::resolution;
use crate::store_model::summary_of;
use crate::store_model::with_binding;
use crate::store_model::without_binding;
use crate::store_model::without_listed;
use crate::store_model::without_worktree;
use crate::store_model::RepositorySummaryView;
use crate::store_model::inserted_by_depth;
use crate::store_model::lemma_insertion_index;
use crate::store_model::lemma_with_repository_consistent;
use crate::store_model::lemma_without_repository_consistent;
use crate::store_model::with_repository;
use crate::store_model::without_id;
use crate::store_model::without_repository;
use crate::store_model::worktree_list_consistent;
use crate::store_model::BufferFileView;
use crate::store_model::DiffStateView;
use crate::store_model::RepositoryStateView;
use crate::store_model::StoreView;
use crate::tracker::JjRepositoryEntry;
use crate::tracker::ProjectEntryId;

verus! {

/// Identifies a worktree.
pub type WorktreeId = u64;

/// Identifies a buffer.
pub type BufferId = u64;

/// Identifies a diff object that lives outside the store. The store never
/// keeps such an object alive; whether it still exists is asked of its owner.
pub type DiffId = u64;

/// A tracked repository.
#[derive(Debug)]
pub struct JjRepositoryState {
    worktree_id: WorktreeId,
    work_directory_id: ProjectEntryId,
    work_directory_abs_path: AbsPath,
    path_depth: usize,
}

impl View for JjRepositoryState {
    type V = RepositoryStateView;

    closed spec fn view(&self) -> RepositoryStateView {
        RepositoryStateView {
            worktree_id: self.worktree_id,
            work_directory_id: self.work_directory_id,
            work_directory_abs_path: self.work_directory_abs_path@,
            display_path: self.work_directory_abs_path.display_text(),
            path_depth: self.path_depth,
        }
    }
}

impl Clone for JjRepositoryState {
    fn clone(&self) -> (copy: Self)
        ensures
            copy@ == self@,
    {
        JjRepositoryState {
            worktree_id: self.worktree_id,
            work_directory_id: self.work_directory_id,
            work_directory_abs_path: self.work_directory_abs_path.clone(),
            path_depth: self.path_depth,
        }
    }
}

/// What tracking `entry` in the worktree `worktree_id` records of it.
pub open spec fn state_of_entry(worktree_id: WorktreeId, entry: JjRepositoryEntry) -> RepositoryStateView {
    RepositoryStateView {
        worktree_id,
        work_directory_id: entry.work_directory_id,
        work_directory_abs_path: entry.work_directory_abs_path@,
        display_path: entry.work_directory_abs_path.display_text(),
        path_depth: entry.work_directory_abs_path@.len() as usize,
    }
}

impl JjRepositoryState {
    /// Records the repository `entry` of the worktree `worktree_id`.
    pub fn from_entry(worktree_id: WorktreeId, entry: JjRepositoryEntry) -> (state: Self)
        ensures
            state@ == state_of_entry(worktree_id, entry),
            depth_recorded(state@),
    {
        let path_depth = entry.work_directory_abs_path.depth();
        JjRepositoryState {
            worktree_id,
            work_directory_id: entry.work_directory_id,
            work_directory_abs_path: entry.work_directory_abs_path,
            path_depth,
        }
    }

    /// The worktree that the repository lies in.
    pub fn worktree_id(&self) -> (id: WorktreeId)
        ensures
            id == self@.worktree_id,
    {
        self.worktree_id
    }

    /// The identifier of the repository's working directory.
    pub fn work_directory_id(&self) -> (id: ProjectEntryId)
        ensures
            id == self@.work_directory_id,
    {
        self.work_directory_id
    }

    /// The number of components of the path of the working directory.
    pub fn path_depth(&self) -> (depth: usize)
        ensures
            depth == self@.path_depth,
    {
        self.path_depth
    }

    /// The path of the working directory.
    pub fn work_directory_path(&self) -> (path: &AbsPath)
        ensures
            path@ == self@.work_directory_abs_path,
            path.display_text() == self@.display_path,
    {
        &self.work_directory_abs_path
    }

    /// The text that shows the repository.
    pub fn display_name(&self) -> (name: String)
        ensures
            name@ == self@.display_path,
    {
        self.work_directory_abs_path.display().clone()
    }

    /// The path inside this repository of the file at `file_abs_path`, if the
    /// file lies under the repository's root.
    pub fn relative_repo_path(&self, file_abs_path: &AbsPath) -> (relative: Option<String>)
        ensures
            match relative {
                Some(text) => repo_relative_text(file_abs_path@, self@.work_directory_abs_path)
                    == Some(text@),
                None => repo_relative_text(file_abs_path@, self@.work_directory_abs_path) is None,
            },
    {
        file_abs_path.relative_to(&self.work_directory_abs_path)
    }

    /// Whether `other` records the same repository in every respect.
    pub fn same_state(&self, other: &JjRepositoryState) -> (same: bool)
        ensures
            same == (self@ == other@),
    {
        self.worktree_id == other.worktree_id && self.work_directory_id == other.work_directory_id
            && self.path_depth == other.path_depth && self.work_directory_abs_path.same_path(
            &other.work_directory_abs_path,
        ) && *self.work_directory_abs_path.display() == *other.work_directory_abs_path.display()
    }
}

/// What a list of tracked repositories is.
pub open spec fn state_views(list: Seq<JjRepositoryState>) -> Seq<RepositoryStateView> {
    Seq::new(list.len(), |i: int| list[i]@)
}

/// Puts `state` into `list`, which is ordered by depth, behind every repository
/// that is at least as deep.
fn insert_by_depth(list: &mut Vec<JjRepositoryState>, state: JjRepositoryState)
    requires
        crate::store_model::deepest_first(state_views(old(list)@)),
    ensures
        state_views(final(list)@) == inserted_by_depth(state_views(old(list)@), state@),
{
    let ghost before = state_views(list@);
    let depth = state.path_depth;
    let mut place: usize = 0;
    proof {
        lemma_insertion_index(before, depth);
    }
    while place < list.len() && list[place].path_depth >= depth
        invariant
            place <= list.len(),
            before == state_views(list@),
            depth == state@.path_depth,
            place <= insertion_index(before, depth) <= before.len(),
            forall|i: int|
                0 <= i < insertion_index(before, depth) ==> (#[trigger] before[i]).path_depth
                    >= depth,
            forall|i: int|
                insertion_index(before, depth) <= i < before.len() ==> (
                #[trigger] before[i]).path_depth < depth,
        decreases list.len() - place,
    {
        proof {
            assert(before[place as int].path_depth >= depth);
        }
        place += 1;
    }
    proof {
        if place < list.len() {
            assert(before[place as int].path_depth < depth);
        }
        assert(place == insertion_index(before, depth));
    }
    list.insert(place, state);
    proof {
        assert(state_views(list@) =~= before.insert(place as int, state@));
    }
}

/// Takes the repository of the identifier `id` out of `list`.
fn remove_id(list: &mut Vec<JjRepositoryState>, id: ProjectEntryId)
    ensures
        state_views(final(list)@) == without_id(state_views(old(list)@), id),
{
    let ghost before = state_views(list@);
    let ghost keep = |state: RepositoryStateView| state.work_directory_id != id;
    let mut i: usize = 0;
    let ghost mut seen: int = 0;
    proof {
        assert(before.take(0).filter(keep) =~= Seq::<RepositoryStateView>::empty());
        assert(state_views(list@) =~= before.take(0).filter(keep) + before.skip(0));
    }
    while i < list.len()
        invariant
            i <= list.len(),
            0 <= seen <= before.len(),
            keep == |state: RepositoryStateView| state.work_directory_id != id,
            i == before.take(seen).filter(keep).len(),
            state_views(list@) == before.take(seen).filter(keep) + before.skip(seen),
        decreases list.len() - i,
    {
        proof {
            let now = state_views(list@);
            assert(now[i as int] == before.skip(seen)[0]);
            assert(before.take(seen + 1).drop_last() =~= before.take(seen));
            assert(before.take(seen + 1).last() == before[seen]);
            reveal_with_fuel(Seq::filter, 2);
        }
        if list[i].work_directory_id == id {
            let ghost current = state_views(list@);
            list.remove(i);
            proof {
                assert(state_views(list@) =~= current.remove(i as int));
                assert(state_views(list@) =~= before.take(seen + 1).filter(keep) + before.skip(
                    seen + 1,
                ));
                seen = seen + 1;
            }
        } else {
            proof {
                assert(state_views(list@) =~= before.take(seen + 1).filter(keep) + before.skip(
                    seen + 1,
                ));
                seen = seen + 1;
            }
            i += 1;
        }
    }
    proof {
        let now = state_views(list@);
        assert(now.len() == i);
        assert(before.skip(seen).len() == 0);
        assert(before.take(seen) =~= before);
        assert(now =~= before.filter(keep));
    }
}

/// The association of a buffer with its diff.
#[derive(Debug)]
pub struct JjDiffState {
    pub diff: DiffId,
    pub repository: JjRepositoryState,
    pub repo_path: String,
}

impl View for JjDiffState {
    type V = DiffStateView;

    open spec fn view(&self) -> DiffStateView {
        DiffStateView { diff: self.diff, repository: self.repository@, repo_path: self.repo_path@ }
    }
}

impl Clone for JjDiffState {
    fn clone(&self) -> (copy: Self)
        ensures
            copy@ == self@,
    {
        JjDiffState {
            diff: self.diff,
            repository: self.repository.clone(),
            repo_path: self.repo_path.clone(),
        }
    }
}

/// What is known of the file behind a buffer.
#[derive(Debug)]
pub struct BufferFile {
    pub is_local: bool,
    pub worktree_id: WorktreeId,
    pub abs_path: AbsPath,
}

impl View for BufferFile {
    type V = BufferFileView;

    open spec fn view(&self) -> BufferFileView {
        BufferFileView {
            is_local: self.is_local,
            worktree_id: self.worktree_id,
            abs_path: self.abs_path@,
        }
    }
}

/// What is known of a file that may be absent.
pub open spec fn optional_file_view(file: Option<&BufferFile>) -> Option<BufferFileView> {
    match file {
        Some(f) => Some(f@),
        None => None,
    }
}

/// The store of tracked repositories.
pub struct JjStore<H> {
    repositories_by_worktree: HashMap<WorktreeId, Vec<JjRepositoryState>>,
    repositories_by_id: HashMap<ProjectEntryId, JjRepositoryState>,
    diffs_by_buffer: HashMap<BufferId, JjDiffState>,
    workspaces: HashMap<ProjectEntryId, WorkspaceCache<H>>,
}

impl<H> View for JjStore<H> {
    type V = StoreView<H>;

    closed spec fn view(&self) -> StoreView<H> {
        StoreView {
            by_worktree: self.repositories_by_worktree@.map_values(
                |list: Vec<JjRepositoryState>| state_views(list@),
            ),
            by_id: self.repositories_by_id@.map_values(|state: JjRepositoryState| state@),
            bindings: self.diffs_by_buffer@.map_values(|binding: JjDiffState| binding@),
            workspaces: self.workspaces@.map_values(|cache: WorkspaceCache<H>| cache.cached()),
        }
    }
}

impl<H> JjStore<H> {
    /// Whether the two indices agree.
    pub open spec fn well_formed(&self) -> bool {
        consistent(self@)
    }

    /// A store that tracks nothing.
    pub fn new() -> (store: Self)
        ensures
            store@ == empty_store::<H>(),
            store.well_formed(),
    {
        let store = JjStore {
            repositories_by_worktree: HashMap::new(),
            repositories_by_id: HashMap::new(),
            diffs_by_buffer: HashMap::new(),
            workspaces: HashMap::new(),
        };
        proof {
            assert(store@.by_worktree =~= Map::empty());
            assert(store@.by_id =~= Map::empty());
            assert(store@.bindings =~= Map::empty());
            assert(store@.workspaces =~= Map::empty());
        }
        store
    }

    /// Stops tracking the repository `work_directory_id`: it leaves both
    /// indices, and its worktree leaves the store where it has no other
    /// repository.
    pub fn remove_repository(&mut self, work_directory_id: ProjectEntryId)
        requires
            old(self).well_formed(),
        ensures
            final(self)@ == without_repository(old(self)@, work_directory_id),
            final(self).well_formed(),
    {
        let ghost before = self@;
        proof {
            lemma_without_repository_consistent(before, work_directory_id);
        }
        match self.repositories_by_id.remove(&work_directory_id) {
            Some(state) => {
                self.workspaces.remove(&work_directory_id);
                let worktree_id = state.worktree_id;
                proof {
                    assert(before.by_id[work_directory_id] == state@);
                    assert(self@.by_id =~= before.by_id.remove(work_directory_id));
                    assert(self@.workspaces =~= before.workspaces.remove(work_directory_id));
                }
                match self.repositories_by_worktree.remove(&worktree_id) {
                    Some(repos) => {
                        let mut repos = repos;
                        remove_id(&mut repos, work_directory_id);
                        if repos.len() > 0 {
                            self.repositories_by_worktree.insert(worktree_id, repos);
                            proof {
                                assert(self@.by_worktree =~= before.by_worktree.insert(
                                    worktree_id,
                                    without_id(before.by_worktree[worktree_id], work_directory_id),
                                ));
                            }
                        } else {
                            proof {
                                assert(self@.by_worktree =~= before.by_worktree.remove(
                                    worktree_id,
                                ));
                            }
                        }
                    },
                    None => {
                        proof {
                            assert(self@.by_worktree =~= before.by_worktree);
                        }
                    },
                }
                proof {
                    assert(self@.bindings =~= before.bindings);
                }
            },
            None => {
                proof {
                    assert(self@.by_id =~= before.by_id);
                    assert(self@.by_worktree =~= before.by_worktree);
                    assert(self@.bindings =~= before.bindings);
                    assert(self@.workspaces =~= before.workspaces);
                }
            },
        }
    }

    /// Tracks the repository `entry` of the worktree `worktree_id`, in place
    /// of what may be tracked under the same identifier. The repository enters
    /// the list of its worktree behind every repository that is at least as
    /// deep, so that the list stays ordered with the deepest first; no handle
    /// is open for it.
    pub fn track_repository(&mut self, worktree_id: WorktreeId, entry: JjRepositoryEntry)
        requires
            old(self).well_formed(),
        ensures
            final(self)@ == with_repository(old(self)@, state_of_entry(worktree_id, entry)),
            final(self).well_formed(),
    {
        let ghost before = self@;
        let state = JjRepositoryState::from_entry(worktree_id, entry);
        let id = state.work_directory_id;
        proof {
            lemma_with_repository_consistent(before, state@);
        }
        self.remove_repository(id);
        let ghost cleared = self@;
        self.repositories_by_id.insert(id, state.clone());
        self.workspaces.insert(id, WorkspaceCache::new());
        let repos = self.repositories_by_worktree.remove(&worktree_id);
        let mut repos = match repos {
            Some(repos) => repos,
            None => Vec::new(),
        };
        proof {
            if cleared.by_worktree.contains_key(worktree_id) {
                assert(worktree_list_consistent(cleared, worktree_id));
                assert(state_views(repos@) == cleared.by_worktree[worktree_id]);
            } else {
                assert(state_views(repos@) =~= Seq::<RepositoryStateView>::empty());
            }
        }
        insert_by_depth(&mut repos, state);
        self.repositories_by_worktree.insert(worktree_id, repos);
        proof {
            let after = with_repository(before, state@);
            assert(self@.by_id =~= after.by_id);
            assert(self@.workspaces =~= after.workspaces);
            assert(self@.by_worktree =~= after.by_worktree);
            assert(self@.bindings =~= after.bindings);
        }
    }

    /// Stops tracking the worktree `worktree_id` and every repository of it.
    pub fn remove_worktree(&mut self, worktree_id: WorktreeId)
        requires
            old(self).well_formed(),
        ensures
            final(self)@ == without_worktree(old(self)@, worktree_id),
            final(self).well_formed(),
    {
        let ghost before = self@;
        proof {
            lemma_without_worktree_consistent(before, worktree_id);
        }
        match self.repositories_by_worktree.remove(&worktree_id) {
            Some(repos) => {
                let ghost list = state_views(repos@);
                proof {
                    assert(list == before.by_worktree[worktree_id]);
                    assert(self@.by_worktree =~= before.by_worktree.remove(worktree_id));
                    assert(list.take(0) =~= Seq::<RepositoryStateView>::empty());
                    assert(self@.by_id =~= without_listed(before, list.take(0)).by_id);
                    assert(self@.workspaces =~= without_listed(before, list.take(0)).workspaces);
                }
                let mut i: usize = 0;
                while i < repos.len()
                    invariant
                        i <= repos.len(),
                        list == state_views(repos@),
                        self@.by_worktree == before.by_worktree.remove(worktree_id),
                        self@.bindings == before.bindings,
                        self@.by_id == without_listed(before, list.take(i as int)).by_id,
                        self@.workspaces == without_listed(before, list.take(i as int)).workspaces,
                    decreases repos.len() - i,
                {
                    let ghost current = self@;
                    let id = repos[i].work_directory_id;
                    self.repositories_by_id.remove(&id);
                    self.workspaces.remove(&id);
                    proof {
                        let upto = list.take(i + 1);
                        assert(upto.drop_last() =~= list.take(i as int));
                        assert(upto.last() == list[i as int]);
                        assert(self@.by_id =~= current.by_id.remove(id));
                        assert(self@.workspaces =~= current.workspaces.remove(id));
                        assert(self@.by_worktree =~= current.by_worktree);
                        assert(self@.bindings =~= current.bindings);
                    }
                    i += 1;
                }
                proof {
                    assert(list.take(repos.len() as int) =~= list);
                }
            },
            None => {
                proof {
                    assert(self@.by_id =~= before.by_id);
                    assert(self@.by_worktree =~= before.by_worktree);
                    assert(self@.bindings =~= before.bindings);
                    assert(self@.workspaces =~= before.workspaces);
                }
            },
        }
    }

    /// The repository that owns the file behind a buffer, with the file's path
    /// inside it: the first repository in the list of the file's worktree,
    /// which has the deepest first, under whose root the file lies. There is
    /// none for a buffer without a file and for a file that is not local.
    pub fn repository_and_path_for_buffer(&self, file: Option<&BufferFile>) -> (owner: Option<
        (JjRepositoryState, String),
    >)
        ensures
            match owner {
                Some((repository, repo_path)) => resolution(self@, optional_file_view(file))
                    == Some((repository@, repo_path@)),
                None => resolution(self@, optional_file_view(file)) is None,
            },
    {
        let known = match file {
            Some(known) => known,
            None => {
                return None;
            },
        };
        if !known.is_local {
            return None;
        }
        let repositories = match self.repositories_by_worktree.get(&known.worktree_id) {
            Some(repositories) => repositories,
            None => {
                return None;
            },
        };
        let ghost list = state_views(repositories@);
        let mut i: usize = 0;
        proof {
            assert(list.skip(0) =~= list);
        }
        while i < repositories.len()
            invariant
                i <= repositories.len(),
                file == Some(known),
                known.is_local,
                self.repositories_by_worktree@.contains_key(known.worktree_id),
                self.repositories_by_worktree@[known.worktree_id] == *repositories,
                list == state_views(repositories@),
                owner_in(list, known.abs_path@) == owner_in(list.skip(i as int), known.abs_path@),
            decreases repositories.len() - i,
        {
            let repository = &repositories[i];
            proof {
                let rest = list.skip(i as int);
                assert(rest[0] == repository@);
                assert(rest.drop_first() =~= list.skip(i + 1));
            }
            match repository.relative_repo_path(&known.abs_path) {
                Some(repo_path) => {
                    let found = repository.clone();
                    proof {
                        let rest = list.skip(i as int);
                        assert(owner_in(rest, known.abs_path@) == Some((rest[0], repo_path@)));
                        assert(self@.by_worktree[known.worktree_id] == list);
                    }
                    return Some((found, repo_path));
                },
                None => {},
            }
            i += 1;
        }
        None
    }

    /// The path of the working directory of the tracked repository `id`.
    pub closed spec fn work_directory_path(&self, id: ProjectEntryId) -> AbsPath {
        self.repositories_by_id@[id].work_directory_abs_path
    }

    /// The path that is handed to whoever opens a handle is the path that the
    /// store shows for the repository.
    pub proof fn lemma_work_directory_path(&self, id: ProjectEntryId)
        requires
            self@.by_id.contains_key(id),
        ensures
            self.work_directory_path(id)@ == self@.by_id[id].work_directory_abs_path,
            self.work_directory_path(id).display_text() == self@.by_id[id].display_path,
    {
    }

    /// Records `diff` as the diff of the buffer `buffer_id`, against the file
    /// `repo_path` of `repository`, in place of a diff that the buffer may have.
    pub fn track_diff(
        &mut self,
        buffer_id: BufferId,
        diff: DiffId,
        repository: JjRepositoryState,
        repo_path: String,
    )
        ensures
            final(self)@ == with_binding(
                old(self)@,
                buffer_id,
                DiffStateView { diff, repository: repository@, repo_path: repo_path@ },
            ),
    {
        let ghost before = self@;
        let binding = JjDiffState { diff, repository, repo_path };
        self.diffs_by_buffer.insert(buffer_id, binding);
        proof {
            assert(self@.bindings =~= before.bindings.insert(buffer_id, binding@));
            assert(self@.by_id =~= before.by_id);
            assert(self@.by_worktree =~= before.by_worktree);
            assert(self@.workspaces =~= before.workspaces);
        }
    }

    /// Whether any repository is tracked.
    pub fn has_repositories(&self) -> (any: bool)
        ensures
            any == (self@.by_id.len() > 0),
    {
        proof {
            assert(self@.by_id.dom() =~= self.repositories_by_id@.dom());
        }
        !self.repositories_by_id.is_empty()
    }
}

impl<H> JjStore<H> {
    /// Whether `open` can be called for the repository `id` where it has to
    /// be: where the repository is tracked and no handle is kept for it, `open`
    /// takes the path of its working directory.
    pub open spec fn opens_with<E, F: FnOnce(&AbsPath) -> Result<H, E>>(
        &self,
        id: ProjectEntryId,
        open: F,
    ) -> bool {
        self@.by_id.contains_key(id) && self@.workspaces[id] is None ==> open.requires(
            (&self.work_directory_path(id),),
        )
    }
}

impl<H: Clone> JjStore<H> {
    /// The handle of the tracked repository `work_directory_id`: the one that
    /// is kept for it, or one that `open` opens from the path of its working
    /// directory and that is kept from then on. A failure to open is handed
    /// on and leaves nothing behind. There is no answer for a repository that
    /// is not tracked.
    pub fn workspace<E, F: FnOnce(&AbsPath) -> Result<H, E>>(
        &mut self,
        work_directory_id: ProjectEntryId,
        open: F,
    ) -> (handle: Option<Result<H, E>>)
        requires
            old(self).well_formed(),
            old(self).opens_with(work_directory_id, open),
        ensures
            final(self).well_formed(),
            is_workspace_outcome(
                old(self)@,
                work_directory_id,
                |opened: Result<H, E>|
                    open.ensures((&old(self).work_directory_path(work_directory_id),), opened),
                handle,
                final(self)@,
            ),
    {
        let ghost before = self@;
        let state = match self.repositories_by_id.get(&work_directory_id) {
            Some(state) => state,
            None => {
                return None;
            },
        };
        let path = &state.work_directory_abs_path;
        let cache = self.workspaces.remove(&work_directory_id);
        let mut cache = match cache {
            Some(cache) => cache,
            None => WorkspaceCache::new(),
        };
        proof {
            assert(before.workspaces.dom().contains(work_directory_id));
            assert(cache.cached() == before.workspaces[work_directory_id]);
        }
        let outcome = cache.get_or_init_from(path, open);
        let ghost kept = cache.cached();
        self.workspaces.insert(work_directory_id, cache);
        proof {
            assert(self@.workspaces =~= before.workspaces.insert(work_directory_id, kept));
            assert(self@.by_id =~= before.by_id);
            assert(self@.by_worktree =~= before.by_worktree);
            assert(self@.bindings =~= before.bindings);
            assert(self@.workspaces.dom() =~= self@.by_id.dom());
            assert(self@ == StoreView {
                workspaces: before.workspaces.insert(work_directory_id, kept),
                ..before
            });
            assert forall|worktree_id: u64| #[trigger]
                self@.by_worktree.contains_key(worktree_id) implies worktree_list_consistent(
                self@,
                worktree_id,
            ) by {
                assert(worktree_list_consistent(before, worktree_id));
            }
        }
        Some(outcome)
    }

    /// Prepares the diff of a buffer against the repository that owns its
    /// file. There is no answer where no repository owns the file, which is no
    /// failure: many buffers have no repository. Otherwise the handle of the
    /// owning repository is asked for, as `workspace` does it; a failure to
    /// open is handed on, and a success comes with the repository and with
    /// the file's path inside it.
    pub fn open_unstaged_diff<E, F: FnOnce(&AbsPath) -> Result<H, E>>(
        &mut self,
        file: Option<&BufferFile>,
        open: F,
    ) -> (request: Option<Result<DiffRequest<H>, E>>)
        requires
            old(self).well_formed(),
            resolution(old(self)@, optional_file_view(file)) matches Some((owner, _))
                ==> old(self).opens_with(owner.work_directory_id, open),
        ensures
            final(self).well_formed(),
            match resolution(old(self)@, optional_file_view(file)) {
                None => request is None && final(self)@ == old(self)@,
                Some((owner, repo_path)) => {
                    &&& request matches Some(outcome)
                    &&& is_workspace_outcome(
                        old(self)@,
                        owner.work_directory_id,
                        |opened: Result<H, E>|
                            open.ensures(
                                (&old(self).work_directory_path(owner.work_directory_id),),
                                opened,
                            ),
                        Some(request_handle(outcome)),
                        final(self)@,
                    )
                    &&& outcome matches Ok(prepared) ==> prepared.repository@ == owner
                        && prepared.repo_path@ == repo_path
                },
            },
    {
        let (repository, repo_path) = match self.repository_and_path_for_buffer(file) {
            Some(owner) => owner,
            None => {
                return None;
            },
        };
        proof {
            let known = optional_file_view(file)->0;
            let list = self@.by_worktree[known.worktree_id];
            assert(worktree_list_consistent(self@, known.worktree_id));
            crate::store_model::lemma_owner_in(list, known.abs_path);
            assert(self@.by_id.contains_key(repository@.work_directory_id));
        }
        match self.workspace(repository.work_directory_id, open) {
            Some(Ok(workspace)) => Some(Ok(DiffRequest { repository, repo_path, workspace })),
            Some(Err(error)) => Some(Err(error)),
            None => None,
        }
    }

    /// Prepares the diff of a buffer against what is committed. For these
    /// repositories that is the diff that `open_unstaged_diff` prepares.
    pub fn open_uncommitted_diff<E, F: FnOnce(&AbsPath) -> Result<H, E>>(
        &mut self,
        file: Option<&BufferFile>,
        open: F,
    ) -> (request: Option<Result<DiffRequest<H>, E>>)
        requires
            old(self).well_formed(),
            resolution(old(self)@, optional_file_view(file)) matches Some((owner, _))
                ==> old(self).opens_with(owner.work_directory_id, open),
        ensures
            final(self).well_formed(),
            match resolution(old(self)@, optional_file_view(file)) {
                None => request is None && final(self)@ == old(self)@,
                Some((owner, repo_path)) => {
                    &&& request matches Some(outcome)
                    &&& is_workspace_outcome(
                        old(self)@,
                        owner.work_directory_id,
                        |opened: Result<H, E>|
                            open.ensures(
                                (&old(self).work_directory_path(owner.work_directory_id),),
                                opened,
                            ),
                        Some(request_handle(outcome)),
                        final(self)@,
                    )
                    &&& outcome matches Ok(prepared) ==> prepared.repository@ == owner
                        && prepared.repo_path@ == repo_path
                },
            },
    {
        self.open_unstaged_diff(file, open)
    }

    /// The next step in bringing the diff of the buffer `buffer_id` up to
    /// date, for the diff `state` that the buffer was found to have.
    ///
    /// Where the diff object is gone, or where the repository that the diff
    /// was bound to is no longer tracked as it was then, the buffer's diff is
    /// dropped from the store, which is no failure. Otherwise the handle of
    /// the repository is asked for, as `workspace` does it: a failure to open
    /// is handed on, and a success comes with what is needed to fetch the
    /// base text again.
    pub fn recalculate_diff_for_job<E, F: FnOnce(&AbsPath) -> Result<H, E>>(
        &mut self,
        buffer_id: BufferId,
        state: &JjDiffState,
        diff_is_live: bool,
        open: F,
    ) -> (step: RecalculationStep<H, E>)
        requires
            old(self).well_formed(),
            diff_is_live && binding_is_current(old(self)@, state@) ==> old(self).opens_with(
                state@.repository.work_directory_id,
                open,
            ),
        ensures
            final(self).well_formed(),
            if !diff_is_live || !binding_is_current(old(self)@, state@) {
                &&& step is BindingDropped
                &&& final(self)@ == without_binding(old(self)@, buffer_id)
            } else {
                &&& !(step is BindingDropped)
                &&& is_workspace_outcome(
                    old(self)@,
                    state@.repository.work_directory_id,
                    |opened: Result<H, E>|
                        open.ensures(
                            (&old(self).work_directory_path(state@.repository.work_directory_id),),
                            opened,
                        ),
                    Some(step_handle(step)),
                    final(self)@,
                )
                &&& step matches RecalculationStep::Fetch(prepared) ==> prepared.repository@
                    == state@.repository && prepared.repo_path@ == state@.repo_path
            },
    {
        let ghost before = self@;
        let id = state.repository.work_directory_id;
        let current = diff_is_live && match self.repositories_by_id.get(&id) {
            Some(kept) => kept.same_state(&state.repository),
            None => false,
        };
        if !current {
            self.diffs_by_buffer.remove(&buffer_id);
            proof {
                assert(self@.bindings =~= before.bindings.remove(buffer_id));
                assert(self@.by_id =~= before.by_id);
                assert(self@.by_worktree =~= before.by_worktree);
                assert(self@.workspaces =~= before.workspaces);
            }
            return RecalculationStep::BindingDropped;
        }
        match self.workspace(id, open) {
            Some(Ok(workspace)) => RecalculationStep::Fetch(
                DiffRequest {
                    repository: state.repository.clone(),
                    repo_path: state.repo_path.clone(),
                    workspace,
                },
            ),
            Some(Err(error)) => RecalculationStep::Failed(error),
            None => RecalculationStep::BindingDropped,
        }
    }

    /// The handle of the repository whose history is to be shown: of the
    /// repository `repository_id` where one is named, else of any tracked
    /// repository. There is no answer where the named repository is not
    /// tracked, or where none is tracked at all.
    pub fn recent_commits<E, F: FnOnce(&AbsPath) -> Result<H, E>>(
        &mut self,
        repository_id: Option<ProjectEntryId>,
        open: F,
    ) -> (handle: Option<Result<H, E>>)
        requires
            old(self).well_formed(),
            match repository_id {
                Some(id) => old(self).opens_with(id, open),
                None => forall|id: ProjectEntryId| #[trigger] old(self).opens_with(id, open),
            },
        ensures
            final(self).well_formed(),
            match repository_id {
                Some(id) => is_workspace_outcome(
                    old(self)@,
                    id,
                    |opened: Result<H, E>|
                        open.ensures((&old(self).work_directory_path(id),), opened),
                    handle,
                    final(self)@,
                ),
                None => if old(self)@.by_id.len() == 0 {
                    handle is None && final(self)@ == old(self)@
                } else {
                    handle is Some && exists|id: ProjectEntryId|
                        #[trigger] old(self)@.by_id.contains_key(id) && is_workspace_outcome(
                            old(self)@,
                            id,
                            |opened: Result<H, E>|
                                open.ensures((&old(self).work_directory_path(id),), opened),
                            handle,
                            final(self)@,
                        )
                },
            },
    {
        proof {
            assert(self@.by_id.dom() =~= self.repositories_by_id@.dom());
            assert(self@.by_id.dom().finite());
        }
        let id = match repository_id {
            Some(id) => id,
            None => match self.any_repository() {
                Some(id) => id,
                None => {
                    return None;
                },
            },
        };
        let handle = self.workspace(id, open);
        proof {
            if repository_id is None {
                assert(old(self)@.by_id.contains_key(id) && is_workspace_outcome(
                    old(self)@,
                    id,
                    |opened: Result<H, E>|
                        open.ensures((&old(self).work_directory_path(id),), opened),
                    handle,
                    self@,
                ));
            }
        }
        handle
    }

    /// The handle of the repository `repository_id`, in which a change is to
    /// be made the one that is edited.
    pub fn edit_change<E, F: FnOnce(&AbsPath) -> Result<H, E>>(
        &mut self,
        repository_id: ProjectEntryId,
        open: F,
    ) -> (handle: Option<Result<H, E>>)
        requires
            old(self).well_formed(),
            old(self).opens_with(repository_id, open),
        ensures
            final(self).well_formed(),
            is_workspace_outcome(
                old(self)@,
                repository_id,
                |opened: Result<H, E>|
                    open.ensures((&old(self).work_directory_path(repository_id),), opened),
                handle,
                final(self)@,
            ),
    {
        self.workspace(repository_id, open)
    }

    /// The handle of the repository `repository_id`, in which a change is to
    /// be given a new description.
    pub fn rename_change<E, F: FnOnce(&AbsPath) -> Result<H, E>>(
        &mut self,
        repository_id: ProjectEntryId,
        open: F,
    ) -> (handle: Option<Result<H, E>>)
        requires
            old(self).well_formed(),
            old(self).opens_with(repository_id, open),
        ensures
            final(self).well_formed(),
            is_workspace_outcome(
                old(self)@,
                repository_id,
                |opened: Result<H, E>|
                    open.ensures((&old(self).work_directory_path(repository_id),), opened),
                handle,
                final(self)@,
            ),
    {
        self.workspace(repository_id, open)
    }
}

impl<H> JjStore<H> {
    /// The identifier of some tracked repository, if any is tracked.
    pub fn any_repository(&self) -> (found: Option<ProjectEntryId>)
        ensures
            match found {
                Some(id) => self@.by_id.contains_key(id),
                None => self@.by_id.len() == 0,
            },
    {
        proof {
            assert(self@.by_id.dom() =~= self.repositories_by_id@.dom());
        }
        for id in it: self.repositories_by_id.keys()
            invariant
                it.index() == 0,
                it.seq().len() == self.repositories_by_id@.dom().len(),
                it.seq().unref().to_set() == self.repositories_by_id@.dom(),
                self@.by_id.dom() == self.repositories_by_id@.dom(),
        {
            proof {
                assert(it.seq().unref()[0] == *id);
                assert(it.seq().unref().to_set().contains(*id));
            }
            return Some(*id);
        }
        None
    }

    /// The buffers among `buffers` whose diff is to be brought up to date, each
    /// with the diff that it has, in the order of `buffers`; or nothing where
    /// none of them has a diff.
    pub fn recalculate_buffer_diffs(&self, buffers: &Vec<BufferId>) -> (jobs: Option<
        Vec<(BufferId, JjDiffState)>,
    >)
        ensures
            match jobs {
                Some(list) => list.len() > 0 && job_views(list@) == jobs_for(
                    buffers@,
                    self@.bindings,
                ),
                None => jobs_for(buffers@, self@.bindings).len() == 0,
            },
    {
        let mut jobs: Vec<(BufferId, JjDiffState)> = Vec::new();
        let mut i: usize = 0;
        proof {
            assert(buffers@.take(0) =~= Seq::<u64>::empty());
            assert(job_views(jobs@) =~= jobs_for(buffers@.take(0), self@.bindings));
        }
        while i < buffers.len()
            invariant
                i <= buffers.len(),
                job_views(jobs@) == jobs_for(buffers@.take(i as int), self@.bindings),
            decreases buffers.len() - i,
        {
            let buffer_id = buffers[i];
            let ghost earlier = job_views(jobs@);
            proof {
                let upto = buffers@.take(i + 1);
                assert(upto.drop_last() =~= buffers@.take(i as int));
                assert(upto.last() == buffer_id);
            }
            match self.diffs_by_buffer.get(&buffer_id) {
                Some(state) => {
                    let job = (buffer_id, state.clone());
                    jobs.push(job);
                    proof {
                        assert(job_views(jobs@) =~= earlier.push((buffer_id, state@)));
                    }
                },
                None => {},
            }
            i += 1;
        }
        proof {
            assert(buffers@.take(buffers.len() as int) =~= buffers@);
        }
        if jobs.len() == 0 {
            None
        } else {
            Some(jobs)
        }
    }

    /// The diff that the buffer `buffer_id` has in this store, if it has one.
    pub fn diff_of_buffer(&self, buffer_id: BufferId) -> (state: Option<JjDiffState>)
        ensures
            match state {
                Some(found) => self@.bindings.contains_key(buffer_id) && found@
                    == self@.bindings[buffer_id],
                None => !self@.bindings.contains_key(buffer_id),
            },
    {
        match self.diffs_by_buffer.get(&buffer_id) {
            Some(state) => Some(state.clone()),
            None => None,
        }
    }

    /// What is shown of each tracked repository, in no particular order.
    pub fn repositories(&self) -> (summaries: Vec<JjRepositorySummary>)
        requires
            self.well_formed(),
        ensures
            summaries.len() == self@.by_id.len(),
            forall|i: int|
                0 <= i < summaries.len() ==> {
                    &&& self@.by_id.contains_key(#[trigger] summaries[i].id)
                    &&& summaries[i]@ == summary_of(self@.by_id[summaries[i].id])
                },
            forall|i: int, j: int|
                0 <= i < j < summaries.len() ==> summaries[i].id != summaries[j].id,
            forall|id: ProjectEntryId|
                self@.by_id.contains_key(id) ==> exists|i: int|
                    0 <= i < summaries.len() && #[trigger] summaries[i].id == id,
    {
        let mut summaries: Vec<JjRepositorySummary> = Vec::new();
        let ghost held = self.repositories_by_id@;
        proof {
            assert(self@.by_id.dom() =~= held.dom());
        }
        for pair in it: self.repositories_by_id.iter()
            invariant
                held == self.repositories_by_id@,
                self.well_formed(),
                self@.by_id.dom() == held.dom(),
                summaries.len() == it.index(),
                it.seq().len() == held.dom().len(),
                it.seq().no_duplicates(),
                forall|i: int|
                    0 <= i < it.seq().len() ==> held.contains_key(*(#[trigger] it.seq()[i]).0)
                        && held[*it.seq()[i].0] == *it.seq()[i].1,
                forall|k: ProjectEntryId|
                    held.contains_key(k) ==> exists|i: int|
                        0 <= i < it.seq().len() && *(#[trigger] it.seq()[i]).0 == k,
                forall|i: int|
                    0 <= i < summaries.len() ==> summaries[i].id == *(#[trigger] it.seq()[i]).0,
                forall|i: int|
                    0 <= i < summaries.len() ==> held.contains_key(
                        (#[trigger] summaries[i]).id,
                    ) && summaries[i]@ == summary_of(held[summaries[i].id]@),
                forall|i: int, j: int|
                    0 <= i < j < summaries.len() ==> summaries[i].id != summaries[j].id,
        {
            let (id, state) = pair;
            proof {
                let here = it.index();
                assert(held.contains_key(*it.seq()[here].0));
                assert(self@.by_id.contains_key(*id));
                assert(self@.by_id[*id] == state@);
                assert forall|i: int| 0 <= i < summaries.len() implies summaries[i].id != *id by {
                    if summaries[i].id == *id {
                        assert(held.contains_key(*it.seq()[i].0));
                        assert(it.seq()[i] == it.seq()[here]);
                    }
                }
            }
            summaries.push(
                JjRepositorySummary {
                    id: state.work_directory_id,
                    worktree_id: state.worktree_id,
                    path: state.display_name(),
                },
            );
        }
        proof {
            assert forall|id: ProjectEntryId| self@.by_id.contains_key(id) implies exists|i: int|
                0 <= i < summaries.len() && #[trigger] summaries[i].id == id by {
                assert(held.contains_key(id));
            }
        }
        summaries
    }
}

/// What is needed to fetch the base text of a file: the repository that owns
/// the file, the file's path inside it, and the opened handle of the
/// repository.
#[derive(Debug)]
pub struct DiffRequest<H> {
    pub repository: JjRepositoryState,
    pub repo_path: String,
    pub workspace: H,
}

/// The handle that a prepared request carries, or the failure to open one.
pub open spec fn request_handle<H, E>(outcome: Result<DiffRequest<H>, E>) -> Result<H, E> {
    match outcome {
        Ok(prepared) => Ok(prepared.workspace),
        Err(error) => Err(error),
    }
}

/// The next step in bringing a diff up to date.
#[derive(Debug)]
pub enum RecalculationStep<H, E> {
    /// The buffer's diff has been dropped from the store; nothing is to be
    /// done and nothing has failed.
    BindingDropped,
    /// The handle of the repository could not be opened.
    Failed(E),
    /// The base text is to be fetched again.
    Fetch(DiffRequest<H>),
}

/// The handle that a step carries, or the failure to open one.
pub open spec fn step_handle<H, E>(step: RecalculationStep<H, E>) -> Result<H, E>
    recommends
        !(step is BindingDropped),
{
    match step {
        RecalculationStep::Fetch(prepared) => Ok(prepared.workspace),
        RecalculationStep::Failed(error) => Err(error),
        RecalculationStep::BindingDropped => arbitrary(),
    }
}

/// What a list of buffers with their diffs is.
pub open spec fn job_views(jobs: Seq<(BufferId, JjDiffState)>) -> Seq<(u64, DiffStateView)> {
    Seq::new(jobs.len(), |i: int| (jobs[i].0, jobs[i].1@))
}

/// What is shown of a tracked repository.
#[derive(Debug)]
pub struct JjRepositorySummary {
    pub id: ProjectEntryId,
    pub worktree_id: WorktreeId,
    pub path: String,
}

impl View for JjRepositorySummary {
    type V = RepositorySummaryView;

    open spec fn view(&self) -> RepositorySummaryView {
        RepositorySummaryView { id: self.id, worktree_id: self.worktree_id, path: self.path@ }
    }
}

} // verus!
