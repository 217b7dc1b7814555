//! Which of two backends serves an operation: the one for Git, which serves
//! everything, or the one for Jujutsu, which serves diffs where it can.

use vstd::prelude::*;

use crate::path::AbsPath;
use crate::store::optional_file_view;
use crate::store::request_handle;
use crate::store::BufferFile;
use crate::store::BufferId;
use crate::store::DiffRequest;
use crate::store::JjDiffState;
use crate::store::JjStore;
use crate::store::job_views;
use crate::store_model::buffers_without_diff;
use crate::store_model::consistent;
use crate::store_model::DiffStateView;
use crate::store_model::is_workspace_outcome;
use crate::store_model::jobs_for;
use crate::store_model::resolution;
use crate::store_model::StoreView;

verus! {

/// What a backend can be asked to do.
#[derive(Clone, Copy, Debug, PartialEq, Eq, Structural)]
pub enum VcsOperation {
    OpenUnstagedDiff,
    OpenUncommittedDiff,
    BlameBuffer,
    GetPermalinkToLine,
    ActiveRepository,
    Repositories,
    StatusForBufferId,
    RecalculateBufferDiffs,
}

/// One of the two backends.
#[derive(Clone, Copy, Debug, PartialEq, Eq, Structural)]
pub enum Backend {
    Git,
    Jj,
}

/// Whether `operation` is one that the Jujutsu backend may serve.
pub open spec fn is_diff_operation(operation: VcsOperation) -> bool {
    operation == VcsOperation::OpenUnstagedDiff || operation == VcsOperation::OpenUncommittedDiff
        || operation == VcsOperation::RecalculateBufferDiffs
}

/// Whether the Jujutsu backend is asked before the Git backend: it is there,
/// it is enabled, and it tracks a repository.
pub open spec fn jj_is_preferred<H>(jj: Option<StoreView<H>>, flag_enabled: bool) -> bool {
    jj matches Some(store) && flag_enabled && store.by_id.len() > 0
}

/// The backend that serves `operation`. The Jujutsu backend serves an
/// operation on diffs where it is preferred and `jj_answers`, which says
/// whether it has something for the buffer in question: a repository that
/// owns the buffer's file where a diff is opened, a diff of the buffer where
/// diffs are brought up to date. Everything else is served by the Git
/// backend.
pub open spec fn backend_for(operation: VcsOperation, preferred: bool, jj_answers: bool) -> Backend {
    if preferred && is_diff_operation(operation) && jj_answers {
        Backend::Jj
    } else {
        Backend::Git
    }
}

/// Decides which backend serves `operation`.
pub fn select_backend(operation: VcsOperation, preferred: bool, jj_answers: bool) -> (backend:
    Backend)
    ensures
        backend == backend_for(operation, preferred, jj_answers),
        !is_diff_operation(operation) ==> backend == Backend::Git,
{
    if !preferred || !jj_answers {
        return Backend::Git;
    }
    match operation {
        VcsOperation::OpenUnstagedDiff => Backend::Jj,
        VcsOperation::OpenUncommittedDiff => Backend::Jj,
        VcsOperation::RecalculateBufferDiffs => Backend::Jj,
        _ => Backend::Git,
    }
}

/// Who opens the diff of a buffer.
#[derive(Debug)]
pub enum DiffRoute<H, E> {
    /// The Jujutsu backend, with what it prepared or why it could not.
    Jj(Result<DiffRequest<H>, E>),
    /// The Git backend.
    Git,
}

/// Who brings the diffs of buffers up to date: each buffer goes to one of the
/// two backends.
#[derive(Debug)]
pub struct RecalculationRoute {
    /// The buffers that the Jujutsu backend brings up to date, each with the
    /// diff that it has there.
    pub jj: Vec<(BufferId, JjDiffState)>,
    /// The buffers that the Git backend brings up to date.
    pub git: Vec<BufferId>,
}

/// How the buffers are split between the backends. Where the Jujutsu backend
/// is preferred, it gets the buffers that have a diff in its store, and the
/// Git backend gets all the others; where it is not, the Git backend gets
/// every buffer. Each side keeps the order of `buffers`.
pub open spec fn is_recalculation_route<H>(
    jj: Option<StoreView<H>>,
    flag_enabled: bool,
    buffers: Seq<u64>,
    for_jj: Seq<(u64, DiffStateView)>,
    for_git: Seq<u64>,
) -> bool {
    if jj_is_preferred(jj, flag_enabled) {
        &&& for_jj == jobs_for(buffers, jj->0.bindings)
        &&& for_git == buffers_without_diff(buffers, jj->0.bindings)
    } else {
        &&& for_jj == Seq::<(u64, DiffStateView)>::empty()
        &&& for_git == buffers
    }
}

/// The backends of a project: the store of the Jujutsu backend, where there is
/// one. The Git backend is always there and is not held here.
pub struct ProjectVcsBackend<H> {
    jj: Option<JjStore<H>>,
}

impl<H> ProjectVcsBackend<H> {
    /// What the store of the Jujutsu backend holds, where there is one.
    pub closed spec fn jj_view(&self) -> Option<StoreView<H>> {
        match self.jj {
            Some(store) => Some(store@),
            None => None,
        }
    }

    /// Whether the store of the Jujutsu backend, where there is one, has its
    /// indices in agreement.
    pub open spec fn well_formed(&self) -> bool {
        self.jj_view() matches Some(store) ==> consistent(store)
    }

    /// The backends of a project with the given store for Jujutsu, or with
    /// none.
    pub fn new(jj_store: Option<JjStore<H>>) -> (backend: Self)
        requires
            jj_store matches Some(store) ==> store.well_formed(),
        ensures
            backend.well_formed(),
            backend.jj_view() == match jj_store {
                Some(store) => Some(store@),
                None => None,
            },
    {
        ProjectVcsBackend { jj: jj_store }
    }

    /// The store of the Jujutsu backend, where there is one.
    pub fn jj_store(&self) -> (store: Option<&JjStore<H>>)
        ensures
            match store {
                Some(s) => self.jj_view() == Some(s@),
                None => self.jj_view() is None,
            },
    {
        self.jj.as_ref()
    }

    /// The store of the Jujutsu backend, where there is one, to be changed in
    /// place.
    pub fn jj_store_mut(&mut self) -> (store: Option<&mut JjStore<H>>)
        ensures
            match store {
                Some(s) => old(self).jj_view() == Some(s@) && final(self).jj_view() == Some(
                    final(s)@,
                ),
                None => old(self).jj_view() is None && final(self).jj_view() is None,
            },
    {
        self.jj.as_mut()
    }

    /// Whether the Jujutsu backend is asked first. This is decided anew for
    /// every operation.
    pub fn preferred_jj_backend(&self, flag_enabled: bool) -> (preferred: bool)
        ensures
            preferred == jj_is_preferred(self.jj_view(), flag_enabled),
    {
        match &self.jj {
            Some(store) => flag_enabled && store.has_repositories(),
            None => false,
        }
    }

    /// Splits `buffers` between the backends for bringing their diffs up to
    /// date. This is decided for each buffer and anew at every call: a buffer
    /// goes to the Jujutsu backend where that backend is preferred and has a
    /// diff of the buffer, and to the Git backend otherwise.
    pub fn recalculate_buffer_diffs(&self, flag_enabled: bool, buffers: &Vec<BufferId>) -> (route:
        RecalculationRoute)
        ensures
            is_recalculation_route(
                self.jj_view(),
                flag_enabled,
                buffers@,
                job_views(route.jj@),
                route.git@,
            ),
    {
        let preferred = self.preferred_jj_backend(flag_enabled);
        let mut jj: Vec<(BufferId, JjDiffState)> = Vec::new();
        let mut git: Vec<BufferId> = Vec::new();
        let mut i: usize = 0;
        proof {
            assert(buffers@.take(0) =~= Seq::<u64>::empty());
            assert(job_views(jj@) =~= Seq::<(u64, DiffStateView)>::empty());
        }
        while i < buffers.len()
            invariant
                i <= buffers.len(),
                preferred == jj_is_preferred(self.jj_view(), flag_enabled),
                is_recalculation_route(
                    self.jj_view(),
                    flag_enabled,
                    buffers@.take(i as int),
                    job_views(jj@),
                    git@,
                ),
            decreases buffers.len() - i,
        {
            let buffer = buffers[i];
            let ghost jobs_before = job_views(jj@);
            proof {
                let upto = buffers@.take(i + 1);
                assert(upto.drop_last() =~= buffers@.take(i as int));
                assert(upto.last() == buffer);
            }
            let state = match &self.jj {
                Some(store) => {
                    if preferred {
                        store.diff_of_buffer(buffer)
                    } else {
                        None
                    }
                },
                None => None,
            };
            match select_backend(VcsOperation::RecalculateBufferDiffs, preferred, state.is_some()) {
                Backend::Jj => {
                    match state {
                        Some(found) => {
                            jj.push((buffer, found));
                            proof {
                                assert(job_views(jj@) =~= jobs_before.push((buffer, found@)));
                            }
                        },
                        None => {},
                    }
                },
                Backend::Git => {
                    git.push(buffer);
                    proof {
                        assert(job_views(jj@) =~= jobs_before);
                        if !preferred {
                            assert(git@ =~= buffers@.take(i + 1));
                        }
                    }
                },
            }
            i += 1;
        }
        proof {
            assert(buffers@.take(buffers.len() as int) =~= buffers@);
        }
        RecalculationRoute { jj, git }
    }
}

/// What opening a diff through the backends does. Where the Jujutsu backend is
/// not preferred, or has no repository for the file, the Git backend opens the
/// diff and the store stays as it is. Otherwise the Jujutsu backend does, with
/// what its store prepared.
pub open spec fn is_diff_route<H: Clone, E>(
    before: Option<StoreView<H>>,
    flag_enabled: bool,
    file: Option<crate::store_model::BufferFileView>,
    may_open: spec_fn(u64, Result<H, E>) -> bool,
    route: DiffRoute<H, E>,
    after: Option<StoreView<H>>,
) -> bool {
    if !jj_is_preferred(before, flag_enabled) {
        route is Git && after == before
    } else {
        match resolution(before->0, file) {
            None => route is Git && after == before,
            Some((owner, repo_path)) => {
                &&& route matches DiffRoute::Jj(outcome)
                &&& after is Some
                &&& is_workspace_outcome(
                    before->0,
                    owner.work_directory_id,
                    |opened: Result<H, E>| may_open(owner.work_directory_id, opened),
                    Some(request_handle(outcome)),
                    after->0,
                )
                &&& outcome matches Ok(prepared) ==> prepared.repository@ == owner
                    && prepared.repo_path@ == repo_path
            },
        }
    }
}

impl<H: Clone> ProjectVcsBackend<H> {
    /// Whether `open` can be called for the repository `id` of the store of
    /// the Jujutsu backend where it has to be.
    pub open spec fn opens_with<E, F: FnOnce(&AbsPath) -> Result<H, E>>(
        &self,
        id: u64,
        open: F,
    ) -> bool {
        self.jj_view() matches Some(store) && store.by_id.contains_key(id)
            && store.workspaces[id] is None ==> open.requires((&self.work_directory_path(id),))
    }

    /// The path of the working directory of the repository `id` in the store
    /// of the Jujutsu backend.
    pub closed spec fn work_directory_path(&self, id: u64) -> AbsPath {
        self.jj->0.work_directory_path(id)
    }

    /// Decides who opens the diff of a buffer against its unstaged state. The
    /// Jujutsu backend is asked where it is preferred; where it has no
    /// repository for the file, the Git backend opens the diff.
    pub fn open_unstaged_diff<E, F: FnOnce(&AbsPath) -> Result<H, E>>(
        &mut self,
        flag_enabled: bool,
        file: Option<&BufferFile>,
        open: F,
    ) -> (route: DiffRoute<H, E>)
        requires
            old(self).well_formed(),
            jj_is_preferred(old(self).jj_view(), flag_enabled) ==> (resolution(
                old(self).jj_view()->0,
                optional_file_view(file),
            ) matches Some((owner, _)) ==> old(self).opens_with(owner.work_directory_id, open)),
        ensures
            final(self).well_formed(),
            is_diff_route(
                old(self).jj_view(),
                flag_enabled,
                optional_file_view(file),
                |id: u64, opened: Result<H, E>|
                    open.ensures((&old(self).work_directory_path(id),), opened),
                route,
                final(self).jj_view(),
            ),
    {
        let preferred = self.preferred_jj_backend(flag_enabled);
        let answer = match &mut self.jj {
            Some(store) => {
                if preferred {
                    store.open_unstaged_diff(file, open)
                } else {
                    None
                }
            },
            None => None,
        };
        match select_backend(VcsOperation::OpenUnstagedDiff, preferred, answer.is_some()) {
            Backend::Jj => match answer {
                Some(outcome) => DiffRoute::Jj(outcome),
                None => DiffRoute::Git,
            },
            Backend::Git => DiffRoute::Git,
        }
    }

    /// Decides who opens the diff of a buffer against what is committed, in
    /// the same way as for the unstaged state.
    pub fn open_uncommitted_diff<E, F: FnOnce(&AbsPath) -> Result<H, E>>(
        &mut self,
        flag_enabled: bool,
        file: Option<&BufferFile>,
        open: F,
    ) -> (route: DiffRoute<H, E>)
        requires
            old(self).well_formed(),
            jj_is_preferred(old(self).jj_view(), flag_enabled) ==> (resolution(
                old(self).jj_view()->0,
                optional_file_view(file),
            ) matches Some((owner, _)) ==> old(self).opens_with(owner.work_directory_id, open)),
        ensures
            final(self).well_formed(),
            is_diff_route(
                old(self).jj_view(),
                flag_enabled,
                optional_file_view(file),
                |id: u64, opened: Result<H, E>|
                    open.ensures((&old(self).work_directory_path(id),), opened),
                route,
                final(self).jj_view(),
            ),
    {
        self.open_unstaged_diff(flag_enabled, file, open)
    }
}

} // verus!
