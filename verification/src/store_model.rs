//! What the store of tracked repositories holds, stated over plain values: its
//! two indices, how tracking and removing change them, and which repository
//! owns a file.

use vstd::prelude::*;

use crate::cache::is_request_outcome;
use crate::path::repo_relative_text;

verus! {

/// What a tracked repository is, with its path as components.
pub struct RepositoryStateView {
    pub worktree_id: u64,
    pub work_directory_id: u64,
    pub work_directory_abs_path: Seq<Seq<char>>,
    pub display_path: Seq<char>,
    pub path_depth: usize,
}

/// What the association of a buffer with its diff is.
pub struct DiffStateView {
    pub diff: u64,
    pub repository: RepositoryStateView,
    pub repo_path: Seq<char>,
}

/// What is known of the file behind a buffer.
pub struct BufferFileView {
    pub is_local: bool,
    pub worktree_id: u64,
    pub abs_path: Seq<Seq<char>>,
}

/// What the store holds. `by_worktree` lists the repositories of each
/// worktree, the deepest first; `by_id` finds a repository by its identifier;
/// `bindings` holds the diff of each buffer that has one; `workspaces` holds,
/// for each repository, the handle that has been opened for it, if any.
pub struct StoreView<H> {
    pub by_worktree: Map<u64, Seq<RepositoryStateView>>,
    pub by_id: Map<u64, RepositoryStateView>,
    pub bindings: Map<u64, DiffStateView>,
    pub workspaces: Map<u64, Option<H>>,
}

/// Whether the depth that a repository records is the number of components of
/// its path.
pub open spec fn depth_recorded(state: RepositoryStateView) -> bool {
    state.path_depth == state.work_directory_abs_path.len()
}

/// Whether `list` is ordered by depth, the deepest first.
pub open spec fn deepest_first(list: Seq<RepositoryStateView>) -> bool {
    forall|i: int, j: int|
        0 <= i < j < list.len() ==> (#[trigger] list[i]).path_depth >= (
        #[trigger] list[j]).path_depth
}

/// Whether no identifier occurs twice in `list`.
pub open spec fn distinct_ids(list: Seq<RepositoryStateView>) -> bool {
    forall|i: int, j: int|
        0 <= i < j < list.len() ==> (#[trigger] list[i]).work_directory_id != (
        #[trigger] list[j]).work_directory_id
}

/// Whether `list` holds a repository of the identifier `id`.
pub open spec fn lists_id(list: Seq<RepositoryStateView>, id: u64) -> bool {
    exists|i: int| 0 <= i < list.len() && (#[trigger] list[i]).work_directory_id == id
}

/// Whether the list that `by_worktree` holds for `worktree_id` is in order and
/// agrees with `by_id`.
pub open spec fn worktree_list_consistent<H>(view: StoreView<H>, worktree_id: u64) -> bool {
    let list = view.by_worktree[worktree_id];
    &&& list.len() > 0
    &&& deepest_first(list)
    &&& distinct_ids(list)
    &&& forall|i: int|
        0 <= i < list.len() ==> {
            &&& (#[trigger] list[i]).worktree_id == worktree_id
            &&& depth_recorded(list[i])
            &&& view.by_id.contains_key(list[i].work_directory_id)
            &&& view.by_id[list[i].work_directory_id] == list[i]
        }
}

/// Whether the two indices agree: they hold the same repositories, each under
/// its own identifier and in the list of its own worktree, every list is in
/// order and not empty, and every repository has a place for its handle.
pub open spec fn consistent<H>(view: StoreView<H>) -> bool {
    &&& forall|worktree_id: u64| #[trigger]
        view.by_worktree.contains_key(worktree_id) ==> worktree_list_consistent(view, worktree_id)
    &&& forall|id: u64| #[trigger]
        view.by_id.contains_key(id) ==> {
            &&& view.by_id[id].work_directory_id == id
            &&& view.by_worktree.contains_key(view.by_id[id].worktree_id)
            &&& view.by_worktree[view.by_id[id].worktree_id].contains(view.by_id[id])
        }
    &&& view.workspaces.dom() == view.by_id.dom()
}

/// The store that holds nothing.
pub open spec fn empty_store<H>() -> StoreView<H> {
    StoreView {
        by_worktree: Map::empty(),
        by_id: Map::empty(),
        bindings: Map::empty(),
        workspaces: Map::empty(),
    }
}

/// The place in `list`, which is ordered by depth, where a repository of the
/// depth `depth` goes: behind every repository that is at least as deep.
pub open spec fn insertion_index(list: Seq<RepositoryStateView>, depth: usize) -> int
    decreases list.len(),
{
    if list.len() == 0 || list[0].path_depth < depth {
        0
    } else {
        1 + insertion_index(list.drop_first(), depth)
    }
}

/// `list` with `state` put where its depth places it. Among repositories of
/// one depth the one that came first stays first.
pub open spec fn inserted_by_depth(
    list: Seq<RepositoryStateView>,
    state: RepositoryStateView,
) -> Seq<RepositoryStateView> {
    list.insert(insertion_index(list, state.path_depth), state)
}

/// `list` without the repositories of the identifier `id`.
pub open spec fn without_id(list: Seq<RepositoryStateView>, id: u64) -> Seq<RepositoryStateView> {
    list.filter(|state: RepositoryStateView| state.work_directory_id != id)
}

/// The store after the repository `id` has been removed: it leaves both
/// indices, its worktree leaves `by_worktree` where it has no other
/// repository, and its handle is dropped. A store that does not hold `id`
/// stays as it is.
pub open spec fn without_repository<H>(view: StoreView<H>, id: u64) -> StoreView<H> {
    if !view.by_id.contains_key(id) {
        view
    } else {
        let worktree_id = view.by_id[id].worktree_id;
        let by_worktree = if view.by_worktree.contains_key(worktree_id) {
            let rest = without_id(view.by_worktree[worktree_id], id);
            if rest.len() == 0 {
                view.by_worktree.remove(worktree_id)
            } else {
                view.by_worktree.insert(worktree_id, rest)
            }
        } else {
            view.by_worktree
        };
        StoreView {
            by_worktree,
            by_id: view.by_id.remove(id),
            bindings: view.bindings,
            workspaces: view.workspaces.remove(id),
        }
    }
}

/// The store after `state` has been tracked: a repository that stood under
/// the same identifier is removed first, then `state` enters both indices,
/// with no handle opened yet.
pub open spec fn with_repository<H>(view: StoreView<H>, state: RepositoryStateView) -> StoreView<H> {
    let cleared = without_repository(view, state.work_directory_id);
    let list = if cleared.by_worktree.contains_key(state.worktree_id) {
        cleared.by_worktree[state.worktree_id]
    } else {
        Seq::empty()
    };
    StoreView {
        by_worktree: cleared.by_worktree.insert(state.worktree_id, inserted_by_depth(list, state)),
        by_id: cleared.by_id.insert(state.work_directory_id, state),
        bindings: cleared.bindings,
        workspaces: cleared.workspaces.insert(state.work_directory_id, None),
    }
}

/// The store after the repositories of `list` have been removed from `by_id`
/// and their handles dropped.
pub open spec fn without_listed<H>(view: StoreView<H>, list: Seq<RepositoryStateView>) -> StoreView<
    H,
>
    decreases list.len(),
{
    if list.len() == 0 {
        view
    } else {
        let before = without_listed(view, list.drop_last());
        StoreView {
            by_worktree: before.by_worktree,
            by_id: before.by_id.remove(list.last().work_directory_id),
            bindings: before.bindings,
            workspaces: before.workspaces.remove(list.last().work_directory_id),
        }
    }
}

/// The store after the worktree `worktree_id` has been removed with all its
/// repositories and their handles.
pub open spec fn without_worktree<H>(view: StoreView<H>, worktree_id: u64) -> StoreView<H> {
    if !view.by_worktree.contains_key(worktree_id) {
        view
    } else {
        let list = view.by_worktree[worktree_id];
        let cleared = without_listed(view, list);
        StoreView {
            by_worktree: view.by_worktree.remove(worktree_id),
            by_id: cleared.by_id,
            bindings: view.bindings,
            workspaces: cleared.workspaces,
        }
    }
}

/// The first repository of `list` under whose root the file `file` has a
/// repository-relative path, together with that path.
pub open spec fn owner_in(list: Seq<RepositoryStateView>, file: Seq<Seq<char>>) -> Option<
    (RepositoryStateView, Seq<char>),
>
    decreases list.len(),
{
    if list.len() == 0 {
        None
    } else {
        match repo_relative_text(file, list[0].work_directory_abs_path) {
            Some(text) => Some((list[0], text)),
            None => owner_in(list.drop_first(), file),
        }
    }
}

/// The repository that owns the file behind a buffer, with the file's path
/// inside it. There is none for a buffer without a file, for a file that is
/// not local, for a worktree without repositories, and for a file that lies
/// under none of the worktree's repositories.
pub open spec fn resolution<H>(view: StoreView<H>, file: Option<BufferFileView>) -> Option<
    (RepositoryStateView, Seq<char>),
> {
    match file {
        None => None,
        Some(f) => if !f.is_local || !view.by_worktree.contains_key(f.worktree_id) {
            None
        } else {
            owner_in(view.by_worktree[f.worktree_id], f.abs_path)
        },
    }
}

/// What asking the store for the handle of the repository `id` does. A store
/// that does not track `id` answers nothing and stays as it is. Otherwise the
/// request goes to the cache of that repository, and nothing else in the
/// store changes.
pub open spec fn is_workspace_outcome<H: Clone, E>(
    before: StoreView<H>,
    id: u64,
    may_open: spec_fn(Result<H, E>) -> bool,
    handle: Option<Result<H, E>>,
    after: StoreView<H>,
) -> bool {
    match handle {
        None => !before.by_id.contains_key(id) && after == before,
        Some(outcome) => {
            &&& before.by_id.contains_key(id)
            &&& after.workspaces.contains_key(id)
            &&& is_request_outcome(before.workspaces[id], may_open, outcome, after.workspaces[id])
            &&& after == StoreView {
                workspaces: before.workspaces.insert(id, after.workspaces[id]),
                ..before
            }
        },
    }
}

/// Whether the repository that a diff was bound to is still tracked as it was
/// then.
pub open spec fn binding_is_current<H>(view: StoreView<H>, binding: DiffStateView) -> bool {
    &&& view.by_id.contains_key(binding.repository.work_directory_id)
    &&& view.by_id[binding.repository.work_directory_id] == binding.repository
}

/// The store without the diff of the buffer `buffer_id`.
pub open spec fn without_binding<H>(view: StoreView<H>, buffer_id: u64) -> StoreView<H> {
    StoreView { bindings: view.bindings.remove(buffer_id), ..view }
}

/// The store with `binding` as the diff of the buffer `buffer_id`.
pub open spec fn with_binding<H>(
    view: StoreView<H>,
    buffer_id: u64,
    binding: DiffStateView,
) -> StoreView<H> {
    StoreView { bindings: view.bindings.insert(buffer_id, binding), ..view }
}

/// The buffers among `buffers` that have a diff, each with its diff, in the
/// order of `buffers`.
pub open spec fn jobs_for(buffers: Seq<u64>, bindings: Map<u64, DiffStateView>) -> Seq<
    (u64, DiffStateView),
>
    decreases buffers.len(),
{
    if buffers.len() == 0 {
        Seq::empty()
    } else {
        let before = jobs_for(buffers.drop_last(), bindings);
        let buffer = buffers.last();
        if bindings.contains_key(buffer) {
            before.push((buffer, bindings[buffer]))
        } else {
            before
        }
    }
}

/// The buffers among `buffers` that have no diff, in the order of `buffers`.
pub open spec fn buffers_without_diff(buffers: Seq<u64>, bindings: Map<u64, DiffStateView>) -> Seq<
    u64,
>
    decreases buffers.len(),
{
    if buffers.len() == 0 {
        Seq::empty()
    } else {
        let before = buffers_without_diff(buffers.drop_last(), bindings);
        let buffer = buffers.last();
        if bindings.contains_key(buffer) {
            before
        } else {
            before.push(buffer)
        }
    }
}

/// Every buffer is either among those with a diff or among those without.
///
/// For every list of buffers and every set of diffs: the buffers with a diff
/// and the buffers without one are together as many as the buffers; a buffer
/// of the list that has a diff is among the first, with its diff, and one
/// that has none is among the second.
pub proof fn lemma_buffers_are_split(buffers: Seq<u64>, bindings: Map<u64, DiffStateView>)
    ensures
        jobs_for(buffers, bindings).len() + buffers_without_diff(buffers, bindings).len()
            == buffers.len(),
        forall|i: int|
            0 <= i < buffers.len() && bindings.contains_key(#[trigger] buffers[i]) ==> jobs_for(
                buffers,
                bindings,
            ).contains((buffers[i], bindings[buffers[i]])),
        forall|i: int|
            0 <= i < buffers.len() && !bindings.contains_key(#[trigger] buffers[i])
                ==> buffers_without_diff(buffers, bindings).contains(buffers[i]),
        forall|j: int|
            0 <= j < jobs_for(buffers, bindings).len() ==> bindings.contains_key(
                (#[trigger] jobs_for(buffers, bindings)[j]).0,
            ),
        forall|j: int|
            0 <= j < buffers_without_diff(buffers, bindings).len() ==> !bindings.contains_key(
                #[trigger] buffers_without_diff(buffers, bindings)[j],
            ),
    decreases buffers.len(),
{
    if buffers.len() > 0 {
        let shorter = buffers.drop_last();
        let last = buffers.last();
        lemma_buffers_are_split(shorter, bindings);
        let jobs = jobs_for(buffers, bindings);
        let rest = buffers_without_diff(buffers, bindings);
        let jobs_before = jobs_for(shorter, bindings);
        let rest_before = buffers_without_diff(shorter, bindings);
        assert forall|i: int|
            0 <= i < buffers.len() && bindings.contains_key(
                #[trigger] buffers[i],
            ) implies jobs.contains((buffers[i], bindings[buffers[i]])) by {
            if i < shorter.len() {
                assert(shorter[i] == buffers[i]);
                let k = choose|k: int|
                    0 <= k < jobs_before.len() && jobs_before[k] == (
                        shorter[i],
                        bindings[shorter[i]],
                    );
                assert(jobs[k] == jobs_before[k]);
            } else {
                assert(jobs[jobs.len() - 1] == (last, bindings[last]));
            }
        }
        assert forall|i: int|
            0 <= i < buffers.len() && !bindings.contains_key(
                #[trigger] buffers[i],
            ) implies rest.contains(buffers[i]) by {
            if i < shorter.len() {
                assert(shorter[i] == buffers[i]);
                let k = choose|k: int| 0 <= k < rest_before.len() && rest_before[k] == shorter[i];
                assert(rest[k] == rest_before[k]);
            } else {
                assert(rest[rest.len() - 1] == last);
            }
        }
        assert forall|j: int| 0 <= j < jobs.len() implies bindings.contains_key(
            (#[trigger] jobs[j]).0,
        ) by {
            if j < jobs_before.len() {
                assert(jobs[j] == jobs_before[j]);
            }
        }
        assert forall|j: int| 0 <= j < rest.len() implies !bindings.contains_key(
            #[trigger] rest[j],
        ) by {
            if j < rest_before.len() {
                assert(rest[j] == rest_before[j]);
            }
        }
    }
}

/// What is shown of a tracked repository.
pub struct RepositorySummaryView {
    pub id: u64,
    pub worktree_id: u64,
    pub path: Seq<char>,
}

/// What is shown of the repository `state`.
pub open spec fn summary_of(state: RepositoryStateView) -> RepositorySummaryView {
    RepositorySummaryView {
        id: state.work_directory_id,
        worktree_id: state.worktree_id,
        path: state.display_path,
    }
}

/// The repository that a file resolves to, where it resolves to one.
pub open spec fn resolved_repository<H>(view: StoreView<H>, file: BufferFileView) -> RepositoryStateView {
    resolution(view, Some(file)).unwrap().0
}

/// Where a repository goes lies inside the list, behind repositories at least
/// as deep and before shallower ones.
pub proof fn lemma_insertion_index(list: Seq<RepositoryStateView>, depth: usize)
    requires
        deepest_first(list),
    ensures
        0 <= insertion_index(list, depth) <= list.len(),
        forall|i: int|
            0 <= i < insertion_index(list, depth) ==> (#[trigger] list[i]).path_depth >= depth,
        forall|i: int|
            insertion_index(list, depth) <= i < list.len() ==> (#[trigger] list[i]).path_depth
                < depth,
    decreases list.len(),
{
    if list.len() == 0 || list[0].path_depth < depth {
        assert forall|i: int| 0 <= i < list.len() implies (#[trigger] list[i]).path_depth
            < depth by {
            if i > 0 {
                assert(list[0].path_depth >= list[i].path_depth);
            }
        }
    } else {
        let rest = list.drop_first();
        assert forall|i: int, j: int| 0 <= i < j < rest.len() implies (
        #[trigger] rest[i]).path_depth >= (#[trigger] rest[j]).path_depth by {
            assert(rest[i] == list[i + 1]);
            assert(rest[j] == list[j + 1]);
        }
        lemma_insertion_index(rest, depth);
        let p = insertion_index(rest, depth);
        assert forall|i: int| 0 <= i < p + 1 implies (#[trigger] list[i]).path_depth
            >= depth by {
            if i > 0 {
                assert(rest[i - 1] == list[i]);
            }
        }
        assert forall|i: int| p + 1 <= i < list.len() implies (#[trigger] list[i]).path_depth
            < depth by {
            assert(rest[i - 1] == list[i]);
        }
    }
}

/// Removing an identifier from a list keeps what stands of order, identity and
/// membership: the rest is what the list held under other identifiers.
pub proof fn lemma_without_id(list: Seq<RepositoryStateView>, id: u64)
    ensures
        !lists_id(without_id(list, id), id),
        forall|i: int|
            0 <= i < without_id(list, id).len() ==> list.contains(
                #[trigger] without_id(list, id)[i],
            ),
        forall|i: int|
            0 <= i < list.len() && (#[trigger] list[i]).work_directory_id != id ==> without_id(
                list,
                id,
            ).contains(list[i]),
        deepest_first(list) ==> deepest_first(without_id(list, id)),
        distinct_ids(list) ==> distinct_ids(without_id(list, id)),
        !lists_id(list, id) ==> without_id(list, id) == list,
    decreases list.len(),
{
    let keep = |state: RepositoryStateView| state.work_directory_id != id;
    let rest = without_id(list, id);
    reveal_with_fuel(Seq::filter, 2);
    if list.len() == 0 {
        assert(rest =~= list);
    } else {
        let shorter = list.drop_last();
        let last = list.last();
        lemma_without_id(shorter, id);
        let before = without_id(shorter, id);
        assert(rest == if keep(last) {
            before.push(last)
        } else {
            before
        });
        assert forall|i: int| 0 <= i < rest.len() implies list.contains(#[trigger] rest[i]) by {
            if i < before.len() {
                assert(shorter.contains(before[i]));
                let k = choose|k: int| 0 <= k < shorter.len() && shorter[k] == before[i];
                assert(list[k] == rest[i]);
            } else {
                assert(list[list.len() - 1] == rest[i]);
            }
        }
        assert forall|i: int|
            0 <= i < list.len() && (#[trigger] list[i]).work_directory_id != id implies rest.contains(
            list[i],
        ) by {
            if i < shorter.len() {
                assert(shorter[i] == list[i]);
                assert(before.contains(shorter[i]));
                let k = choose|k: int| 0 <= k < before.len() && before[k] == shorter[i];
                assert(rest[k] == list[i]);
            } else {
                assert(rest[rest.len() - 1] == list[i]);
            }
        }
        if lists_id(rest, id) {
            let k = choose|k: int| 0 <= k < rest.len() && (#[trigger] rest[k]).work_directory_id == id;
            if k < before.len() {
                assert(before[k].work_directory_id == id);
                assert(lists_id(before, id));
            }
            assert(false);
        }
        if deepest_first(list) {
            assert(deepest_first(shorter)) by {
                assert forall|i: int, j: int| 0 <= i < j < shorter.len() implies (
                #[trigger] shorter[i]).path_depth >= (#[trigger] shorter[j]).path_depth by {
                    assert(shorter[i] == list[i]);
                    assert(shorter[j] == list[j]);
                }
            }
            assert forall|i: int, j: int| 0 <= i < j < rest.len() implies (
            #[trigger] rest[i]).path_depth >= (#[trigger] rest[j]).path_depth by {
                if j < before.len() {
                    assert(rest[i] == before[i]);
                    assert(rest[j] == before[j]);
                } else {
                    assert(rest[i] == before[i]);
                    assert(shorter.contains(before[i]));
                    let k = choose|k: int| 0 <= k < shorter.len() && shorter[k] == before[i];
                    assert(list[k].path_depth >= list[list.len() - 1].path_depth);
                }
            }
        }
        if distinct_ids(list) {
            assert(distinct_ids(shorter)) by {
                assert forall|i: int, j: int| 0 <= i < j < shorter.len() implies (
                #[trigger] shorter[i]).work_directory_id != (
                #[trigger] shorter[j]).work_directory_id by {
                    assert(shorter[i] == list[i]);
                    assert(shorter[j] == list[j]);
                }
            }
            assert forall|i: int, j: int| 0 <= i < j < rest.len() implies (
            #[trigger] rest[i]).work_directory_id != (#[trigger] rest[j]).work_directory_id by {
                if j < before.len() {
                    assert(rest[i] == before[i]);
                    assert(rest[j] == before[j]);
                } else {
                    assert(rest[i] == before[i]);
                    assert(shorter.contains(before[i]));
                    let k = choose|k: int| 0 <= k < shorter.len() && shorter[k] == before[i];
                    assert(list[k].work_directory_id != list[list.len() - 1].work_directory_id);
                }
            }
        }
        if !lists_id(list, id) {
            assert(!lists_id(shorter, id)) by {
                if lists_id(shorter, id) {
                    let k = choose|k: int|
                        0 <= k < shorter.len() && (#[trigger] shorter[k]).work_directory_id == id;
                    assert(list[k].work_directory_id == id);
                }
            }
            assert(list[list.len() - 1].work_directory_id != id);
            assert(rest =~= list);
        }
    }
}

/// Whether `longer` is `list` with `state` put in at the index `p`.
pub open spec fn is_insertion(
    longer: Seq<RepositoryStateView>,
    list: Seq<RepositoryStateView>,
    p: int,
    state: RepositoryStateView,
) -> bool {
    &&& 0 <= p <= list.len()
    &&& longer.len() == list.len() + 1
    &&& longer[p] == state
    &&& forall|i: int| 0 <= i < p ==> #[trigger] longer[i] == list[i]
    &&& forall|i: int| p < i < longer.len() ==> #[trigger] longer[i] == list[i - 1]
}

/// Putting a repository in where its depth places it keeps the list ordered.
proof fn lemma_insertion_keeps_order(
    longer: Seq<RepositoryStateView>,
    list: Seq<RepositoryStateView>,
    p: int,
    state: RepositoryStateView,
)
    requires
        is_insertion(longer, list, p, state),
        deepest_first(list),
        forall|i: int| 0 <= i < p ==> (#[trigger] list[i]).path_depth >= state.path_depth,
        forall|i: int| p <= i < list.len() ==> (#[trigger] list[i]).path_depth < state.path_depth,
    ensures
        deepest_first(longer),
{
    assert forall|i: int, j: int| 0 <= i < j < longer.len() implies (
    #[trigger] longer[i]).path_depth >= (#[trigger] longer[j]).path_depth by {
        if i < p && j < p {
            assert(list[i].path_depth >= list[j].path_depth);
        } else if i < p && j == p {
            assert(list[i].path_depth >= state.path_depth);
        } else if i < p && j > p {
            assert(list[i].path_depth >= list[j - 1].path_depth);
        } else if i == p {
            assert(list[j - 1].path_depth < state.path_depth);
        } else {
            assert(list[i - 1].path_depth >= list[j - 1].path_depth);
        }
    }
}

/// Putting a repository of a new identifier in keeps the identifiers distinct.
proof fn lemma_insertion_keeps_distinct(
    longer: Seq<RepositoryStateView>,
    list: Seq<RepositoryStateView>,
    p: int,
    state: RepositoryStateView,
)
    requires
        is_insertion(longer, list, p, state),
        distinct_ids(list),
        !lists_id(list, state.work_directory_id),
    ensures
        distinct_ids(longer),
{
    assert forall|i: int, j: int| 0 <= i < j < longer.len() implies (
    #[trigger] longer[i]).work_directory_id != (#[trigger] longer[j]).work_directory_id by {
        if i < p && j < p {
            assert(list[i].work_directory_id != list[j].work_directory_id);
        } else if i < p && j == p {
            assert(list[i].work_directory_id != state.work_directory_id);
        } else if i < p && j > p {
            assert(list[i].work_directory_id != list[j - 1].work_directory_id);
        } else if i == p {
            assert(list[j - 1].work_directory_id != state.work_directory_id);
        } else {
            assert(list[i - 1].work_directory_id != list[j - 1].work_directory_id);
        }
    }
}

/// Putting a repository in adds that repository and nothing else.
proof fn lemma_insertion_members(
    longer: Seq<RepositoryStateView>,
    list: Seq<RepositoryStateView>,
    p: int,
    state: RepositoryStateView,
)
    requires
        is_insertion(longer, list, p, state),
    ensures
        longer.contains(state),
        forall|i: int| 0 <= i < list.len() ==> longer.contains(#[trigger] list[i]),
        forall|i: int|
            0 <= i < longer.len() ==> {
                ||| (#[trigger] longer[i]) == state
                ||| list.contains(longer[i])
            },
{
    assert(longer[p] == state);
    assert forall|i: int| 0 <= i < list.len() implies longer.contains(#[trigger] list[i]) by {
        if i < p {
            assert(longer[i] == list[i]);
        } else {
            assert(longer[i + 1] == list[i]);
        }
    }
    assert forall|i: int| 0 <= i < longer.len() implies {
        ||| (#[trigger] longer[i]) == state
        ||| list.contains(longer[i])
    } by {
        if i < p {
            assert(list[i] == longer[i]);
        } else if i > p {
            assert(list[i - 1] == longer[i]);
        }
    }
}

/// Putting a repository into an ordered list keeps the order and adds nothing
/// but that repository.
pub proof fn lemma_inserted_by_depth(list: Seq<RepositoryStateView>, state: RepositoryStateView)
    requires
        deepest_first(list),
    ensures
        is_insertion(
            inserted_by_depth(list, state),
            list,
            insertion_index(list, state.path_depth),
            state,
        ),
        deepest_first(inserted_by_depth(list, state)),
        inserted_by_depth(list, state).len() == list.len() + 1,
        inserted_by_depth(list, state).contains(state),
        forall|i: int|
            0 <= i < list.len() ==> inserted_by_depth(list, state).contains(#[trigger] list[i]),
        forall|i: int|
            0 <= i < inserted_by_depth(list, state).len() ==> {
                ||| (#[trigger] inserted_by_depth(list, state)[i]) == state
                ||| list.contains(inserted_by_depth(list, state)[i])
            },
        distinct_ids(list) && !lists_id(list, state.work_directory_id) ==> distinct_ids(
            inserted_by_depth(list, state),
        ),
{
    lemma_insertion_index(list, state.path_depth);
    let p = insertion_index(list, state.path_depth);
    let longer = inserted_by_depth(list, state);
    assert(is_insertion(longer, list, p, state));
    lemma_insertion_keeps_order(longer, list, p, state);
    lemma_insertion_members(longer, list, p, state);
    if distinct_ids(list) && !lists_id(list, state.work_directory_id) {
        lemma_insertion_keeps_distinct(longer, list, p, state);
    }
}

/// A consistent store lists a repository only in the worktree that `by_id`
/// names for it.
pub proof fn lemma_listed_once<H>(view: StoreView<H>, worktree_id: u64, id: u64)
    requires
        consistent(view),
        view.by_worktree.contains_key(worktree_id),
        lists_id(view.by_worktree[worktree_id], id),
    ensures
        view.by_id.contains_key(id),
        view.by_id[id].worktree_id == worktree_id,
{
    let list = view.by_worktree[worktree_id];
    assert(worktree_list_consistent(view, worktree_id));
    let i = choose|i: int| 0 <= i < list.len() && (#[trigger] list[i]).work_directory_id == id;
    assert(view.by_id[list[i].work_directory_id] == list[i]);
}

/// Removing a repository keeps the indices in agreement.
pub proof fn lemma_without_repository_consistent<H>(view: StoreView<H>, id: u64)
    requires
        consistent(view),
    ensures
        consistent(without_repository(view, id)),
        !without_repository(view, id).by_id.contains_key(id),
        forall|worktree_id: u64| #[trigger]
            without_repository(view, id).by_worktree.contains_key(worktree_id) ==> !lists_id(
                without_repository(view, id).by_worktree[worktree_id],
                id,
            ),
{
    let after = without_repository(view, id);
    if !view.by_id.contains_key(id) {
        assert forall|worktree_id: u64| #[trigger]
            after.by_worktree.contains_key(worktree_id) implies !lists_id(
            after.by_worktree[worktree_id],
            id,
        ) by {
            if lists_id(after.by_worktree[worktree_id], id) {
                lemma_listed_once(view, worktree_id, id);
            }
        }
    } else {
        let home = view.by_id[id].worktree_id;
        let list = view.by_worktree[home];
        let rest = without_id(list, id);
        assert(worktree_list_consistent(view, home));
        lemma_without_id(list, id);
        assert forall|worktree_id: u64| #[trigger]
            after.by_worktree.contains_key(worktree_id) implies worktree_list_consistent(
            after,
            worktree_id,
        ) && !lists_id(after.by_worktree[worktree_id], id) by {
            assert(worktree_list_consistent(view, worktree_id));
            let now = after.by_worktree[worktree_id];
            if worktree_id == home {
                assert(now == rest);
                assert forall|i: int| 0 <= i < now.len() implies {
                    &&& (#[trigger] now[i]).worktree_id == worktree_id
                    &&& depth_recorded(now[i])
                    &&& after.by_id.contains_key(now[i].work_directory_id)
                    &&& after.by_id[now[i].work_directory_id] == now[i]
                } by {
                    assert(list.contains(now[i]));
                    let k = choose|k: int| 0 <= k < list.len() && list[k] == now[i];
                    assert(list[k].worktree_id == worktree_id);
                    assert(now[i].work_directory_id != id) by {
                        if now[i].work_directory_id == id {
                            assert(lists_id(now, id));
                        }
                    }
                }
            } else {
                assert(now == view.by_worktree[worktree_id]);
                if lists_id(now, id) {
                    lemma_listed_once(view, worktree_id, id);
                }
                assert forall|i: int| 0 <= i < now.len() implies {
                    &&& (#[trigger] now[i]).worktree_id == worktree_id
                    &&& depth_recorded(now[i])
                    &&& after.by_id.contains_key(now[i].work_directory_id)
                    &&& after.by_id[now[i].work_directory_id] == now[i]
                } by {
                    if now[i].work_directory_id == id {
                        assert(lists_id(now, id));
                    }
                }
            }
        }
        assert forall|other: u64| #[trigger] after.by_id.contains_key(other) implies {
            &&& after.by_id[other].work_directory_id == other
            &&& after.by_worktree.contains_key(after.by_id[other].worktree_id)
            &&& after.by_worktree[after.by_id[other].worktree_id].contains(after.by_id[other])
        } by {
            let state = view.by_id[other];
            assert(view.by_id.contains_key(other));
            let its_list = view.by_worktree[state.worktree_id];
            assert(its_list.contains(state));
            if state.worktree_id == home {
                let k = choose|k: int| 0 <= k < list.len() && list[k] == state;
                assert(list[k].work_directory_id != id);
                assert(rest.contains(list[k]));
                assert(rest.len() > 0);
            }
        }
        assert(after.workspaces.dom() =~= after.by_id.dom());
    }
}

/// Tracking a repository keeps the indices in agreement, and leaves the
/// repository in both of them with no handle opened.
pub proof fn lemma_with_repository_consistent<H>(view: StoreView<H>, state: RepositoryStateView)
    requires
        consistent(view),
        depth_recorded(state),
    ensures
        consistent(with_repository(view, state)),
        with_repository(view, state).by_id.contains_key(state.work_directory_id),
        with_repository(view, state).by_id[state.work_directory_id] == state,
        with_repository(view, state).workspaces[state.work_directory_id] == None::<H>,
{
    let id = state.work_directory_id;
    let home = state.worktree_id;
    let cleared = without_repository(view, id);
    lemma_without_repository_consistent(view, id);
    let after = with_repository(view, state);
    let list = if cleared.by_worktree.contains_key(home) {
        cleared.by_worktree[home]
    } else {
        Seq::empty()
    };
    if cleared.by_worktree.contains_key(home) {
        assert(worktree_list_consistent(cleared, home));
    }
    lemma_inserted_by_depth(list, state);
    let longer = inserted_by_depth(list, state);
    assert forall|worktree_id: u64| #[trigger]
        after.by_worktree.contains_key(worktree_id) implies worktree_list_consistent(
        after,
        worktree_id,
    ) by {
        let now = after.by_worktree[worktree_id];
        if worktree_id == home {
            assert(now == longer);
            assert forall|i: int| 0 <= i < now.len() implies {
                &&& (#[trigger] now[i]).worktree_id == worktree_id
                &&& depth_recorded(now[i])
                &&& after.by_id.contains_key(now[i].work_directory_id)
                &&& after.by_id[now[i].work_directory_id] == now[i]
            } by {
                if now[i] != state {
                    assert(list.contains(now[i]));
                    let k = choose|k: int| 0 <= k < list.len() && list[k] == now[i];
                    assert(list[k].worktree_id == worktree_id);
                    assert(cleared.by_id.contains_key(list[k].work_directory_id));
                }
            }
        } else {
            assert(cleared.by_worktree.contains_key(worktree_id));
            assert(worktree_list_consistent(cleared, worktree_id));
            assert(now == cleared.by_worktree[worktree_id]);
            assert forall|i: int| 0 <= i < now.len() implies {
                &&& (#[trigger] now[i]).worktree_id == worktree_id
                &&& depth_recorded(now[i])
                &&& after.by_id.contains_key(now[i].work_directory_id)
                &&& after.by_id[now[i].work_directory_id] == now[i]
            } by {
                assert(cleared.by_id.contains_key(now[i].work_directory_id));
            }
        }
    }
    assert forall|other: u64| #[trigger] after.by_id.contains_key(other) implies {
        &&& after.by_id[other].work_directory_id == other
        &&& after.by_worktree.contains_key(after.by_id[other].worktree_id)
        &&& after.by_worktree[after.by_id[other].worktree_id].contains(after.by_id[other])
    } by {
        if other != id {
            assert(cleared.by_id.contains_key(other));
            let there = cleared.by_id[other];
            let its_list = cleared.by_worktree[there.worktree_id];
            assert(its_list.contains(there));
            if there.worktree_id == home {
                let k = choose|k: int| 0 <= k < list.len() && list[k] == there;
                assert(longer.contains(list[k]));
            }
        }
    }
    assert(after.workspaces.dom() =~= after.by_id.dom());
}

/// Removing the listed repositories from `by_id` leaves exactly the others.
pub proof fn lemma_without_listed<H>(view: StoreView<H>, list: Seq<RepositoryStateView>)
    ensures
        without_listed(view, list).by_worktree == view.by_worktree,
        without_listed(view, list).bindings == view.bindings,
        forall|id: u64|
            #![trigger without_listed(view, list).by_id.contains_key(id)]
            without_listed(view, list).by_id.contains_key(id) <==> view.by_id.contains_key(id)
                && !lists_id(list, id),
        forall|id: u64|
            #![trigger without_listed(view, list).by_id[id]]
            without_listed(view, list).by_id.contains_key(id) ==> without_listed(
                view,
                list,
            ).by_id[id] == view.by_id[id],
        forall|id: u64|
            #![trigger without_listed(view, list).workspaces.contains_key(id)]
            without_listed(view, list).workspaces.contains_key(id)
                <==> view.workspaces.contains_key(id) && !lists_id(list, id),
        forall|id: u64|
            #![trigger without_listed(view, list).workspaces[id]]
            without_listed(view, list).workspaces.contains_key(id) ==> without_listed(
                view,
                list,
            ).workspaces[id] == view.workspaces[id],
    decreases list.len(),
{
    if list.len() > 0 {
        let shorter = list.drop_last();
        lemma_without_listed(view, shorter);
        let last_id = list.last().work_directory_id;
        assert forall|id: u64| lists_id(list, id) <==> lists_id(shorter, id) || id == last_id by {
            if lists_id(list, id) {
                let k = choose|k: int|
                    0 <= k < list.len() && (#[trigger] list[k]).work_directory_id == id;
                if k < shorter.len() {
                    assert(shorter[k].work_directory_id == id);
                }
            }
            if lists_id(shorter, id) {
                let k = choose|k: int|
                    0 <= k < shorter.len() && (#[trigger] shorter[k]).work_directory_id == id;
                assert(list[k].work_directory_id == id);
            }
            if id == last_id {
                assert(list[list.len() - 1].work_directory_id == id);
            }
        }
    }
}

/// Removing a worktree keeps the indices in agreement, and leaves none of its
/// repositories in either of them.
pub proof fn lemma_without_worktree_consistent<H>(view: StoreView<H>, worktree_id: u64)
    requires
        consistent(view),
    ensures
        consistent(without_worktree(view, worktree_id)),
        !without_worktree(view, worktree_id).by_worktree.contains_key(worktree_id),
        forall|id: u64|
            #![trigger without_worktree(view, worktree_id).by_id.contains_key(id)]
            without_worktree(view, worktree_id).by_id.contains_key(id) <==> view.by_id.contains_key(
                id,
            ) && view.by_id[id].worktree_id != worktree_id,
{
    let after = without_worktree(view, worktree_id);
    if view.by_worktree.contains_key(worktree_id) {
        let list = view.by_worktree[worktree_id];
        lemma_without_listed(view, list);
        assert(worktree_list_consistent(view, worktree_id));
        assert forall|id: u64| view.by_id.contains_key(id) implies (lists_id(list, id)
            <==> view.by_id[id].worktree_id == worktree_id) by {
            if lists_id(list, id) {
                lemma_listed_once(view, worktree_id, id);
            }
            if view.by_id[id].worktree_id == worktree_id {
                assert(list.contains(view.by_id[id]));
                let k = choose|k: int| 0 <= k < list.len() && list[k] == view.by_id[id];
                assert(list[k].work_directory_id == id);
            }
        }
        assert forall|other: u64| #[trigger]
            after.by_worktree.contains_key(other) implies worktree_list_consistent(
            after,
            other,
        ) by {
            assert(worktree_list_consistent(view, other));
            let now = after.by_worktree[other];
            assert forall|i: int| 0 <= i < now.len() implies {
                &&& (#[trigger] now[i]).worktree_id == other
                &&& depth_recorded(now[i])
                &&& after.by_id.contains_key(now[i].work_directory_id)
                &&& after.by_id[now[i].work_directory_id] == now[i]
            } by {
                assert(view.by_id.contains_key(now[i].work_directory_id));
                assert(view.by_id[now[i].work_directory_id].worktree_id == other);
                assert(without_listed(view, list).by_id.contains_key(now[i].work_directory_id));
            }
        }
        assert forall|id: u64| #[trigger] after.by_id.contains_key(id) implies {
            &&& after.by_id[id].work_directory_id == id
            &&& after.by_worktree.contains_key(after.by_id[id].worktree_id)
            &&& after.by_worktree[after.by_id[id].worktree_id].contains(after.by_id[id])
        } by {
            assert(without_listed(view, list).by_id.contains_key(id));
            assert(view.by_id.contains_key(id));
        }
        assert(after.workspaces.dom() =~= after.by_id.dom()) by {
            assert forall|id: u64| after.workspaces.contains_key(id) == after.by_id.contains_key(
                id,
            ) by {
                assert(without_listed(view, list).workspaces.contains_key(id)
                    == without_listed(view, list).by_id.contains_key(id)) by {
                    assert(view.workspaces.dom().contains(id) == view.by_id.dom().contains(id));
                }
            }
        }
        assert forall|id: u64|
            #![trigger after.by_id.contains_key(id)]
            after.by_id.contains_key(id) <==> view.by_id.contains_key(id)
                && view.by_id[id].worktree_id != worktree_id by {
            assert(without_listed(view, list).by_id.contains_key(id) <==> view.by_id.contains_key(
                id,
            ) && !lists_id(list, id));
        }
    } else {
        assert forall|id: u64|
            #![trigger after.by_id.contains_key(id)]
            after.by_id.contains_key(id) <==> view.by_id.contains_key(id)
                && view.by_id[id].worktree_id != worktree_id by {
            if view.by_id.contains_key(id) {
                assert(view.by_worktree.contains_key(view.by_id[id].worktree_id));
            }
        }
    }
}

/// A repository that has been tracked and then removed is in neither index.
///
/// For every consistent store, every worktree and every repository: after the
/// repository has been tracked and then removed by its identifier, `by_id`
/// does not hold the identifier, and no list of `by_worktree` holds a
/// repository of it.
pub proof fn lemma_tracked_then_removed_is_absent<H>(view: StoreView<H>, state: RepositoryStateView)
    requires
        consistent(view),
        depth_recorded(state),
    ensures
        ({
            let after = without_repository(
                with_repository(view, state),
                state.work_directory_id,
            );
            &&& consistent(after)
            &&& !after.by_id.contains_key(state.work_directory_id)
            &&& !after.workspaces.contains_key(state.work_directory_id)
            &&& forall|worktree_id: u64| #[trigger]
                after.by_worktree.contains_key(worktree_id) ==> !lists_id(
                    after.by_worktree[worktree_id],
                    state.work_directory_id,
                )
        }),
{
    lemma_with_repository_consistent(view, state);
    lemma_without_repository_consistent(with_repository(view, state), state.work_directory_id);
}

/// What owns a file is a repository of the list under whose root the file
/// lies, and no repository before it in the list is one.
pub proof fn lemma_owner_in(list: Seq<RepositoryStateView>, file: Seq<Seq<char>>)
    ensures
        match owner_in(list, file) {
            Some((owner, text)) => exists|i: int|
                {
                    &&& 0 <= i < list.len()
                    &&& #[trigger] list[i] == owner
                    &&& repo_relative_text(file, owner.work_directory_abs_path) == Some(text)
                    &&& forall|j: int|
                        0 <= j < i ==> repo_relative_text(
                            file,
                            (#[trigger] list[j]).work_directory_abs_path,
                        ) is None
                },
            None => forall|j: int|
                0 <= j < list.len() ==> repo_relative_text(
                    file,
                    (#[trigger] list[j]).work_directory_abs_path,
                ) is None,
        },
    decreases list.len(),
{
    if list.len() > 0 {
        let rest = list.drop_first();
        match repo_relative_text(file, list[0].work_directory_abs_path) {
            Some(text) => {
                let found = owner_in(list, file).unwrap();
                assert(list[0] == found.0);
            },
            None => {
                lemma_owner_in(rest, file);
                match owner_in(rest, file) {
                    Some((owner, text)) => {
                        let i = choose|i: int|
                            {
                                &&& 0 <= i < rest.len()
                                &&& #[trigger] rest[i] == owner
                                &&& repo_relative_text(file, owner.work_directory_abs_path)
                                    == Some(text)
                                &&& forall|j: int|
                                    0 <= j < i ==> repo_relative_text(
                                        file,
                                        (#[trigger] rest[j]).work_directory_abs_path,
                                    ) is None
                            };
                        assert(list[i + 1] == owner);
                        assert forall|j: int| 0 <= j < i + 1 implies repo_relative_text(
                            file,
                            (#[trigger] list[j]).work_directory_abs_path,
                        ) is None by {
                            if j > 0 {
                                assert(rest[j - 1] == list[j]);
                            }
                        }
                    },
                    None => {
                        assert forall|j: int| 0 <= j < list.len() implies repo_relative_text(
                            file,
                            (#[trigger] list[j]).work_directory_abs_path,
                        ) is None by {
                            if j > 0 {
                                assert(rest[j - 1] == list[j]);
                            }
                        }
                    },
                }
            },
        }
    }
}

/// Of nested repositories the innermost owns a file.
///
/// For every consistent store and every local file: where some repository of
/// the file's worktree has the file under its root, the file resolves to a
/// repository, and none of the worktree's repositories that have the file
/// under their root lies deeper than the one it resolves to. So a file under
/// `root/sub` never resolves to a repository at `root` while one at `root/sub`
/// is tracked.
pub proof fn lemma_resolution_is_innermost<H>(
    view: StoreView<H>,
    file: BufferFileView,
    candidate: RepositoryStateView,
)
    requires
        consistent(view),
        file.is_local,
        view.by_worktree.contains_key(file.worktree_id),
        view.by_worktree[file.worktree_id].contains(candidate),
        repo_relative_text(file.abs_path, candidate.work_directory_abs_path) is Some,
    ensures
        resolution(view, Some(file)) is Some,
        resolved_repository(view, file).path_depth >= candidate.path_depth,
        candidate.work_directory_abs_path.is_prefix_of(
            resolved_repository(view, file).work_directory_abs_path,
        ),
{
    let list = view.by_worktree[file.worktree_id];
    assert(worktree_list_consistent(view, file.worktree_id));
    lemma_owner_in(list, file.abs_path);
    let c = choose|c: int| 0 <= c < list.len() && list[c] == candidate;
    assert(repo_relative_text(file.abs_path, list[c].work_directory_abs_path) is Some);
    let (owner, text) = owner_in(list, file.abs_path).unwrap();
    let i = choose|i: int|
        {
            &&& 0 <= i < list.len()
            &&& #[trigger] list[i] == owner
            &&& repo_relative_text(file.abs_path, owner.work_directory_abs_path) == Some(text)
            &&& forall|j: int|
                0 <= j < i ==> repo_relative_text(
                    file.abs_path,
                    (#[trigger] list[j]).work_directory_abs_path,
                ) is None
        };
    assert(i <= c);
    if i < c {
        assert(list[i].path_depth >= list[c].path_depth);
    }
    assert(depth_recorded(list[i]));
    assert(depth_recorded(list[c]));
    let outer = candidate.work_directory_abs_path;
    let inner = owner.work_directory_abs_path;
    assert(outer.is_prefix_of(file.abs_path));
    assert(inner.is_prefix_of(file.abs_path));
    assert(outer =~= inner.subrange(0, outer.len() as int));
}

} // verus!
