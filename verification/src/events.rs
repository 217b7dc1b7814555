//! What the store does when the worktrees change.

use std::collections::BTreeMap;
use vstd::prelude::*;

use crate::reconcile::change_for;
use crate::reconcile::entry_changed;
use crate::reconcile::is_diff;
use crate::reconcile::reports;
use crate::reconcile::UpdatedRepositoryView;
use crate::store::state_of_entry;
use crate::store::JjStore;
use crate::store::WorktreeId;
use crate::store_model::lemma_with_repository_consistent;
use crate::store_model::lemma_without_repository_consistent;
use crate::store_model::lemma_without_worktree_consistent;
use crate::store_model::consistent;
use crate::store_model::with_repository;
use crate::store_model::without_repository;
use crate::store_model::without_worktree;
use crate::store_model::StoreView;
use crate::tracker::change_views;
use crate::tracker::scan_view;
use crate::tracker::JjRepositoryEntry;
use crate::tracker::ProjectEntryId;
use crate::tracker::UpdatedJjRepository;

verus! {

/// Something that happened to the worktrees.
pub enum WorktreeStoreEvent {
    /// A worktree was added. `entries` are the repositories that it is known
    /// to hold, or nothing where it does not look for repositories.
    WorktreeAdded { worktree_id: WorktreeId, entries: Option<Vec<JjRepositoryEntry>> },
    /// A worktree was removed.
    WorktreeRemoved(WorktreeId),
    /// A worktree was released.
    WorktreeReleased(WorktreeId),
    /// A scan of a worktree found its repositories changed. `current` are the
    /// repositories that the worktree holds now, by identifier, or nothing
    /// where the worktree is gone.
    WorktreeUpdatedJjRepositories {
        worktree_id: WorktreeId,
        changes: Vec<UpdatedJjRepository>,
        current: Option<BTreeMap<ProjectEntryId, JjRepositoryEntry>>,
    },
    /// Anything else, of which the store takes no notice.
    Other,
}

/// The store after each of `entries` has been tracked in the worktree
/// `worktree_id`, one after another.
pub open spec fn with_entries<H>(
    view: StoreView<H>,
    worktree_id: WorktreeId,
    entries: Seq<JjRepositoryEntry>,
) -> StoreView<H>
    decreases entries.len(),
{
    if entries.len() == 0 {
        view
    } else {
        with_repository(
            with_entries(view, worktree_id, entries.drop_last()),
            state_of_entry(worktree_id, entries.last()),
        )
    }
}

/// The store after the repositories of each of `worktrees` have been tracked,
/// one worktree after another.
pub open spec fn with_worktrees<H>(
    view: StoreView<H>,
    worktrees: Seq<(WorktreeId, Option<Vec<JjRepositoryEntry>>)>,
) -> StoreView<H>
    decreases worktrees.len(),
{
    if worktrees.len() == 0 {
        view
    } else {
        let before = with_worktrees(view, worktrees.drop_last());
        match worktrees.last().1 {
            Some(entries) => with_entries(before, worktrees.last().0, entries@),
            None => before,
        }
    }
}

/// The store after one change of a scan of the worktree `worktree_id`. A
/// change with a new path has the repository's record fetched from `current`
/// and tracked; where there is no such record, nothing happens. A change
/// without a new path removes the repository.
pub open spec fn after_change<H>(
    view: StoreView<H>,
    worktree_id: WorktreeId,
    change: UpdatedRepositoryView,
    current: Option<Map<ProjectEntryId, JjRepositoryEntry>>,
) -> StoreView<H> {
    if change.new_work_directory_abs_path is Some {
        match current {
            Some(entries) => if entries.contains_key(change.work_directory_id) {
                with_repository(
                    view,
                    state_of_entry(worktree_id, entries[change.work_directory_id]),
                )
            } else {
                view
            },
            None => view,
        }
    } else {
        without_repository(view, change.work_directory_id)
    }
}

/// The store after the changes of a scan, one after another.
pub open spec fn after_changes<H>(
    view: StoreView<H>,
    worktree_id: WorktreeId,
    changes: Seq<UpdatedRepositoryView>,
    current: Option<Map<ProjectEntryId, JjRepositoryEntry>>,
) -> StoreView<H>
    decreases changes.len(),
{
    if changes.len() == 0 {
        view
    } else {
        after_change(
            after_changes(view, worktree_id, changes.drop_last(), current),
            worktree_id,
            changes.last(),
            current,
        )
    }
}

/// The repositories of a map that may be absent.
pub open spec fn optional_entries(
    current: Option<BTreeMap<ProjectEntryId, JjRepositoryEntry>>,
) -> Option<Map<ProjectEntryId, JjRepositoryEntry>> {
    match current {
        Some(entries) => Some(entries@),
        None => None,
    }
}

/// The store after `event`.
pub open spec fn after_event<H>(view: StoreView<H>, event: WorktreeStoreEvent) -> StoreView<H> {
    match event {
        WorktreeStoreEvent::WorktreeAdded { worktree_id, entries } => match entries {
            Some(entries) => with_entries(view, worktree_id, entries@),
            None => view,
        },
        WorktreeStoreEvent::WorktreeRemoved(worktree_id) => without_worktree(view, worktree_id),
        WorktreeStoreEvent::WorktreeReleased(worktree_id) => without_worktree(view, worktree_id),
        WorktreeStoreEvent::WorktreeUpdatedJjRepositories {
            worktree_id,
            changes,
            current,
        } => after_changes(view, worktree_id, change_views(changes@), optional_entries(current)),
        WorktreeStoreEvent::Other => view,
    }
}

/// Tracking repositories one after another keeps the indices in agreement.
pub proof fn lemma_with_entries_consistent<H>(
    view: StoreView<H>,
    worktree_id: WorktreeId,
    entries: Seq<JjRepositoryEntry>,
)
    requires
        consistent(view),
    ensures
        consistent(with_entries(view, worktree_id, entries)),
    decreases entries.len(),
{
    if entries.len() > 0 {
        lemma_with_entries_consistent(view, worktree_id, entries.drop_last());
        entries.last().work_directory_abs_path.lemma_depth_is_bounded();
        lemma_with_repository_consistent(
            with_entries(view, worktree_id, entries.drop_last()),
            state_of_entry(worktree_id, entries.last()),
        );
    }
}

/// Applying the changes of a scan keeps the indices in agreement.
pub proof fn lemma_after_changes_consistent<H>(
    view: StoreView<H>,
    worktree_id: WorktreeId,
    changes: Seq<UpdatedRepositoryView>,
    current: Option<Map<ProjectEntryId, JjRepositoryEntry>>,
)
    requires
        consistent(view),
    ensures
        consistent(after_changes(view, worktree_id, changes, current)),
    decreases changes.len(),
{
    if changes.len() > 0 {
        let before = after_changes(view, worktree_id, changes.drop_last(), current);
        lemma_after_changes_consistent(view, worktree_id, changes.drop_last(), current);
        let change = changes.last();
        if change.new_work_directory_abs_path is Some {
            if current is Some && current->0.contains_key(change.work_directory_id) {
                current->0[change.work_directory_id].work_directory_abs_path.lemma_depth_is_bounded();
                lemma_with_repository_consistent(
                    before,
                    state_of_entry(worktree_id, current->0[change.work_directory_id]),
                );
            }
        } else {
            lemma_without_repository_consistent(before, change.work_directory_id);
        }
    }
}

/// After every event the indices agree.
///
/// For every consistent store and every event, the store after the event is
/// consistent: no identifier is in one index and not in the other, and what
/// the two hold under it is the same.
pub proof fn lemma_after_event_consistent<H>(view: StoreView<H>, event: WorktreeStoreEvent)
    requires
        consistent(view),
    ensures
        consistent(after_event(view, event)),
{
    match event {
        WorktreeStoreEvent::WorktreeAdded { worktree_id, entries } => {
            if entries is Some {
                lemma_with_entries_consistent(view, worktree_id, entries->0@);
            }
        },
        WorktreeStoreEvent::WorktreeRemoved(worktree_id) => {
            lemma_without_worktree_consistent(view, worktree_id);
        },
        WorktreeStoreEvent::WorktreeReleased(worktree_id) => {
            lemma_without_worktree_consistent(view, worktree_id);
        },
        WorktreeStoreEvent::WorktreeUpdatedJjRepositories { worktree_id, changes, current } => {
            lemma_after_changes_consistent(
                view,
                worktree_id,
                change_views(changes@),
                optional_entries(current),
            );
        },
        WorktreeStoreEvent::Other => {},
    }
}

/// Whether each repository of `scan` stands under its own identifier.
pub open spec fn keyed_by_id(scan: Map<ProjectEntryId, JjRepositoryEntry>) -> bool {
    forall|id: ProjectEntryId| #[trigger]
        scan.contains_key(id) ==> scan[id].work_directory_id == id
}

/// Whether the store holds, for the worktree `worktree_id`, exactly the
/// repositories of `scan`, each as tracking records it.
pub open spec fn holds_scan<H>(
    view: StoreView<H>,
    worktree_id: WorktreeId,
    scan: Map<ProjectEntryId, JjRepositoryEntry>,
) -> bool {
    forall|id: ProjectEntryId|
        #![trigger view.by_id.contains_key(id)]
        #![trigger scan.contains_key(id)]
        if scan.contains_key(id) {
            view.by_id.contains_key(id) && view.by_id[id] == state_of_entry(worktree_id, scan[id])
        } else {
            view.by_id.contains_key(id) ==> view.by_id[id].worktree_id != worktree_id
        }
}

/// Whether the two scans agree, in what tracking records, on every repository
/// that does not count as changed between them.
pub open spec fn unchanged_states_agree(
    worktree_id: WorktreeId,
    old: Map<ProjectEntryId, JjRepositoryEntry>,
    new: Map<ProjectEntryId, JjRepositoryEntry>,
) -> bool {
    forall|id: ProjectEntryId|
        #![trigger old.contains_key(id), new.contains_key(id)]
        old.contains_key(id) && new.contains_key(id) && !entry_changed(old[id]@, new[id]@)
            ==> state_of_entry(worktree_id, old[id]) == state_of_entry(worktree_id, new[id])
}

/// What `by_id` holds after one change.
proof fn lemma_by_id_after_change<H>(
    view: StoreView<H>,
    worktree_id: WorktreeId,
    change: UpdatedRepositoryView,
    current: Map<ProjectEntryId, JjRepositoryEntry>,
)
    requires
        keyed_by_id(current),
    ensures
        after_change(view, worktree_id, change, Some(current)).by_id == if change.new_work_directory_abs_path is Some {
            if current.contains_key(change.work_directory_id) {
                view.by_id.insert(
                    change.work_directory_id,
                    state_of_entry(worktree_id, current[change.work_directory_id]),
                )
            } else {
                view.by_id
            }
        } else {
            view.by_id.remove(change.work_directory_id)
        },
{
    let id = change.work_directory_id;
    let after = after_change(view, worktree_id, change, Some(current));
    if change.new_work_directory_abs_path is Some {
        if current.contains_key(id) {
            let state = state_of_entry(worktree_id, current[id]);
            assert(state.work_directory_id == id);
            assert(after.by_id =~= view.by_id.insert(id, state));
        }
    } else {
        assert(after.by_id =~= view.by_id.remove(id));
    }
}

/// Applying the first changes of a diff settles exactly the identifiers that
/// they report: those stand in `by_id` as in the new scan, all others as
/// before.
proof fn lemma_after_changes_prefix<H>(
    view: StoreView<H>,
    worktree_id: WorktreeId,
    changes: Seq<UpdatedRepositoryView>,
    old: Map<ProjectEntryId, JjRepositoryEntry>,
    new: Map<ProjectEntryId, JjRepositoryEntry>,
)
    requires
        keyed_by_id(new),
        forall|i: int|
            0 <= i < changes.len() ==> change_for(
                (#[trigger] changes[i]).work_directory_id,
                scan_view(old),
                scan_view(new),
            ) == Some(changes[i]),
    ensures
        forall|id: ProjectEntryId|
            #![trigger after_changes(view, worktree_id, changes, Some(new)).by_id.contains_key(id)]
            #![trigger after_changes(view, worktree_id, changes, Some(new)).by_id[id]]
            {
                let by_id = after_changes(view, worktree_id, changes, Some(new)).by_id;
                if reports(changes, id) {
                    by_id.contains_key(id) == new.contains_key(id) && (new.contains_key(id)
                        ==> by_id[id] == state_of_entry(worktree_id, new[id]))
                } else {
                    by_id.contains_key(id) == view.by_id.contains_key(id) && (
                    view.by_id.contains_key(id) ==> by_id[id] == view.by_id[id])
                }
            },
    decreases changes.len(),
{
    if changes.len() > 0 {
        let before = changes.drop_last();
        let last = changes.last();
        assert forall|i: int| 0 <= i < before.len() implies change_for(
            (#[trigger] before[i]).work_directory_id,
            scan_view(old),
            scan_view(new),
        ) == Some(before[i]) by {
            assert(before[i] == changes[i]);
        }
        lemma_after_changes_prefix(view, worktree_id, before, old, new);
        let earlier = after_changes(view, worktree_id, before, Some(new));
        let now = after_changes(view, worktree_id, changes, Some(new));
        lemma_by_id_after_change(earlier, worktree_id, last, new);
        assert(change_for(last.work_directory_id, scan_view(old), scan_view(new)) == Some(last));
        assert(last.new_work_directory_abs_path is Some <==> new.contains_key(
            last.work_directory_id,
        ));
        assert forall|id: ProjectEntryId|
            #![trigger now.by_id.contains_key(id)]
            #![trigger now.by_id[id]]
            {
                if reports(changes, id) {
                    now.by_id.contains_key(id) == new.contains_key(id) && (new.contains_key(id)
                        ==> now.by_id[id] == state_of_entry(worktree_id, new[id]))
                } else {
                    now.by_id.contains_key(id) == view.by_id.contains_key(id) && (
                    view.by_id.contains_key(id) ==> now.by_id[id] == view.by_id[id])
                }
            } by {
            if id == last.work_directory_id {
                assert(changes[changes.len() - 1].work_directory_id == id);
                assert(reports(changes, id));
            } else if reports(before, id) {
                let i = choose|i: int|
                    0 <= i < before.len() && (#[trigger] before[i]).work_directory_id == id;
                assert(changes[i].work_directory_id == id);
                assert(reports(changes, id));
                assert(earlier.by_id.contains_key(id) == new.contains_key(id));
            } else {
                if reports(changes, id) {
                    let i = choose|i: int|
                        0 <= i < changes.len() && (#[trigger] changes[i]).work_directory_id == id;
                    assert(before[i].work_directory_id == id);
                    assert(false);
                }
                assert(earlier.by_id.contains_key(id) == view.by_id.contains_key(id));
            }
        }
    }
}

/// A store that follows the scans of a worktree holds what the last scan
/// found.
///
/// For every consistent store that holds the repositories of the scan `old`
/// for a worktree, and every scan `new` of that worktree whose repositories
/// stand under their own identifiers and agree with `old` where they do not
/// count as changed: after the changes of `diff(old, new)` have been applied,
/// with the records fetched from `new`, the store is consistent and holds the
/// repositories of `new` for that worktree.
pub proof fn lemma_store_follows_scans<H>(
    view: StoreView<H>,
    worktree_id: WorktreeId,
    changes: Seq<UpdatedRepositoryView>,
    old: Map<ProjectEntryId, JjRepositoryEntry>,
    new: Map<ProjectEntryId, JjRepositoryEntry>,
)
    requires
        consistent(view),
        holds_scan(view, worktree_id, old),
        keyed_by_id(new),
        unchanged_states_agree(worktree_id, old, new),
        is_diff(changes, scan_view(old), scan_view(new)),
    ensures
        consistent(after_changes(view, worktree_id, changes, Some(new))),
        holds_scan(after_changes(view, worktree_id, changes, Some(new)), worktree_id, new),
{
    lemma_after_changes_consistent(view, worktree_id, changes, Some(new));
    lemma_after_changes_prefix(view, worktree_id, changes, old, new);
    let after = after_changes(view, worktree_id, changes, Some(new));
    let old_scan = scan_view(old);
    let new_scan = scan_view(new);
    assert forall|id: ProjectEntryId|
        #![trigger after.by_id.contains_key(id)]
        #![trigger new.contains_key(id)]
        if new.contains_key(id) {
            after.by_id.contains_key(id) && after.by_id[id] == state_of_entry(
                worktree_id,
                new[id],
            )
        } else {
            after.by_id.contains_key(id) ==> after.by_id[id].worktree_id != worktree_id
        } by {
        assert(new_scan.contains_key(id) == new.contains_key(id));
        assert(old_scan.contains_key(id) == old.contains_key(id));
        if !reports(changes, id) {
            assert(change_for(id, old_scan, new_scan) is None);
            if new.contains_key(id) {
                assert(old.contains_key(id));
                assert(!entry_changed(old_scan[id], new_scan[id]));
                assert(old_scan[id] == old[id]@);
                assert(new_scan[id] == new[id]@);
                assert(view.by_id.contains_key(id));
            } else {
                assert(!old.contains_key(id));
                assert(view.by_id.contains_key(id) ==> view.by_id[id].worktree_id != worktree_id);
            }
        }
    }
}

impl<H> JjStore<H> {
    /// Tracks the repositories that the worktree `worktree_id` is known to
    /// hold, one after another. Nothing happens for a worktree that does not
    /// look for repositories.
    pub fn add_worktree_repositories(
        &mut self,
        worktree_id: WorktreeId,
        entries: Option<Vec<JjRepositoryEntry>>,
    )
        requires
            old(self).well_formed(),
        ensures
            final(self).well_formed(),
            final(self)@ == match entries {
                Some(list) => with_entries(old(self)@, worktree_id, list@),
                None => old(self)@,
            },
    {
        let ghost before = self@;
        match entries {
            Some(list) => {
                let ghost all = list@;
                proof {
                    assert(all.take(0) =~= Seq::<JjRepositoryEntry>::empty());
                }
                for entry in it: list
                    invariant
                        self.well_formed(),
                        it.seq() == all,
                        self@ == with_entries(before, worktree_id, all.take(it.index())),
                {
                    proof {
                        let upto = all.take(it.index() + 1);
                        assert(upto.drop_last() =~= all.take(it.index()));
                        assert(upto.last() == entry);
                    }
                    self.track_repository(worktree_id, entry);
                }
                proof {
                    assert(all.take(all.len() as int) =~= all);
                }
            },
            None => {},
        }
    }

    /// Tracks the repositories of the worktrees that exist when the store is
    /// set up, one worktree after another.
    pub fn refresh_existing_worktrees(
        &mut self,
        worktrees: Vec<(WorktreeId, Option<Vec<JjRepositoryEntry>>)>,
    )
        requires
            old(self).well_formed(),
        ensures
            final(self).well_formed(),
            final(self)@ == with_worktrees(old(self)@, worktrees@),
    {
        let ghost before = self@;
        let ghost all = worktrees@;
        proof {
            assert(all.take(0) =~= Seq::<(WorktreeId, Option<Vec<JjRepositoryEntry>>)>::empty());
        }
        for worktree in it: worktrees
            invariant
                self.well_formed(),
                it.seq() == all,
                self@ == with_worktrees(before, all.take(it.index())),
        {
            proof {
                let upto = all.take(it.index() + 1);
                assert(upto.drop_last() =~= all.take(it.index()));
                assert(upto.last() == worktree);
            }
            let (worktree_id, entries) = worktree;
            self.add_worktree_repositories(worktree_id, entries);
        }
        proof {
            assert(all.take(all.len() as int) =~= all);
        }
    }

    /// Applies the changes that a scan of the worktree `worktree_id` found, one
    /// after another. A change with a new path has the repository's record
    /// fetched from `current` and tracked; a change without one removes the
    /// repository.
    pub fn apply_repository_changes(
        &mut self,
        worktree_id: WorktreeId,
        changes: &Vec<UpdatedJjRepository>,
        current: Option<&BTreeMap<ProjectEntryId, JjRepositoryEntry>>,
    )
        requires
            old(self).well_formed(),
        ensures
            final(self).well_formed(),
            final(self)@ == after_changes(
                old(self)@,
                worktree_id,
                change_views(changes@),
                match current {
                    Some(entries) => Some(entries@),
                    None => None,
                },
            ),
    {
        let ghost before = self@;
        let ghost views = change_views(changes@);
        let ghost known: Option<Map<ProjectEntryId, JjRepositoryEntry>> = match current {
            Some(entries) => Some(entries@),
            None => None,
        };
        let mut i: usize = 0;
        proof {
            assert(views.take(0) =~= Seq::<UpdatedRepositoryView>::empty());
        }
        while i < changes.len()
            invariant
                i <= changes.len(),
                self.well_formed(),
                views == change_views(changes@),
                known == match current {
                    Some(entries) => Some(entries@),
                    None => None,
                },
                self@ == after_changes(before, worktree_id, views.take(i as int), known),
            decreases changes.len() - i,
        {
            let change = &changes[i];
            proof {
                let upto = views.take(i + 1);
                assert(upto.drop_last() =~= views.take(i as int));
                assert(upto.last() == change@);
            }
            if change.new_work_directory_abs_path.is_some() {
                match current {
                    Some(entries) => {
                        match entries.get(&change.work_directory_id) {
                            Some(entry) => {
                                let copy = entry.clone();
                                proof {
                                    assert(state_of_entry(worktree_id, copy) == state_of_entry(
                                        worktree_id,
                                        *entry,
                                    ));
                                }
                                self.track_repository(worktree_id, copy);
                            },
                            None => {},
                        }
                    },
                    None => {},
                }
            } else {
                self.remove_repository(change.work_directory_id);
            }
            i += 1;
        }
        proof {
            assert(views.take(changes.len() as int) =~= views);
        }
    }

    /// Takes notice of something that happened to the worktrees. A worktree
    /// that was added has its repositories tracked; one that was removed or
    /// released leaves the store with all its repositories; the changes of a
    /// scan are applied.
    pub fn on_worktree_store_event(&mut self, event: WorktreeStoreEvent)
        requires
            old(self).well_formed(),
        ensures
            final(self).well_formed(),
            final(self)@ == after_event(old(self)@, event),
    {
        match event {
            WorktreeStoreEvent::WorktreeAdded { worktree_id, entries } => {
                self.add_worktree_repositories(worktree_id, entries);
            },
            WorktreeStoreEvent::WorktreeRemoved(worktree_id) => {
                self.remove_worktree(worktree_id);
            },
            WorktreeStoreEvent::WorktreeReleased(worktree_id) => {
                self.remove_worktree(worktree_id);
            },
            WorktreeStoreEvent::WorktreeUpdatedJjRepositories { worktree_id, changes, current } => {
                match current {
                    Some(entries) => {
                        self.apply_repository_changes(worktree_id, &changes, Some(&entries));
                    },
                    None => {
                        self.apply_repository_changes(worktree_id, &changes, None);
                    },
                }
            },
            WorktreeStoreEvent::Other => {},
        }
    }
}

} // verus!
