//! What the changes between two scans of a worktree are, and what holds of them.

use vstd::prelude::*;

verus! {

/// What a repository entry is, with each path as its components.
pub struct RepositoryEntryView {
    pub work_directory_id: u64,
    pub work_directory_abs_path: Seq<Seq<char>>,
    pub work_directory_rel_path: Seq<Seq<char>>,
    pub jj_dir_abs_path: Seq<Seq<char>>,
    pub jj_dir_scan_id: usize,
    pub covers_entire_project: bool,
}

/// What a change is, with each path as its components.
pub struct UpdatedRepositoryView {
    pub work_directory_id: u64,
    pub old_work_directory_abs_path: Option<Seq<Seq<char>>>,
    pub new_work_directory_abs_path: Option<Seq<Seq<char>>>,
    pub jj_dir_abs_path: Option<Seq<Seq<char>>>,
}

/// The repositories of one scan, by identifier.
pub type ScanView = Map<u64, RepositoryEntryView>;

/// Whether a repository that both scans hold counts as changed: its scan
/// counter or the path of its working directory differs.
pub open spec fn entry_changed(old_entry: RepositoryEntryView, new_entry: RepositoryEntryView) -> bool {
    new_entry.jj_dir_scan_id != old_entry.jj_dir_scan_id || new_entry.work_directory_abs_path
        != old_entry.work_directory_abs_path
}

/// The change that reports a repository which only the new scan holds.
pub open spec fn addition(id: u64, new_entry: RepositoryEntryView) -> UpdatedRepositoryView {
    UpdatedRepositoryView {
        work_directory_id: id,
        old_work_directory_abs_path: None,
        new_work_directory_abs_path: Some(new_entry.work_directory_abs_path),
        jj_dir_abs_path: Some(new_entry.jj_dir_abs_path),
    }
}

/// The change that reports a repository which only the old scan holds.
pub open spec fn removal(id: u64, old_entry: RepositoryEntryView) -> UpdatedRepositoryView {
    UpdatedRepositoryView {
        work_directory_id: id,
        old_work_directory_abs_path: Some(old_entry.work_directory_abs_path),
        new_work_directory_abs_path: None,
        jj_dir_abs_path: Some(old_entry.jj_dir_abs_path),
    }
}

/// The change that reports a repository which both scans hold and which counts
/// as changed.
pub open spec fn update(
    id: u64,
    old_entry: RepositoryEntryView,
    new_entry: RepositoryEntryView,
) -> UpdatedRepositoryView {
    UpdatedRepositoryView {
        work_directory_id: id,
        old_work_directory_abs_path: Some(old_entry.work_directory_abs_path),
        new_work_directory_abs_path: Some(new_entry.work_directory_abs_path),
        jj_dir_abs_path: Some(new_entry.jj_dir_abs_path),
    }
}

/// The change that is due for the identifier `id` between the scans `old` and
/// `new`, or `None` where nothing is to be reported of it.
pub open spec fn change_for(id: u64, old: ScanView, new: ScanView) -> Option<UpdatedRepositoryView> {
    if new.contains_key(id) && !old.contains_key(id) {
        Some(addition(id, new[id]))
    } else if !new.contains_key(id) && old.contains_key(id) {
        Some(removal(id, old[id]))
    } else if new.contains_key(id) && entry_changed(old[id], new[id]) {
        Some(update(id, old[id], new[id]))
    } else {
        None
    }
}

/// Whether `changes` reports `id`.
pub open spec fn reports(changes: Seq<UpdatedRepositoryView>, id: u64) -> bool {
    exists|i: int| 0 <= i < changes.len() && (#[trigger] changes[i]).work_directory_id == id
}

/// Whether the identifiers of `changes` ascend strictly.
pub open spec fn ascending(changes: Seq<UpdatedRepositoryView>) -> bool {
    forall|i: int, j: int|
        0 <= i < j < changes.len() ==> (#[trigger] changes[i]).work_directory_id < (
        #[trigger] changes[j]).work_directory_id
}

/// Whether `changes` is the list of changes between the scans `old` and `new`:
/// it ascends by identifier, each of its members is the change due for its
/// identifier, and every identifier for which a change is due is reported.
pub open spec fn is_diff(changes: Seq<UpdatedRepositoryView>, old: ScanView, new: ScanView) -> bool {
    &&& ascending(changes)
    &&& forall|i: int|
        0 <= i < changes.len() ==> change_for((#[trigger] changes[i]).work_directory_id, old, new)
            == Some(changes[i])
    &&& forall|id: u64| (change_for(id, old, new) is Some) ==> #[trigger] reports(changes, id)
}

/// The scan that results when one change is applied to `state`. A change that
/// carries a new path has the repository's record fetched from `source`, which
/// stands for what is on disk now; where `source` has no such record, nothing
/// happens. A change without a new path removes the repository.
pub open spec fn apply_change(
    state: ScanView,
    change: UpdatedRepositoryView,
    source: ScanView,
) -> ScanView {
    if change.new_work_directory_abs_path is Some {
        if source.contains_key(change.work_directory_id) {
            state.insert(change.work_directory_id, source[change.work_directory_id])
        } else {
            state
        }
    } else {
        state.remove(change.work_directory_id)
    }
}

/// The scan that results when `changes` are applied to `state` one after
/// another.
pub open spec fn apply_changes(
    state: ScanView,
    changes: Seq<UpdatedRepositoryView>,
    source: ScanView,
) -> ScanView
    decreases changes.len(),
{
    if changes.len() == 0 {
        state
    } else {
        apply_change(apply_changes(state, changes.drop_last(), source), changes.last(), source)
    }
}

/// The identifiers that exactly one of the two scans holds.
pub open spec fn one_sided_ids(old: ScanView, new: ScanView) -> Set<u64> {
    old.dom().difference(new.dom()).union(new.dom().difference(old.dom()))
}

/// The identifiers that both scans hold with a differing path or scan counter.
pub open spec fn changed_ids(old: ScanView, new: ScanView) -> Set<u64> {
    old.dom().intersect(new.dom()).filter(|id: u64| entry_changed(old[id], new[id]))
}

/// Whether the two scans agree on every repository that does not count as
/// changed: whatever both hold under one identifier with the same path and
/// scan counter is the same record in every other field too.
pub open spec fn unchanged_entries_agree(old: ScanView, new: ScanView) -> bool {
    forall|id: u64|
        old.contains_key(id) && new.contains_key(id) && !entry_changed(old[id], new[id])
            ==> #[trigger] old[id] == new[id]
}

/// Applying the first changes of a diff settles exactly the identifiers that
/// they report: those stand as in `new`, all others as in `old`.
proof fn lemma_apply_prefix(changes: Seq<UpdatedRepositoryView>, old: ScanView, new: ScanView)
    requires
        forall|i: int|
            0 <= i < changes.len() ==> change_for(
                (#[trigger] changes[i]).work_directory_id,
                old,
                new,
            ) == Some(changes[i]),
    ensures
        forall|id: u64|
            #![trigger apply_changes(old, changes, new).contains_key(id)]
            #![trigger apply_changes(old, changes, new)[id]]
            {
                let state = apply_changes(old, changes, new);
                if reports(changes, id) {
                    state.contains_key(id) == new.contains_key(id) && (new.contains_key(id)
                        ==> state[id] == new[id])
                } else {
                    state.contains_key(id) == old.contains_key(id) && (old.contains_key(id)
                        ==> state[id] == old[id])
                }
            },
    decreases changes.len(),
{
    if changes.len() > 0 {
        let before = changes.drop_last();
        let last = changes.last();
        assert forall|i: int| 0 <= i < before.len() implies change_for(
            (#[trigger] before[i]).work_directory_id,
            old,
            new,
        ) == Some(before[i]) by {
            assert(before[i] == changes[i]);
        }
        lemma_apply_prefix(before, old, new);
        let earlier = apply_changes(old, before, new);
        let state = apply_changes(old, changes, new);
        assert(state == apply_change(earlier, last, new));
        assert(change_for(last.work_directory_id, old, new) == Some(last));
        assert forall|id: u64|
            #![trigger state.contains_key(id)]
            #![trigger state[id]]
            {
                if reports(changes, id) {
                    state.contains_key(id) == new.contains_key(id) && (new.contains_key(id)
                        ==> state[id] == new[id])
                } else {
                    state.contains_key(id) == old.contains_key(id) && (old.contains_key(id)
                        ==> state[id] == old[id])
                }
            } by {
            if id == last.work_directory_id {
                assert(changes[changes.len() - 1].work_directory_id == id);
                assert(reports(changes, id));
            } else if reports(before, id) {
                let i = choose|i: int|
                    0 <= i < before.len() && (#[trigger] before[i]).work_directory_id == id;
                assert(changes[i].work_directory_id == id);
                assert(reports(changes, id));
                assert(earlier.contains_key(id) == new.contains_key(id));
            } else {
                if reports(changes, id) {
                    let i = choose|i: int|
                        0 <= i < changes.len() && (#[trigger] changes[i]).work_directory_id == id;
                    assert(i < before.len());
                    assert(before[i].work_directory_id == id);
                    assert(false);
                }
                assert(earlier.contains_key(id) == old.contains_key(id));
            }
        }
    }
}

/// Applying the changes of a diff to the old scan yields the new scan.
///
/// For every pair of scans `old` and `new` that agree on the repositories that
/// do not count as changed: when each change of `diff(old, new)` is applied to
/// `old` in turn, a change with a new path by fetching the record from `new`
/// and a change without one by removing the repository, the result is `new`.
pub proof fn lemma_diff_applies(
    changes: Seq<UpdatedRepositoryView>,
    old: ScanView,
    new: ScanView,
)
    requires
        is_diff(changes, old, new),
        unchanged_entries_agree(old, new),
    ensures
        apply_changes(old, changes, new) == new,
{
    lemma_apply_prefix(changes, old, new);
    let state = apply_changes(old, changes, new);
    assert forall|id: u64| state.contains_key(id) == new.contains_key(id) by {
        if !reports(changes, id) {
            assert(change_for(id, old, new) is None);
        }
    }
    assert forall|id: u64| state.contains_key(id) implies #[trigger] state[id] == new[id] by {
        if !reports(changes, id) {
            assert(change_for(id, old, new) is None);
            assert(old[id] == new[id]);
        }
    }
    assert(state.dom() =~= new.dom());
    assert(state =~= new);
}

/// A scan differs from itself in nothing.
///
/// For every scan `m`, `diff(m, m)` is empty.
pub proof fn lemma_diff_of_same_is_empty(changes: Seq<UpdatedRepositoryView>, m: ScanView)
    requires
        is_diff(changes, m, m),
    ensures
        changes.len() == 0,
{
    if changes.len() > 0 {
        assert(change_for(changes[0].work_directory_id, m, m) == Some(changes[0]));
    }
}

/// The identifiers that changes with strictly ascending identifiers report
/// are as many as the changes.
proof fn lemma_reported_count(changes: Seq<UpdatedRepositoryView>)
    requires
        ascending(changes),
    ensures
        Set::new(|id: u64| reports(changes, id)).finite(),
        Set::new(|id: u64| reports(changes, id)).len() == changes.len(),
    decreases changes.len(),
{
    let all = Set::new(|id: u64| reports(changes, id));
    if changes.len() == 0 {
        assert(all =~= Set::<u64>::empty());
    } else {
        let before = changes.drop_last();
        let last = changes.last();
        assert forall|i: int, j: int| 0 <= i < j < before.len() implies (
        #[trigger] before[i]).work_directory_id < (#[trigger] before[j]).work_directory_id by {
            assert(before[i] == changes[i]);
            assert(before[j] == changes[j]);
        }
        lemma_reported_count(before);
        let earlier = Set::new(|id: u64| reports(before, id));
        assert(!earlier.contains(last.work_directory_id)) by {
            if reports(before, last.work_directory_id) {
                let i = choose|i: int|
                    0 <= i < before.len() && (#[trigger] before[i]).work_directory_id
                        == last.work_directory_id;
                assert(changes[i].work_directory_id < changes[changes.len() - 1].work_directory_id);
            }
        }
        assert(all =~= earlier.insert(last.work_directory_id)) by {
            assert forall|id: u64| all.contains(id) == earlier.insert(
                last.work_directory_id,
            ).contains(id) by {
                if reports(changes, id) {
                    let i = choose|i: int|
                        0 <= i < changes.len() && (#[trigger] changes[i]).work_directory_id == id;
                    if i < before.len() {
                        assert(before[i].work_directory_id == id);
                    }
                }
                if reports(before, id) {
                    let i = choose|i: int|
                        0 <= i < before.len() && (#[trigger] before[i]).work_directory_id == id;
                    assert(changes[i].work_directory_id == id);
                }
                if id == last.work_directory_id {
                    assert(changes[changes.len() - 1].work_directory_id == id);
                }
            }
        }
    }
}

/// A diff holds one change for each identifier that one scan alone holds, and
/// one for each that both hold with a differing path or scan counter.
///
/// For every pair of scans, the number of changes in `diff(old, new)` is the
/// size of the symmetric difference of their identifiers plus the number of
/// identifiers that both hold with a differing path or scan counter.
pub proof fn lemma_diff_count(changes: Seq<UpdatedRepositoryView>, old: ScanView, new: ScanView)
    requires
        is_diff(changes, old, new),
        old.dom().finite(),
        new.dom().finite(),
    ensures
        changes.len() == one_sided_ids(old, new).len() + changed_ids(old, new).len(),
{
    let reported = Set::new(|id: u64| reports(changes, id));
    let one_sided = one_sided_ids(old, new);
    let changed = changed_ids(old, new);
    lemma_reported_count(changes);
    assert(reported =~= one_sided.union(changed)) by {
        assert forall|id: u64| reported.contains(id) == one_sided.union(changed).contains(id) by {
            if reports(changes, id) {
                let i = choose|i: int|
                    0 <= i < changes.len() && (#[trigger] changes[i]).work_directory_id == id;
                assert(change_for(id, old, new) == Some(changes[i]));
            }
            if one_sided.union(changed).contains(id) {
                assert(change_for(id, old, new) is Some);
            }
        }
    }
    assert(one_sided.disjoint(changed));
    vstd::set_lib::lemma_set_disjoint_lens(one_sided, changed);
}

} // verus!
