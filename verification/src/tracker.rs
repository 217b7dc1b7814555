//! The set of repositories found in one worktree, and the changes between two
//! scans of it.

use std::collections::BTreeMap;
use vstd::prelude::*;

use crate::order::lemma_increasing_ids;
use crate::path::AbsPath;
use crate::path::RelPath;
use crate::reconcile::addition;
use crate::reconcile::ascending;
use crate::reconcile::change_for;
use crate::reconcile::is_diff;
use crate::reconcile::removal;
use crate::reconcile::reports;
use crate::reconcile::update;
use crate::reconcile::RepositoryEntryView;
use crate::reconcile::ScanView;
use crate::reconcile::UpdatedRepositoryView;

verus! {

/// Identifies a working directory inside its worktree.
pub type ProjectEntryId = u64;

/// One repository found in a worktree.
#[derive(Debug)]
pub struct JjRepositoryEntry {
    pub work_directory_id: ProjectEntryId,
    pub work_directory_abs_path: AbsPath,
    pub work_directory_rel_path: RelPath,
    pub jj_dir_abs_path: AbsPath,
    pub jj_dir_scan_id: usize,
    pub covers_entire_project: bool,
}

impl View for JjRepositoryEntry {
    type V = RepositoryEntryView;

    open spec fn view(&self) -> RepositoryEntryView {
        RepositoryEntryView {
            work_directory_id: self.work_directory_id,
            work_directory_abs_path: self.work_directory_abs_path@,
            work_directory_rel_path: self.work_directory_rel_path@,
            jj_dir_abs_path: self.jj_dir_abs_path@,
            jj_dir_scan_id: self.jj_dir_scan_id,
            covers_entire_project: self.covers_entire_project,
        }
    }
}

impl Clone for JjRepositoryEntry {
    fn clone(&self) -> (copy: Self)
        ensures
            copy@ == self@,
            copy.work_directory_abs_path.display_text()
                == self.work_directory_abs_path.display_text(),
            copy.jj_dir_abs_path.display_text() == self.jj_dir_abs_path.display_text(),
    {
        JjRepositoryEntry {
            work_directory_id: self.work_directory_id,
            work_directory_abs_path: self.work_directory_abs_path.clone(),
            work_directory_rel_path: self.work_directory_rel_path.clone(),
            jj_dir_abs_path: self.jj_dir_abs_path.clone(),
            jj_dir_scan_id: self.jj_dir_scan_id,
            covers_entire_project: self.covers_entire_project,
        }
    }
}

/// Whether the repository `entry` owns the worktree-relative path `path`: it
/// covers the whole worktree, or the components of its working directory are
/// the first components of `path`.
pub open spec fn directory_contains_path(entry: RepositoryEntryView, path: Seq<Seq<char>>) -> bool {
    entry.covers_entire_project || entry.work_directory_rel_path.is_prefix_of(path)
}

impl JjRepositoryEntry {
    /// Whether this repository owns the worktree-relative path `path`.
    pub fn directory_contains(&self, path: &RelPath) -> (contains: bool)
        ensures
            contains == directory_contains_path(self@, path@),
    {
        self.covers_entire_project || path.starts_with(&self.work_directory_rel_path)
    }
}

/// One change between two scans of a worktree. A change without an old path
/// reports a repository that appeared, one without a new path a repository
/// that is gone, one with both a repository that changed.
#[derive(Debug)]
pub struct UpdatedJjRepository {
    pub work_directory_id: ProjectEntryId,
    pub old_work_directory_abs_path: Option<AbsPath>,
    pub new_work_directory_abs_path: Option<AbsPath>,
    pub jj_dir_abs_path: Option<AbsPath>,
}

/// The components of a path that may be absent.
pub open spec fn optional_path_view(path: Option<AbsPath>) -> Option<Seq<Seq<char>>> {
    match path {
        Some(p) => Some(p@),
        None => None,
    }
}

impl View for UpdatedJjRepository {
    type V = UpdatedRepositoryView;

    open spec fn view(&self) -> UpdatedRepositoryView {
        UpdatedRepositoryView {
            work_directory_id: self.work_directory_id,
            old_work_directory_abs_path: optional_path_view(self.old_work_directory_abs_path),
            new_work_directory_abs_path: optional_path_view(self.new_work_directory_abs_path),
            jj_dir_abs_path: optional_path_view(self.jj_dir_abs_path),
        }
    }
}

/// Whether each path of `change` is shown as the path of the record that it
/// was taken from: the old path as in `old`, the new path as in `new`, and the
/// control directory as in `new` where `new` holds the repository, else as in
/// `old`.
pub open spec fn carries_texts(
    change: UpdatedJjRepository,
    old: Map<ProjectEntryId, JjRepositoryEntry>,
    new: Map<ProjectEntryId, JjRepositoryEntry>,
) -> bool {
    let id = change.work_directory_id;
    &&& change.old_work_directory_abs_path matches Some(path) ==> old.contains_key(id)
        && path.display_text() == old[id].work_directory_abs_path.display_text()
    &&& change.new_work_directory_abs_path matches Some(path) ==> new.contains_key(id)
        && path.display_text() == new[id].work_directory_abs_path.display_text()
    &&& change.jj_dir_abs_path matches Some(path) ==> path.display_text() == if new.contains_key(
        id,
    ) {
        new[id].jj_dir_abs_path.display_text()
    } else {
        old[id].jj_dir_abs_path.display_text()
    }
}

/// The changes of one scan, in ascending order of their identifiers.
pub type UpdatedJjRepositoriesSet = Vec<UpdatedJjRepository>;

/// What a list of changes is, with each path as its components.
pub open spec fn change_views(changes: Seq<UpdatedJjRepository>) -> Seq<UpdatedRepositoryView> {
    Seq::new(changes.len(), |i: int| changes[i]@)
}

/// What a map of repositories is, with each path as its components.
pub open spec fn scan_view(map: Map<ProjectEntryId, JjRepositoryEntry>) -> ScanView {
    map.map_values(|entry: JjRepositoryEntry| entry@)
}

/// Whether `id` is the lowest identifier in `scan` whose repository meets
/// `wanted`.
pub open spec fn is_first_match(
    scan: ScanView,
    id: ProjectEntryId,
    wanted: spec_fn(RepositoryEntryView) -> bool,
) -> bool {
    &&& scan.contains_key(id)
    &&& wanted(scan[id])
    &&& forall|lower: ProjectEntryId|
        lower < id && scan.contains_key(lower) ==> !wanted(#[trigger] scan[lower])
}

/// Whether no repository in `scan` meets `wanted`.
pub open spec fn has_no_match(scan: ScanView, wanted: spec_fn(RepositoryEntryView) -> bool) -> bool {
    forall|id: ProjectEntryId| scan.contains_key(id) ==> !wanted(#[trigger] scan[id])
}

/// The entries of `map` with their identifiers, in ascending order of the
/// identifiers.
fn entries_in_order<'a>(map: &'a BTreeMap<ProjectEntryId, JjRepositoryEntry>) -> (items: Vec<
    (ProjectEntryId, &'a JjRepositoryEntry),
>)
    ensures
        forall|i: int, j: int| 0 <= i < j < items.len() ==> items[i].0 < items[j].0,
        forall|i: int|
            0 <= i < items.len() ==> map@.contains_key(#[trigger] items[i].0) && map@[items[i].0]
                == *items[i].1,
        forall|k: ProjectEntryId|
            map@.contains_key(k) ==> exists|i: int|
                0 <= i < items.len() && #[trigger] items[i].0 == k,
{
    let mut items: Vec<(ProjectEntryId, &JjRepositoryEntry)> = Vec::new();
    for pair in it: map.iter()
        invariant
            items.len() == it.index(),
            forall|i: int|
                0 <= i < items.len() ==> items[i].0 == *it.seq()[i].0 && items[i].1
                    == it.seq()[i].1,
            forall|i: int, j: int| 0 <= i < j < items.len() ==> items[i].0 < items[j].0,
            vstd::std_specs::btree::increasing_seq(
                it.seq().map_values(|kv: (&ProjectEntryId, &JjRepositoryEntry)| *kv.0),
            ),
    {
        let (id, entry) = pair;
        proof {
            let ids = it.seq().map_values(|kv: (&ProjectEntryId, &JjRepositoryEntry)| *kv.0);
            lemma_increasing_ids(ids);
            assert forall|i: int| 0 <= i < items.len() implies items[i].0 < *id by {
                assert(ids[i] == items[i].0);
                assert(ids[items.len() as int] == *id);
            }
        }
        items.push((*id, entry));
    }
    items
}

/// Decides whether `name` is the name of a repository's control directory.
fn is_control_dir_name(name: &str) -> (is_control_dir: bool)
    ensures
        is_control_dir == (name@ == ".jj"@),
{
    let mut chars = name.chars();
    let first = chars.next();
    let second = chars.next();
    let third = chars.next();
    let fourth = chars.next();
    proof {
        reveal_strlit(".jj");
        if first == Some('.') && second == Some('j') && third == Some('j') && fourth is None {
            assert(name@ =~= ".jj"@);
        }
    }
    match (first, second, third, fourth) {
        (Some(a), Some(b), Some(c), None) => a == '.' && b == 'j' && c == 'j',
        _ => false,
    }
}

/// What a repository is looked for by.
enum Wanted<'a> {
    /// The path of its working directory inside the worktree.
    WorkDirectory(&'a RelPath),
    /// The path of its control directory.
    ControlDirectory(&'a AbsPath),
}

impl<'a> Wanted<'a> {
    /// Whether `entry` is what is looked for.
    spec fn is_met_by(self, entry: RepositoryEntryView) -> bool {
        match self {
            Wanted::WorkDirectory(path) => entry.work_directory_rel_path == path@,
            Wanted::ControlDirectory(path) => entry.jj_dir_abs_path == path@,
        }
    }

    /// Decides whether `entry` is what is looked for.
    fn meets(&self, entry: &JjRepositoryEntry) -> (met: bool)
        ensures
            met == self.is_met_by(entry@),
    {
        match self {
            Wanted::WorkDirectory(path) => entry.work_directory_rel_path.same_path(path),
            Wanted::ControlDirectory(path) => entry.jj_dir_abs_path.same_path(path),
        }
    }
}

/// The repository of the lowest identifier in `map` that is what is looked
/// for, if there is one.
fn first_match<'a>(
    map: &'a BTreeMap<ProjectEntryId, JjRepositoryEntry>,
    wanted: &Wanted<'_>,
) -> (found: Option<(ProjectEntryId, &'a JjRepositoryEntry)>)
    ensures
        match found {
            Some((id, repo)) => {
                &&& map@.contains_key(id)
                &&& *repo == map@[id]
                &&& wanted.is_met_by(map@[id]@)
                &&& forall|lower: ProjectEntryId|
                    lower < id && map@.contains_key(lower) ==> !wanted.is_met_by(
                        (#[trigger] map@[lower])@,
                    )
            },
            None => forall|id: ProjectEntryId|
                map@.contains_key(id) ==> !wanted.is_met_by((#[trigger] map@[id])@),
        },
{
    let items = entries_in_order(map);
    let mut i: usize = 0;
    while i < items.len()
        invariant
            i <= items.len(),
            forall|a: int, b: int| 0 <= a < b < items.len() ==> items[a].0 < items[b].0,
            forall|a: int|
                0 <= a < items.len() ==> map@.contains_key(#[trigger] items[a].0)
                    && map@[items[a].0] == *items[a].1,
            forall|k: ProjectEntryId|
                map@.contains_key(k) ==> exists|a: int|
                    0 <= a < items.len() && #[trigger] items[a].0 == k,
            forall|a: int| 0 <= a < i ==> !wanted.is_met_by((#[trigger] items[a]).1@),
        decreases items.len() - i,
    {
        let (id, repo) = items[i];
        if wanted.meets(repo) {
            proof {
                assert(map@.contains_key(items[i as int].0));
                assert forall|lower: ProjectEntryId|
                    lower < id && map@.contains_key(lower) implies !wanted.is_met_by(
                    (#[trigger] map@[lower])@,
                ) by {
                    let a = choose|a: int| 0 <= a < items.len() && #[trigger] items[a].0 == lower;
                    assert(map@.contains_key(items[a].0));
                    assert(a < i);
                }
            }
            return Some((id, repo));
        }
        i += 1;
    }
    proof {
        assert forall|id: ProjectEntryId| map@.contains_key(id) implies !wanted.is_met_by(
            (#[trigger] map@[id])@,
        ) by {
            let a = choose|a: int| 0 <= a < items.len() && #[trigger] items[a].0 == id;
            assert(map@.contains_key(items[a].0));
        }
    }
    None
}

/// The repositories of one worktree, by identifier.
pub struct JjTracker {
    enabled: bool,
    repositories: BTreeMap<ProjectEntryId, JjRepositoryEntry>,
}

impl View for JjTracker {
    type V = ScanView;

    open spec fn view(&self) -> ScanView {
        scan_view(self.entries())
    }
}

impl JjTracker {
    /// Whether repositories are looked for at all.
    pub closed spec fn is_enabled(&self) -> bool {
        self.enabled
    }

    /// A tracker without repositories.
    pub fn new(enabled: bool) -> (tracker: Self)
        ensures
            tracker@ == Map::<ProjectEntryId, RepositoryEntryView>::empty(),
            tracker.is_enabled() == enabled,
    {
        let tracker = JjTracker { enabled, repositories: BTreeMap::new() };
        proof {
            assert(tracker@ =~= Map::<ProjectEntryId, RepositoryEntryView>::empty());
        }
        tracker
    }

    /// Whether repositories are looked for at all.
    pub fn enabled(&self) -> (enabled: bool)
        ensures
            enabled == self.is_enabled(),
    {
        self.enabled
    }

    /// Whether a directory entry of the name `file_name` must be scanned even
    /// where it would otherwise be skipped: the tracker is enabled and the name
    /// is that of a control directory.
    pub fn should_force_scan(&self, file_name: &str) -> (force: bool)
        ensures
            force == (self.is_enabled() && file_name@ == ".jj"@),
    {
        self.enabled && is_control_dir_name(file_name)
    }

    /// The repositories, by identifier.
    pub fn repositories(&self) -> (repositories: &BTreeMap<ProjectEntryId, JjRepositoryEntry>)
        ensures
            repositories@ == self.entries(),
    {
        &self.repositories
    }

    /// The repositories, to be changed in place.
    pub fn repositories_mut(&mut self) -> (repositories: &mut BTreeMap<
        ProjectEntryId,
        JjRepositoryEntry,
    >)
        ensures
            repositories@ == old(self).entries(),
            final(self).entries() == final(repositories)@,
            final(self).is_enabled() == old(self).is_enabled(),
    {
        &mut self.repositories
    }

    /// Inserts `entry` under its identifier, in place of an entry that may
    /// stand there.
    pub fn insert(&mut self, entry: JjRepositoryEntry)
        ensures
            final(self).entries() == old(self).entries().insert(entry.work_directory_id, entry),
            final(self)@ == old(self)@.insert(entry.work_directory_id, entry@),
            final(self).is_enabled() == old(self).is_enabled(),
    {
        let ghost before = self.repositories@;
        self.repositories.insert(entry.work_directory_id, entry);
        proof {
            assert(scan_view(before.insert(entry.work_directory_id, entry)) =~= scan_view(
                before,
            ).insert(entry.work_directory_id, entry@));
        }
    }

    /// Records that the scan `scan_id` has seen the repository `id`. Nothing
    /// changes where there is no such repository.
    pub fn mark_scan(&mut self, id: &ProjectEntryId, scan_id: usize)
        ensures
            final(self).is_enabled() == old(self).is_enabled(),
            final(self).entries() == if old(self).entries().contains_key(*id) {
                old(self).entries().insert(
                    *id,
                    JjRepositoryEntry { jj_dir_scan_id: scan_id, ..old(self).entries()[*id] },
                )
            } else {
                old(self).entries()
            },
            final(self)@ == if old(self)@.contains_key(*id) {
                old(self)@.insert(
                    *id,
                    RepositoryEntryView { jj_dir_scan_id: scan_id, ..old(self)@[*id] },
                )
            } else {
                old(self)@
            },
    {
        let ghost before = self.repositories@;
        match self.repositories.remove(id) {
            Some(entry) => {
                let mut entry = entry;
                entry.jj_dir_scan_id = scan_id;
                let ghost marked = entry;
                self.repositories.insert(*id, entry);
                proof {
                    assert(self.repositories@ =~= before.insert(*id, marked));
                    assert(marked == JjRepositoryEntry { jj_dir_scan_id: scan_id, ..before[*id] });
                    assert(scan_view(before.insert(*id, marked)) =~= scan_view(before).insert(
                        *id,
                        marked@,
                    ));
                }
            },
            None => {
                proof {
                    assert(self.repositories@ =~= before);
                }
            },
        }
    }

    /// The repository of the lowest identifier whose working directory is
    /// `path`, if there is one.
    pub fn repo_for_relative_path(&self, path: &RelPath) -> (found: Option<
        (ProjectEntryId, &JjRepositoryEntry),
    >)
        ensures
            match found {
                Some((id, repo)) => is_first_match(
                    self@,
                    id,
                    |entry: RepositoryEntryView| entry.work_directory_rel_path == path@,
                ) && *repo == self.entries()[id],
                None => has_no_match(
                    self@,
                    |entry: RepositoryEntryView| entry.work_directory_rel_path == path@,
                ),
            },
    {
        first_match(&self.repositories, &Wanted::WorkDirectory(path))
    }

    /// The lowest identifier of a repository whose control directory is
    /// `jj_dir`, if there is one.
    pub fn repo_id_by_jj_dir(&self, jj_dir: &AbsPath) -> (found: Option<ProjectEntryId>)
        ensures
            match found {
                Some(id) => is_first_match(
                    self@,
                    id,
                    |entry: RepositoryEntryView| entry.jj_dir_abs_path == jj_dir@,
                ),
                None => has_no_match(
                    self@,
                    |entry: RepositoryEntryView| entry.jj_dir_abs_path == jj_dir@,
                ),
            },
    {
        match first_match(&self.repositories, &Wanted::ControlDirectory(jj_dir)) {
            Some((id, _)) => Some(id),
            None => None,
        }
    }

    /// The repositories that own the worktree-relative path `path`, each with
    /// its identifier, in ascending order of the identifiers.
    pub fn repos_containing(&self, path: &RelPath) -> (found: Vec<
        (ProjectEntryId, &JjRepositoryEntry),
    >)
        ensures
            forall|i: int, j: int| 0 <= i < j < found.len() ==> found[i].0 < found[j].0,
            forall|i: int|
                0 <= i < found.len() ==> {
                    &&& self@.contains_key(#[trigger] found[i].0)
                    &&& *found[i].1 == self.entries()[found[i].0]
                    &&& directory_contains_path(self@[found[i].0], path@)
                },
            forall|id: ProjectEntryId|
                self@.contains_key(id) && directory_contains_path(self@[id], path@) ==> exists|
                    i: int,
                | 0 <= i < found.len() && #[trigger] found[i].0 == id,
    {
        let items = entries_in_order(&self.repositories);
        let mut found: Vec<(ProjectEntryId, &JjRepositoryEntry)> = Vec::new();
        let mut i: usize = 0;
        while i < items.len()
            invariant
                i <= items.len(),
                forall|a: int, b: int| 0 <= a < b < items.len() ==> items[a].0 < items[b].0,
                forall|a: int|
                    0 <= a < items.len() ==> self.repositories@.contains_key(
                        #[trigger] items[a].0,
                    ) && self.repositories@[items[a].0] == *items[a].1,
                forall|k: ProjectEntryId|
                    self.repositories@.contains_key(k) ==> exists|a: int|
                        0 <= a < items.len() && #[trigger] items[a].0 == k,
                forall|a: int, b: int| 0 <= a < b < found.len() ==> found[a].0 < found[b].0,
                forall|a: int| 0 <= a < found.len() && i < items.len() ==> found[a].0 < items[i as int].0,
                forall|a: int|
                    0 <= a < found.len() ==> {
                        &&& self@.contains_key(#[trigger] found[a].0)
                        &&& *found[a].1 == self.entries()[found[a].0]
                        &&& directory_contains_path(self@[found[a].0], path@)
                    },
                forall|a: int|
                    0 <= a < i && directory_contains_path((#[trigger] items[a]).1@, path@)
                        ==> exists|b: int| 0 <= b < found.len() && #[trigger] found[b].0 == items[a].0,
            decreases items.len() - i,
        {
            let (id, repo) = items[i];
            proof {
                assert(self.repositories@.contains_key(items[i as int].0));
            }
            if repo.directory_contains(path) {
                let ghost earlier = found@;
                found.push((id, repo));
                proof {
                    assert forall|a: int|
                        0 <= a < i + 1 && directory_contains_path(
                            (#[trigger] items[a]).1@,
                            path@,
                        ) implies exists|b: int|
                        0 <= b < found.len() && #[trigger] found[b].0 == items[a].0 by {
                        if a < i {
                            let b = choose|b: int|
                                0 <= b < earlier.len() && #[trigger] earlier[b].0 == items[a].0;
                            assert(found[b].0 == items[a].0);
                        } else {
                            assert(found[found.len() - 1].0 == items[a].0);
                        }
                    }
                }
            }
            i += 1;
        }
        proof {
            assert forall|id: ProjectEntryId|
                self@.contains_key(id) && directory_contains_path(
                    self@[id],
                    path@,
                ) implies exists|b: int| 0 <= b < found.len() && #[trigger] found[b].0 == id by {
                let a = choose|a: int| 0 <= a < items.len() && #[trigger] items[a].0 == id;
                assert(self.repositories@.contains_key(items[a].0));
                assert(directory_contains_path(items[a].1@, path@));
            }
        }
        found
    }

    /// Drops every repository of which `is_present` says that it is gone, and
    /// keeps the others as they are.
    pub fn retain_existing<F: Fn(&JjRepositoryEntry) -> bool>(&mut self, is_present: F)
        requires
            forall|id: ProjectEntryId| #[trigger]
                old(self).entries().contains_key(id) ==> is_present.requires(
                    (&old(self).entries()[id],),
                ),
        ensures
            final(self).is_enabled() == old(self).is_enabled(),
            final(self).entries().submap_of(old(self).entries()),
            forall|id: ProjectEntryId|
                #![trigger final(self).entries().contains_key(id)]
                old(self).entries().contains_key(id) ==> is_present.ensures(
                    (&old(self).entries()[id],),
                    final(self).entries().contains_key(id),
                ),
    {
        let ghost before = self.repositories@;
        let mut gone: Vec<ProjectEntryId> = Vec::new();
        let items = entries_in_order(&self.repositories);
        let mut i: usize = 0;
        proof {
            assert(before == old(self).entries());
            assert forall|id: ProjectEntryId| #[trigger] before.contains_key(id) implies is_present.requires(
                (&before[id],),
            ) by {
                assert(old(self).entries().contains_key(id));
            }
        }
        while i < items.len()
            invariant
                i <= items.len(),
                before == self.repositories@,
                forall|id: ProjectEntryId| #[trigger]
                    before.contains_key(id) ==> is_present.requires((&before[id],)),
                forall|a: int, b: int| 0 <= a < b < items.len() ==> items[a].0 < items[b].0,
                forall|a: int|
                    0 <= a < items.len() ==> before.contains_key(#[trigger] items[a].0)
                        && before[items[a].0] == *items[a].1,
                forall|k: ProjectEntryId|
                    before.contains_key(k) ==> exists|a: int|
                        0 <= a < items.len() && #[trigger] items[a].0 == k,
                forall|a: int|
                    0 <= a < i ==> is_present.ensures(
                        (&before[(#[trigger] items[a]).0],),
                        !gone@.contains(items[a].0),
                    ),
                forall|g: int|
                    #![trigger gone[g]]
                    0 <= g < gone.len() ==> exists|a: int|
                        0 <= a < i && (#[trigger] items[a]).0 == gone[g],
            decreases items.len() - i,
        {
            let (id, repo) = items[i];
            proof {
                assert(before.contains_key(items[i as int].0));
            }
            let keep = is_present(repo);
            let ghost earlier = gone@;
            if !keep {
                gone.push(id);
            }
            proof {
                assert forall|a: int| 0 <= a < i + 1 implies is_present.ensures(
                    (&before[(#[trigger] items[a]).0],),
                    !gone@.contains(items[a].0),
                ) by {
                    if a < i {
                        assert(earlier.contains(items[a].0) == gone@.contains(items[a].0)) by {
                            if gone@.contains(items[a].0) && !earlier.contains(items[a].0) {
                                let g = choose|g: int| 0 <= g < gone.len() && gone[g] == items[a].0;
                                if g < earlier.len() {
                                    assert(earlier[g] == items[a].0);
                                }
                                assert(items[a].0 < items[i as int].0);
                            }
                            if earlier.contains(items[a].0) {
                                let g = choose|g: int|
                                    0 <= g < earlier.len() && earlier[g] == items[a].0;
                                assert(gone[g] == items[a].0);
                            }
                        }
                    } else {
                        if keep {
                            if gone@.contains(id) {
                                let g = choose|g: int| 0 <= g < gone.len() && gone[g] == id;
                                let b = choose|b: int|
                                    0 <= b < i && (#[trigger] items[b]).0 == gone[g];
                                assert(items[b].0 < items[i as int].0);
                            }
                        } else {
                            assert(gone[gone.len() - 1] == id);
                        }
                    }
                }
                assert forall|g: int|
                    #![trigger gone[g]]
                    0 <= g < gone.len() implies exists|a: int|
                    0 <= a < i + 1 && (#[trigger] items[a]).0 == gone[g] by {
                    if g < earlier.len() {
                        let a = choose|a: int| 0 <= a < i && (#[trigger] items[a]).0 == earlier[g];
                        assert(items[a].0 == gone[g]);
                    } else {
                        assert(items[i as int].0 == gone[g]);
                    }
                }
            }
            i += 1;
        }
        let ghost verdicts = gone@;
        proof {
            assert forall|id: ProjectEntryId| before.contains_key(id) implies is_present.ensures(
                (&before[id],),
                !verdicts.contains(id),
            ) by {
                let a = choose|a: int| 0 <= a < items.len() && #[trigger] items[a].0 == id;
                assert(before.contains_key(items[a].0));
            }
        }
        let mut g: usize = 0;
        while g < gone.len()
            invariant
                g <= gone.len(),
                verdicts == gone@,
                self.enabled == old(self).enabled,
                self.repositories@.submap_of(before),
                forall|id: ProjectEntryId|
                    before.contains_key(id) ==> (#[trigger] self.repositories@.contains_key(id)
                        <==> !verdicts.take(g as int).contains(id)),
            decreases gone.len() - g,
        {
            let ghost current = self.repositories@;
            self.repositories.remove(&gone[g]);
            proof {
                assert(self.repositories@ =~= current.remove(gone[g as int]));
                assert forall|id: ProjectEntryId| before.contains_key(id) implies (
                #[trigger] self.repositories@.contains_key(id) <==> !verdicts.take(
                    g + 1,
                ).contains(id)) by {
                    let shorter = verdicts.take(g as int);
                    let longer = verdicts.take(g + 1);
                    if longer.contains(id) {
                        let x = choose|x: int| 0 <= x < longer.len() && longer[x] == id;
                        if x < g {
                            assert(shorter[x] == id);
                        }
                    }
                    if shorter.contains(id) {
                        let x = choose|x: int| 0 <= x < shorter.len() && shorter[x] == id;
                        assert(longer[x] == id);
                    }
                    if id == gone[g as int] {
                        assert(longer[g as int] == id);
                    }
                }
            }
            g += 1;
        }
        proof {
            assert(verdicts.take(gone.len() as int) =~= verdicts);
        }
    }

    /// The repositories as a map of the records themselves, each with all
    /// that it holds, the texts that show its paths among it.
    pub closed spec fn entries(&self) -> Map<ProjectEntryId, JjRepositoryEntry> {
        self.repositories@
    }

    /// The changes that lead from the scan `old` to the scan `new`, in
    /// ascending order of the identifiers: an addition for each repository that
    /// only `new` holds, a removal for each that only `old` holds, and an
    /// update for each that both hold with a differing scan counter or path.
    pub fn diff(
        old: &BTreeMap<ProjectEntryId, JjRepositoryEntry>,
        new: &BTreeMap<ProjectEntryId, JjRepositoryEntry>,
    ) -> (changes: UpdatedJjRepositoriesSet)
        ensures
            is_diff(change_views(changes@), scan_view(old@), scan_view(new@)),
            forall|i: int| 0 <= i < changes.len() ==> carries_texts(#[trigger] changes[i], old@, new@),
    {
        let old_items = entries_in_order(old);
        let new_items = entries_in_order(new);
        let ghost old_scan = scan_view(old@);
        let ghost new_scan = scan_view(new@);
        let mut changes: Vec<UpdatedJjRepository> = Vec::new();
        let mut n: usize = 0;
        let mut o: usize = 0;
        proof {
            assert(change_views(changes@) =~= Seq::<UpdatedRepositoryView>::empty());
        }
        while n < new_items.len() || o < old_items.len()
            invariant
                n <= new_items.len(),
                o <= old_items.len(),
                old_scan == scan_view(old@),
                new_scan == scan_view(new@),
                forall|a: int, b: int|
                    0 <= a < b < old_items.len() ==> old_items[a].0 < old_items[b].0,
                forall|a: int|
                    0 <= a < old_items.len() ==> old@.contains_key(#[trigger] old_items[a].0)
                        && old@[old_items[a].0] == *old_items[a].1,
                forall|k: ProjectEntryId|
                    old@.contains_key(k) ==> exists|a: int|
                        0 <= a < old_items.len() && #[trigger] old_items[a].0 == k,
                forall|a: int, b: int|
                    0 <= a < b < new_items.len() ==> new_items[a].0 < new_items[b].0,
                forall|a: int|
                    0 <= a < new_items.len() ==> new@.contains_key(#[trigger] new_items[a].0)
                        && new@[new_items[a].0] == *new_items[a].1,
                forall|k: ProjectEntryId|
                    new@.contains_key(k) ==> exists|a: int|
                        0 <= a < new_items.len() && #[trigger] new_items[a].0 == k,
                // What is behind on one side lies below what is ahead on the other.
                forall|a: int|
                    0 <= a < n && o < old_items.len() ==> (#[trigger] new_items[a]).0
                        < old_items[o as int].0,
                forall|b: int|
                    0 <= b < o && n < new_items.len() ==> (#[trigger] old_items[b]).0
                        < new_items[n as int].0,
                // The changes so far are the right ones, in order.
                forall|c: int|
                    0 <= c < changes.len() ==> carries_texts(#[trigger] changes[c], old@, new@),
                ascending(change_views(changes@)),
                forall|c: int|
                    0 <= c < changes.len() ==> change_for(
                        (#[trigger] change_views(changes@)[c]).work_directory_id,
                        old_scan,
                        new_scan,
                    ) == Some(change_views(changes@)[c]),
                forall|c: int|
                    0 <= c < changes.len() && n < new_items.len() ==> (#[trigger] change_views(
                        changes@,
                    )[c]).work_directory_id < new_items[n as int].0,
                forall|c: int|
                    0 <= c < changes.len() && o < old_items.len() ==> (#[trigger] change_views(
                        changes@,
                    )[c]).work_directory_id < old_items[o as int].0,
                // Nothing behind is left out.
                forall|a: int|
                    0 <= a < n && (change_for((#[trigger] new_items[a]).0, old_scan, new_scan)
                        is Some) ==> reports(change_views(changes@), new_items[a].0),
                forall|b: int|
                    0 <= b < o && (change_for((#[trigger] old_items[b]).0, old_scan, new_scan)
                        is Some) ==> reports(change_views(changes@), old_items[b].0),
            decreases (new_items.len() - n) + (old_items.len() - o),
        {
            let ghost earlier = change_views(changes@);
            let take_new = n < new_items.len() && (o >= old_items.len() || new_items[n].0
                < old_items[o].0);
            let take_old = o < old_items.len() && (n >= new_items.len() || old_items[o].0
                < new_items[n].0);
            if take_new {
                let (id, repo) = new_items[n];
                proof {
                    assert(new@.contains_key(new_items[n as int].0));
                    assert(!old@.contains_key(id)) by {
                        if old@.contains_key(id) {
                            let b = choose|b: int|
                                0 <= b < old_items.len() && #[trigger] old_items[b].0 == id;
                            if b < o {
                                assert(old_items[b].0 < new_items[n as int].0);
                            } else if b > o {
                                assert(old_items[o as int].0 < old_items[b].0);
                            }
                        }
                    }
                }
                let change = UpdatedJjRepository {
                    work_directory_id: id,
                    old_work_directory_abs_path: None,
                    new_work_directory_abs_path: Some(repo.work_directory_abs_path.clone()),
                    jj_dir_abs_path: Some(repo.jj_dir_abs_path.clone()),
                };
                proof {
                    assert(change@ == addition(id, new_scan[id]));
                }
                changes.push(change);
                proof {
                    assert(change_views(changes@) =~= earlier.push(change@));
                    lemma_pushed_change(earlier, change@, id);
                }
                n += 1;
            } else if take_old {
                let (id, repo) = old_items[o];
                proof {
                    assert(old@.contains_key(old_items[o as int].0));
                    assert(!new@.contains_key(id)) by {
                        if new@.contains_key(id) {
                            let a = choose|a: int|
                                0 <= a < new_items.len() && #[trigger] new_items[a].0 == id;
                            if a < n {
                                assert(new_items[a].0 < old_items[o as int].0);
                            } else if a > n {
                                assert(new_items[n as int].0 < new_items[a].0);
                            }
                        }
                    }
                }
                let change = UpdatedJjRepository {
                    work_directory_id: id,
                    old_work_directory_abs_path: Some(repo.work_directory_abs_path.clone()),
                    new_work_directory_abs_path: None,
                    jj_dir_abs_path: Some(repo.jj_dir_abs_path.clone()),
                };
                proof {
                    assert(change@ == removal(id, old_scan[id]));
                }
                changes.push(change);
                proof {
                    assert(change_views(changes@) =~= earlier.push(change@));
                    lemma_pushed_change(earlier, change@, id);
                }
                o += 1;
            } else {
                let (id, new_repo) = new_items[n];
                let (old_id, old_repo) = old_items[o];
                proof {
                    assert(id == old_id);
                    assert(new@.contains_key(new_items[n as int].0));
                    assert(old@.contains_key(old_items[o as int].0));
                }
                if new_repo.jj_dir_scan_id != old_repo.jj_dir_scan_id
                    || !new_repo.work_directory_abs_path.same_path(
                    &old_repo.work_directory_abs_path,
                ) {
                    let change = UpdatedJjRepository {
                        work_directory_id: id,
                        old_work_directory_abs_path: Some(
                            old_repo.work_directory_abs_path.clone(),
                        ),
                        new_work_directory_abs_path: Some(
                            new_repo.work_directory_abs_path.clone(),
                        ),
                        jj_dir_abs_path: Some(new_repo.jj_dir_abs_path.clone()),
                    };
                    proof {
                        assert(change@ == update(id, old_scan[id], new_scan[id]));
                    }
                    changes.push(change);
                    proof {
                        assert(change_views(changes@) =~= earlier.push(change@));
                        lemma_pushed_change(earlier, change@, id);
                    }
                } else {
                    proof {
                        assert(change_for(id, old_scan, new_scan) is None);
                    }
                }
                n += 1;
                o += 1;
            }
            proof {
                let now = change_views(changes@);
                assert forall|id: ProjectEntryId| reports(earlier, id) implies reports(now, id) by {
                    let c = choose|c: int|
                        0 <= c < earlier.len() && (#[trigger] earlier[c]).work_directory_id == id;
                    assert(now[c].work_directory_id == id);
                }
            }
        }
        proof {
            let now = change_views(changes@);
            assert forall|id: ProjectEntryId| (change_for(id, old_scan, new_scan) is Some)
                implies #[trigger] reports(now, id) by {
                if new@.contains_key(id) {
                    let a = choose|a: int|
                        0 <= a < new_items.len() && #[trigger] new_items[a].0 == id;
                    assert(new_items[a].0 == id);
                } else {
                    let b = choose|b: int|
                        0 <= b < old_items.len() && #[trigger] old_items[b].0 == id;
                    assert(old_items[b].0 == id);
                }
            }
        }
        changes
    }
}

/// A change pushed behind changes of lower identifiers keeps them ascending,
/// and is reported.
proof fn lemma_pushed_change(
    earlier: Seq<UpdatedRepositoryView>,
    change: UpdatedRepositoryView,
    id: ProjectEntryId,
)
    requires
        ascending(earlier),
        change.work_directory_id == id,
        forall|c: int| 0 <= c < earlier.len() ==> (#[trigger] earlier[c]).work_directory_id < id,
    ensures
        ascending(earlier.push(change)),
        reports(earlier.push(change), id),
{
    let now = earlier.push(change);
    assert(now[now.len() - 1].work_directory_id == id);
    assert forall|i: int, j: int| 0 <= i < j < now.len() implies (
    #[trigger] now[i]).work_directory_id < (#[trigger] now[j]).work_directory_id by {
        if j < earlier.len() {
            assert(now[i] == earlier[i]);
            assert(now[j] == earlier[j]);
        } else {
            assert(now[i] == earlier[i]);
        }
    }
}

} // verus!
