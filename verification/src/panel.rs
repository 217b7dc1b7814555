//! What the panel that shows the history holds, and how it changes when the
//! history is asked for and when it arrives.

use vstd::prelude::*;

use crate::commit::short_change_hash;
use crate::commit::short_change_text;
use crate::commit::short_commit_hash;
use crate::commit::short_commit_text;
use crate::commit::JjCommitSummary;
use crate::commit::ShownCommitView;
use crate::store::JjRepositorySummary;
use crate::store_model::RepositorySummaryView;
use crate::timestamp::format_timestamp;
use crate::timestamp::timestamp_text;
use crate::tracker::ProjectEntryId;

verus! {

/// How many commits the panel asks for.
pub const RECENT_COMMITS_LIMIT: usize = 50;

/// Where a panel can be docked.
#[derive(Clone, Copy, Debug, PartialEq, Eq, Structural)]
pub enum DockPosition {
    Left,
    Bottom,
    Right,
}

/// Whether the panel can be docked at `position`: at either side, not at the
/// bottom.
pub fn position_is_valid(position: DockPosition) -> (valid: bool)
    ensures
        valid == (position == DockPosition::Left || position == DockPosition::Right),
{
    match position {
        DockPosition::Left => true,
        DockPosition::Right => true,
        DockPosition::Bottom => false,
    }
}

/// What a list of repository summaries is.
pub open spec fn repository_views(list: Seq<JjRepositorySummary>) -> Seq<RepositorySummaryView> {
    Seq::new(list.len(), |i: int| list[i]@)
}

/// What a list of shown commits is.
pub open spec fn commit_views(list: Seq<JjCommitSummary>) -> Seq<ShownCommitView> {
    Seq::new(list.len(), |i: int| list[i]@)
}

/// The text of a message that may be absent.
pub open spec fn optional_text(text: Option<String>) -> Option<Seq<char>> {
    match text {
        Some(t) => Some(t@),
        None => None,
    }
}

/// What the panel holds.
pub struct PanelView {
    pub commits: Seq<ShownCommitView>,
    pub is_loading: bool,
    pub error: Option<Seq<char>>,
    pub repositories: Seq<RepositorySummaryView>,
    pub selected_repo: Option<u64>,
}

/// Whether `repositories` holds one of the identifier `id`.
pub open spec fn shows_repository(repositories: Seq<RepositorySummaryView>, id: u64) -> bool {
    exists|i: int| 0 <= i < repositories.len() && (#[trigger] repositories[i]).id == id
}

/// The repository that is selected once `repositories` are the ones to choose
/// from: the one that was selected where it is still among them, else the
/// first of them, or none where there are none.
pub open spec fn selection_among(
    selected: Option<u64>,
    repositories: Seq<RepositorySummaryView>,
) -> Option<u64> {
    if selected is Some && shows_repository(repositories, selected->0) {
        selected
    } else if repositories.len() > 0 {
        Some(repositories[0].id)
    } else {
        None
    }
}

/// The panel after a refresh was asked for, `store` being the repositories
/// that the store shows, or nothing where there is no store.
pub open spec fn refreshed(panel: PanelView, store: Option<Seq<RepositorySummaryView>>) -> PanelView {
    match store {
        None => PanelView {
            repositories: Seq::empty(),
            selected_repo: None,
            error: Some("JJ support unavailable"@),
            is_loading: false,
            ..panel
        },
        Some(repositories) => if repositories.len() == 0 {
            PanelView {
                repositories,
                selected_repo: None,
                error: Some("No JJ repositories detected"@),
                is_loading: false,
                ..panel
            }
        } else {
            PanelView {
                repositories,
                selected_repo: selection_among(panel.selected_repo, repositories),
                error: None,
                is_loading: true,
                ..panel
            }
        },
    }
}

/// What is to be done after a refresh was asked for.
#[derive(Debug)]
pub enum RefreshAction {
    /// Nothing: there is nothing to load the history from.
    Idle,
    /// The most recent commits of `repository` are to be loaded, `limit` of
    /// them at most.
    LoadCommits { repository: Option<ProjectEntryId>, limit: usize },
}

/// The panel that shows the history.
pub struct JjPanel {
    commits: Vec<JjCommitSummary>,
    is_loading: bool,
    error: Option<String>,
    repositories: Vec<JjRepositorySummary>,
    selected_repo: Option<ProjectEntryId>,
}

impl View for JjPanel {
    type V = PanelView;

    closed spec fn view(&self) -> PanelView {
        PanelView {
            commits: commit_views(self.commits@),
            is_loading: self.is_loading,
            error: optional_text(self.error),
            repositories: repository_views(self.repositories@),
            selected_repo: self.selected_repo,
        }
    }
}

/// Decides whether `repositories` holds one of the identifier `id`.
fn has_repository(repositories: &Vec<JjRepositorySummary>, id: ProjectEntryId) -> (found: bool)
    ensures
        found == shows_repository(repository_views(repositories@), id),
{
    let mut i: usize = 0;
    while i < repositories.len()
        invariant
            i <= repositories.len(),
            forall|j: int| 0 <= j < i ==> (#[trigger] repository_views(repositories@)[j]).id != id,
        decreases repositories.len() - i,
    {
        if repositories[i].id == id {
            proof {
                assert(repository_views(repositories@)[i as int].id == id);
            }
            return true;
        }
        i += 1;
    }
    false
}

impl JjPanel {
    /// A panel that has nothing yet and waits for the history.
    pub fn new() -> (panel: Self)
        ensures
            panel@ == (PanelView {
                commits: Seq::empty(),
                is_loading: true,
                error: None,
                repositories: Seq::empty(),
                selected_repo: None,
            }),
    {
        let panel = JjPanel {
            commits: Vec::new(),
            is_loading: true,
            error: None,
            repositories: Vec::new(),
            selected_repo: None,
        };
        proof {
            assert(panel@.commits =~= Seq::empty());
            assert(panel@.repositories =~= Seq::empty());
        }
        panel
    }

    /// The commits that are shown.
    pub fn commits(&self) -> (commits: &Vec<JjCommitSummary>)
        ensures
            commit_views(commits@) == self@.commits,
    {
        &self.commits
    }

    /// Whether the history is being loaded.
    pub fn is_loading(&self) -> (loading: bool)
        ensures
            loading == self@.is_loading,
    {
        self.is_loading
    }

    /// What went wrong, if anything did.
    pub fn error(&self) -> (error: &Option<String>)
        ensures
            optional_text(*error) == self@.error,
    {
        &self.error
    }

    /// The repositories to choose from.
    pub fn repositories(&self) -> (repositories: &Vec<JjRepositorySummary>)
        ensures
            repository_views(repositories@) == self@.repositories,
    {
        &self.repositories
    }

    /// The repository whose history is shown.
    pub fn selected_repo(&self) -> (selected: Option<ProjectEntryId>)
        ensures
            selected == self@.selected_repo,
    {
        self.selected_repo
    }

    /// Takes in the repositories that the store shows, or that there is no
    /// store, and says whether the history is to be loaded. Without a store
    /// and without repositories the panel shows why there is no history.
    /// Otherwise the selected repository stays selected where it is still
    /// there, the first one is selected where it is not, and the history of
    /// the selected repository is asked for.
    pub fn request_refresh(&mut self, repositories: Option<Vec<JjRepositorySummary>>) -> (action:
        RefreshAction)
        ensures
            final(self)@ == refreshed(
                old(self)@,
                match repositories {
                    Some(list) => Some(repository_views(list@)),
                    None => None,
                },
            ),
            action == if final(self)@.is_loading {
                RefreshAction::LoadCommits {
                    repository: final(self)@.selected_repo,
                    limit: RECENT_COMMITS_LIMIT,
                }
            } else {
                RefreshAction::Idle
            },
    {
        match repositories {
            None => {
                self.repositories = Vec::new();
                self.selected_repo = None;
                self.error = Some("JJ support unavailable".to_string());
                self.is_loading = false;
                proof {
                    assert(self@.repositories =~= Seq::empty());
                }
                RefreshAction::Idle
            },
            Some(list) => {
                if list.len() == 0 {
                    self.repositories = list;
                    self.selected_repo = None;
                    self.error = Some("No JJ repositories detected".to_string());
                    self.is_loading = false;
                    RefreshAction::Idle
                } else {
                    let keeps = match self.selected_repo {
                        Some(selected) => has_repository(&list, selected),
                        None => false,
                    };
                    if !keeps {
                        self.selected_repo = Some(list[0].id);
                    }
                    self.repositories = list;
                    self.error = None;
                    self.is_loading = true;
                    RefreshAction::LoadCommits {
                        repository: self.selected_repo,
                        limit: RECENT_COMMITS_LIMIT,
                    }
                }
            },
        }
    }

    /// Takes in that the store has no repository to load the history from.
    pub fn commits_unavailable(&mut self)
        ensures
            final(self)@ == (PanelView {
                error: Some("No JJ repositories detected"@),
                is_loading: false,
                ..old(self)@
            }),
    {
        self.error = Some("No JJ repositories detected".to_string());
        self.is_loading = false;
    }

    /// Takes in the history that was asked for, or why it could not be loaded.
    /// A failure leaves the commits that are shown as they are.
    pub fn commits_loaded(&mut self, outcome: Result<Vec<JjCommitSummary>, String>)
        ensures
            final(self)@ == match outcome {
                Ok(commits) => PanelView {
                    commits: commit_views(commits@),
                    is_loading: false,
                    error: None,
                    ..old(self)@
                },
                Err(message) => PanelView {
                    is_loading: false,
                    error: Some(message@),
                    ..old(self)@
                },
            },
    {
        match outcome {
            Ok(commits) => {
                self.commits = commits;
                self.is_loading = false;
                self.error = None;
            },
            Err(message) => {
                self.error = Some(message);
                self.is_loading = false;
            },
        }
    }

    /// Selects the repository `repo_id` and says whether the history is to be
    /// asked for again, which it is unless that repository was selected
    /// already.
    pub fn select_repository(&mut self, repo_id: ProjectEntryId) -> (changed: bool)
        ensures
            changed == (old(self)@.selected_repo != Some(repo_id)),
            final(self)@ == (PanelView { selected_repo: Some(repo_id), ..old(self)@ }),
    {
        match self.selected_repo {
            Some(selected) => {
                if selected == repo_id {
                    return false;
                }
            },
            None => {},
        }
        self.selected_repo = Some(repo_id);
        true
    }

    /// The text that shows the selected repository: the path of the first
    /// repository of the selected identifier among those to choose from.
    pub fn current_repository_label(&self) -> (label: Option<String>)
        ensures
            match label {
                Some(text) => {
                    &&& self@.selected_repo is Some
                    &&& exists|i: int|
                        {
                            &&& 0 <= i < self@.repositories.len()
                            &&& (#[trigger] self@.repositories[i]).id == self@.selected_repo->0
                            &&& self@.repositories[i].path == text@
                            &&& forall|j: int|
                                0 <= j < i ==> (#[trigger] self@.repositories[j]).id
                                    != self@.selected_repo->0
                        }
                },
                None => self@.selected_repo is None || !shows_repository(
                    self@.repositories,
                    self@.selected_repo->0,
                ),
            },
    {
        let selected = match self.selected_repo {
            Some(selected) => selected,
            None => {
                return None;
            },
        };
        let mut i: usize = 0;
        while i < self.repositories.len()
            invariant
                i <= self.repositories.len(),
                self.selected_repo == Some(selected),
                forall|j: int| 0 <= j < i ==> (#[trigger] self@.repositories[j]).id != selected,
            decreases self.repositories.len() - i,
        {
            if self.repositories[i].id == selected {
                let text = self.repositories[i].path.clone();
                proof {
                    assert(self@.repositories[i as int].id == selected);
                    assert(self@.repositories[i as int].path == text@);
                }
                return Some(text);
            }
            i += 1;
        }
        None
    }

    /// The repository in which a commit that was clicked is to be edited:
    /// the selected one. Without a selection a click does nothing.
    pub fn edit_target(&self) -> (target: Option<ProjectEntryId>)
        ensures
            target == self@.selected_repo,
    {
        self.selected_repo
    }

    /// Takes in why an operation on a change failed.
    pub fn operation_failed(&mut self, message: String)
        ensures
            final(self)@ == (PanelView { error: Some(message@), ..old(self)@ }),
    {
        self.error = Some(message);
    }
}

/// One line of the history as it is shown.
#[derive(Debug)]
pub struct CommitRow {
    pub description: String,
    pub timestamp: String,
    pub commit_label: String,
    pub change_label: String,
    pub author: String,
    pub is_current: bool,
    pub is_interactive: bool,
}

/// What a line of the history is.
pub struct CommitRowView {
    pub description: Seq<char>,
    pub timestamp: Seq<char>,
    pub commit_label: Seq<char>,
    pub change_label: Seq<char>,
    pub author: Seq<char>,
    pub is_current: bool,
    pub is_interactive: bool,
}

impl View for CommitRow {
    type V = CommitRowView;

    open spec fn view(&self) -> CommitRowView {
        CommitRowView {
            description: self.description@,
            timestamp: self.timestamp@,
            commit_label: self.commit_label@,
            change_label: self.change_label@,
            author: self.author@,
            is_current: self.is_current,
            is_interactive: self.is_interactive,
        }
    }
}

/// The line that shows `commit`: its description, when it was made, the short
/// forms of its two identifiers, and its author. A line can be clicked while a
/// repository is selected.
pub open spec fn row_of(commit: ShownCommitView, is_interactive: bool) -> CommitRowView {
    CommitRowView {
        description: commit.description,
        timestamp: timestamp_text(commit.timestamp),
        commit_label: "commit "@ + short_commit_text(commit.commit_id),
        change_label: "change "@ + short_change_text(commit.change_id),
        author: commit.author,
        is_current: commit.is_current,
        is_interactive,
    }
}

/// What the panel shows below its header.
#[derive(Debug)]
pub enum PanelContent {
    /// The history is being loaded.
    Loading,
    /// Something went wrong.
    Error(String),
    /// There is no commit to show.
    NoCommits,
    /// The history, one line for each commit.
    Commits(Vec<CommitRow>),
}

/// One of the buttons that select a repository.
#[derive(Debug)]
pub struct RepositoryButton {
    pub id: ProjectEntryId,
    pub label: String,
    pub is_selected: bool,
}

impl JjPanel {
    /// The lines of the history, one for each commit and in the same order.
    pub fn commit_rows(&self) -> (rows: Vec<CommitRow>)
        ensures
            rows.len() == self@.commits.len(),
            forall|i: int|
                0 <= i < rows.len() ==> (#[trigger] rows[i])@ == row_of(
                    self@.commits[i],
                    self@.selected_repo is Some,
                ),
    {
        let is_interactive = self.selected_repo.is_some();
        let mut rows: Vec<CommitRow> = Vec::new();
        let mut i: usize = 0;
        while i < self.commits.len()
            invariant
                i <= self.commits.len(),
                rows.len() == i,
                is_interactive == self@.selected_repo is Some,
                forall|j: int|
                    0 <= j < i ==> (#[trigger] rows[j])@ == row_of(
                        self@.commits[j],
                        is_interactive,
                    ),
            decreases self.commits.len() - i,
        {
            let commit = &self.commits[i];
            let mut commit_label = String::new();
            let mut change_label = String::new();
            proof {
                assert(commit_label@ + "commit "@ =~= "commit "@);
                assert(change_label@ + "change "@ =~= "change "@);
            }
            commit_label.append("commit ");
            commit_label.append(short_commit_hash(&commit.commit_id).as_str());
            change_label.append("change ");
            change_label.append(short_change_hash(&commit.change_id).as_str());
            rows.push(
                CommitRow {
                    description: commit.description.clone(),
                    timestamp: format_timestamp(commit.timestamp),
                    commit_label,
                    change_label,
                    author: commit.author.clone(),
                    is_current: commit.is_current,
                    is_interactive,
                },
            );
            i += 1;
        }
        rows
    }

    /// What the panel shows below its header: that it is loading, else what
    /// went wrong, else that there are no commits, else the history.
    pub fn content(&self) -> (content: PanelContent)
        ensures
            match content {
                PanelContent::Loading => self@.is_loading,
                PanelContent::Error(message) => !self@.is_loading && self@.error == Some(
                    message@,
                ),
                PanelContent::NoCommits => !self@.is_loading && self@.error is None
                    && self@.commits.len() == 0,
                PanelContent::Commits(rows) => {
                    &&& !self@.is_loading
                    &&& self@.error is None
                    &&& rows.len() == self@.commits.len()
                    &&& rows.len() > 0
                    &&& forall|i: int|
                        0 <= i < rows.len() ==> (#[trigger] rows[i])@ == row_of(
                            self@.commits[i],
                            self@.selected_repo is Some,
                        )
                },
            },
    {
        if self.is_loading {
            return PanelContent::Loading;
        }
        match &self.error {
            Some(message) => PanelContent::Error(message.clone()),
            None => {
                if self.commits.len() == 0 {
                    PanelContent::NoCommits
                } else {
                    PanelContent::Commits(self.commit_rows())
                }
            },
        }
    }

    /// The buttons that select a repository, one for each repository and in
    /// the same order, or nothing where there is no choice to make.
    pub fn repository_selector(&self) -> (buttons: Option<Vec<RepositoryButton>>)
        ensures
            match buttons {
                None => self@.repositories.len() <= 1,
                Some(list) => {
                    &&& self@.repositories.len() > 1
                    &&& list.len() == self@.repositories.len()
                    &&& forall|i: int|
                        0 <= i < list.len() ==> {
                            &&& (#[trigger] list[i]).id == self@.repositories[i].id
                            &&& list[i].label@ == self@.repositories[i].path
                            &&& list[i].is_selected == (self@.selected_repo == Some(
                                self@.repositories[i].id,
                            ))
                        }
                },
            },
    {
        if self.repositories.len() <= 1 {
            return None;
        }
        let mut buttons: Vec<RepositoryButton> = Vec::new();
        let mut i: usize = 0;
        while i < self.repositories.len()
            invariant
                i <= self.repositories.len(),
                buttons.len() == i,
                forall|j: int|
                    0 <= j < i ==> {
                        &&& (#[trigger] buttons[j]).id == self@.repositories[j].id
                        &&& buttons[j].label@ == self@.repositories[j].path
                        &&& buttons[j].is_selected == (self@.selected_repo == Some(
                            self@.repositories[j].id,
                        ))
                    },
            decreases self.repositories.len() - i,
        {
            let repository = &self.repositories[i];
            let is_selected = match self.selected_repo {
                Some(selected) => selected == repository.id,
                None => false,
            };
            buttons.push(
                RepositoryButton {
                    id: repository.id,
                    label: repository.path.clone(),
                    is_selected,
                },
            );
            i += 1;
        }
        Some(buttons)
    }
}

/// `text` without the white space at its start and at its end.
pub uninterp spec fn trimmed(text: Seq<char>) -> Seq<char>;

/// Calls `str::trim`, which removes the white space at both ends of a text,
/// and owns what is left.
#[verifier::external_body]
fn trim_text(text: &str) -> (rest: String)
    ensures
        rest@ == trimmed(text@),
{
    text.trim().to_string()
}

/// The description that a change gets, given what was typed with the white
/// space at both ends removed: nothing at all is refused.
pub open spec fn accepted_description(typed: Seq<char>) -> Result<Seq<char>, Seq<char>> {
    if typed.len() == 0 {
        Err("Description cannot be empty"@)
    } else {
        Ok(typed)
    }
}

/// Decides whether what was typed, with the white space at both ends removed,
/// can be the description of a change.
pub fn check_description(typed: String) -> (checked: Result<String, String>)
    ensures
        match checked {
            Ok(description) => accepted_description(typed@) == Ok::<Seq<char>, Seq<char>>(
                description@,
            ),
            Err(message) => accepted_description(typed@) == Err::<Seq<char>, Seq<char>>(
                message@,
            ),
        },
{
    if typed.as_str().unicode_len() == 0 {
        Err("Description cannot be empty".to_string())
    } else {
        Ok(typed)
    }
}

/// What the dialog that renames a change holds.
pub struct RenameView {
    pub is_submitting: bool,
    pub error: Option<Seq<char>>,
}

/// The dialog that renames a change.
pub struct RenameChangeModal {
    is_submitting: bool,
    error: Option<String>,
}

impl View for RenameChangeModal {
    type V = RenameView;

    closed spec fn view(&self) -> RenameView {
        RenameView { is_submitting: self.is_submitting, error: optional_text(self.error) }
    }
}

/// What is submitted when `typed` stands in the dialog: nothing while an
/// earlier description is being submitted, nothing where what was typed is
/// refused, nothing without a store, and else what was typed without the
/// white space at its ends.
pub open spec fn submitted(dialog: RenameView, typed: Seq<char>, store_available: bool) -> Option<
    Seq<char>,
> {
    if dialog.is_submitting {
        None
    } else {
        match accepted_description(trimmed(typed)) {
            Ok(description) => if store_available {
                Some(description)
            } else {
                None
            },
            Err(_) => None,
        }
    }
}

/// The dialog after `typed` was submitted.
pub open spec fn after_submit(dialog: RenameView, typed: Seq<char>, store_available: bool) -> RenameView {
    if dialog.is_submitting {
        dialog
    } else {
        match accepted_description(trimmed(typed)) {
            Ok(_) => if store_available {
                dialog
            } else {
                RenameView { error: Some("JJ support unavailable"@), ..dialog }
            },
            Err(message) => RenameView { error: Some(message), ..dialog },
        }
    }
}

impl RenameChangeModal {
    /// A dialog in which nothing was submitted yet.
    pub fn new() -> (dialog: Self)
        ensures
            dialog@ == (RenameView { is_submitting: false, error: None }),
    {
        RenameChangeModal { is_submitting: false, error: None }
    }

    /// Whether a description is being submitted.
    pub fn is_submitting(&self) -> (submitting: bool)
        ensures
            submitting == self@.is_submitting,
    {
        self.is_submitting
    }

    /// What went wrong, if anything did.
    pub fn error(&self) -> (error: &Option<String>)
        ensures
            optional_text(*error) == self@.error,
    {
        &self.error
    }

    /// Takes in what was typed and says what description is to be submitted,
    /// if any.
    pub fn submit(&mut self, typed: &str, store_available: bool) -> (description: Option<String>)
        ensures
            final(self)@ == after_submit(old(self)@, typed@, store_available),
            match description {
                Some(text) => submitted(old(self)@, typed@, store_available) == Some(text@),
                None => submitted(old(self)@, typed@, store_available) is None,
            },
    {
        if self.is_submitting {
            return None;
        }
        match check_description(trim_text(typed)) {
            Ok(description) => {
                if store_available {
                    Some(description)
                } else {
                    self.error = Some("JJ support unavailable".to_string());
                    None
                }
            },
            Err(message) => {
                self.error = Some(message);
                None
            },
        }
    }

    /// Takes in that the description is on its way.
    pub fn rename_started(&mut self)
        ensures
            final(self)@ == (RenameView { is_submitting: true, ..old(self)@ }),
    {
        self.is_submitting = true;
    }

    /// Takes in how the renaming ended and says whether the dialog is to be
    /// closed, which it is after a success. After a failure the dialog shows
    /// it and takes a new description.
    pub fn rename_finished(&mut self, outcome: Result<(), String>) -> (dismiss: bool)
        ensures
            dismiss == outcome is Ok,
            final(self)@ == match outcome {
                Ok(_) => old(self)@,
                Err(message) => RenameView { is_submitting: false, error: Some(message@) },
            },
    {
        match outcome {
            Ok(_) => true,
            Err(message) => {
                self.is_submitting = false;
                self.error = Some(message);
                false
            },
        }
    }
}

} // verus!
