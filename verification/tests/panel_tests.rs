use jj::commit::{ChangeId, CommitId, JjCommitSummary};
use jj::panel::{
    check_description, position_is_valid, DockPosition, JjPanel, PanelContent, RefreshAction,
    RenameChangeModal,
    RECENT_COMMITS_LIMIT,
};
use jj::store::JjRepositorySummary;

fn repo(id: u64, path: &str) -> JjRepositorySummary {
    JjRepositorySummary { id, worktree_id: 1, path: path.to_string() }
}

fn shown(n: u8) -> JjCommitSummary {
    JjCommitSummary {
        commit_id: CommitId::new(vec![n]),
        change_id: ChangeId::new(vec![n]),
        description: format!("commit {n}"),
        author: "someone".to_string(),
        timestamp: 0,
        is_current: false,
    }
}

fn load_of(action: RefreshAction) -> Option<(Option<u64>, usize)> {
    match action {
        RefreshAction::LoadCommits { repository, limit } => Some((repository, limit)),
        RefreshAction::Idle => None,
    }
}

#[test]
fn a_new_panel_waits_for_the_history() {
    let panel = JjPanel::new();
    assert!(panel.is_loading());
    assert!(panel.commits().is_empty());
    assert!(panel.error().is_none());
    assert!(panel.repositories().is_empty());
    assert_eq!(panel.selected_repo(), None);
    assert_eq!(panel.current_repository_label(), None);
    assert_eq!(panel.edit_target(), None);
}

#[test]
fn a_panel_docks_at_the_sides() {
    assert!(position_is_valid(DockPosition::Left));
    assert!(position_is_valid(DockPosition::Right));
    assert!(!position_is_valid(DockPosition::Bottom));
}

#[test]
fn without_a_store_there_is_nothing_to_load() {
    let mut panel = JjPanel::new();
    panel.request_refresh(Some(vec![repo(1, "/a")]));
    assert!(load_of(panel.request_refresh(None)).is_none());
    assert_eq!(panel.error().as_deref(), Some("JJ support unavailable"));
    assert!(!panel.is_loading());
    assert!(panel.repositories().is_empty());
    assert_eq!(panel.selected_repo(), None);
}

#[test]
fn without_repositories_there_is_nothing_to_load() {
    let mut panel = JjPanel::new();
    assert!(load_of(panel.request_refresh(Some(vec![]))).is_none());
    assert_eq!(panel.error().as_deref(), Some("No JJ repositories detected"));
    assert!(!panel.is_loading());
}

#[test]
fn the_first_repository_is_selected_at_first() {
    let mut panel = JjPanel::new();
    let action = panel.request_refresh(Some(vec![repo(4, "/four"), repo(2, "/two")]));
    assert_eq!(load_of(action), Some((Some(4), 50)));
    assert_eq!(RECENT_COMMITS_LIMIT, 50);
    assert!(panel.is_loading());
    assert!(panel.error().is_none());
    assert_eq!(panel.current_repository_label().as_deref(), Some("/four"));
}

#[test]
fn the_selection_is_kept_while_the_repository_is_there() {
    let mut panel = JjPanel::new();
    panel.request_refresh(Some(vec![repo(4, "/four"), repo(2, "/two")]));
    assert!(panel.select_repository(2));
    assert!(!panel.select_repository(2));
    let action = panel.request_refresh(Some(vec![repo(4, "/four"), repo(2, "/two")]));
    assert_eq!(load_of(action), Some((Some(2), 50)));
    assert_eq!(panel.current_repository_label().as_deref(), Some("/two"));
    let action = panel.request_refresh(Some(vec![repo(4, "/four"), repo(7, "/seven")]));
    assert_eq!(load_of(action), Some((Some(4), 50)));
    assert_eq!(panel.edit_target(), Some(4));
}

#[test]
fn a_selection_that_is_not_shown_has_no_label() {
    let mut panel = JjPanel::new();
    panel.request_refresh(Some(vec![repo(4, "/four")]));
    assert!(panel.select_repository(9));
    assert_eq!(panel.current_repository_label(), None);
}

#[test]
fn the_history_replaces_the_commits() {
    let mut panel = JjPanel::new();
    panel.request_refresh(Some(vec![repo(4, "/four")]));
    panel.commits_loaded(Ok(vec![shown(1), shown(2)]));
    assert!(!panel.is_loading());
    assert!(panel.error().is_none());
    assert_eq!(panel.commits().len(), 2);
    assert_eq!(panel.commits()[1].description, "commit 2");
}

#[test]
fn a_failure_keeps_the_commits() {
    let mut panel = JjPanel::new();
    panel.request_refresh(Some(vec![repo(4, "/four")]));
    panel.commits_loaded(Ok(vec![shown(1)]));
    panel.request_refresh(Some(vec![repo(4, "/four")]));
    panel.commits_loaded(Err("broken".to_string()));
    assert!(!panel.is_loading());
    assert_eq!(panel.error().as_deref(), Some("broken"));
    assert_eq!(panel.commits().len(), 1);
    panel.commits_unavailable();
    assert_eq!(panel.error().as_deref(), Some("No JJ repositories detected"));
    panel.operation_failed("no such change".to_string());
    assert_eq!(panel.error().as_deref(), Some("no such change"));
}

#[test]
fn an_empty_description_is_refused() {
    assert_eq!(check_description(String::new()), Err("Description cannot be empty".to_string()));
    assert_eq!(check_description("x".to_string()), Ok("x".to_string()));
}

#[test]
fn what_is_submitted_loses_the_white_space_at_its_ends() {
    let mut dialog = RenameChangeModal::new();
    assert_eq!(dialog.submit("  a new name \n", true), Some("a new name".to_string()));
    assert!(dialog.error().is_none());
    assert!(!dialog.is_submitting());
}

#[test]
fn white_space_alone_is_no_description() {
    let mut dialog = RenameChangeModal::new();
    assert_eq!(dialog.submit(" \t\n", true), None);
    assert_eq!(dialog.error().as_deref(), Some("Description cannot be empty"));
    assert_eq!(dialog.submit("", true), None);
}

#[test]
fn nothing_is_submitted_without_a_store() {
    let mut dialog = RenameChangeModal::new();
    assert_eq!(dialog.submit("name", false), None);
    assert_eq!(dialog.error().as_deref(), Some("JJ support unavailable"));
}

#[test]
fn nothing_is_submitted_twice() {
    let mut dialog = RenameChangeModal::new();
    assert!(dialog.submit("name", true).is_some());
    dialog.rename_started();
    assert!(dialog.is_submitting());
    assert_eq!(dialog.submit("name", true), None);
    assert_eq!(dialog.submit("", true), None);
    assert!(dialog.error().is_none());
    assert!(!dialog.rename_finished(Err("refused".to_string())));
    assert!(!dialog.is_submitting());
    assert_eq!(dialog.error().as_deref(), Some("refused"));
    assert!(dialog.submit("name", true).is_some());
    dialog.rename_started();
    assert!(dialog.rename_finished(Ok(())));
}

#[test]
fn the_content_is_what_the_panel_is_in() {
    let mut panel = JjPanel::new();
    assert!(matches!(panel.content(), PanelContent::Loading));
    panel.request_refresh(Some(vec![repo(4, "/four")]));
    panel.commits_loaded(Ok(vec![]));
    assert!(matches!(panel.content(), PanelContent::NoCommits));
    panel.commits_loaded(Err("broken".to_string()));
    assert!(matches!(panel.content(), PanelContent::Error(message) if message == "broken"));
    panel.commits_loaded(Ok(vec![shown(1)]));
    assert!(matches!(panel.content(), PanelContent::Commits(rows) if rows.len() == 1));
    panel.request_refresh(Some(vec![repo(4, "/four")]));
    assert!(matches!(panel.content(), PanelContent::Loading));
}

#[test]
fn a_line_shows_the_short_identifiers_and_the_time() {
    let mut panel = JjPanel::new();
    panel.request_refresh(Some(vec![repo(4, "/four")]));
    let mut commit = shown(0x1f);
    commit.timestamp = 1_546_300_800_000;
    commit.is_current = true;
    panel.commits_loaded(Ok(vec![commit, shown(2)]));
    let rows = panel.commit_rows();
    assert_eq!(rows.len(), 2);
    assert_eq!(rows[0].description, "commit 31");
    assert_eq!(rows[0].timestamp, "2019-01-01T00:00:00Z");
    assert_eq!(rows[0].commit_label, "commit 1f");
    assert_eq!(rows[0].change_label, "change yk");
    assert_eq!(rows[0].author, "someone");
    assert!(rows[0].is_current);
    assert!(rows[0].is_interactive);
    assert!(!rows[1].is_current);
    assert_eq!(rows[1].timestamp, "1970-01-01T00:00:00Z");
}

#[test]
fn lines_cannot_be_clicked_without_a_selection() {
    let mut panel = JjPanel::new();
    panel.commits_loaded(Ok(vec![shown(1)]));
    let rows = panel.commit_rows();
    assert!(!rows[0].is_interactive);
}

#[test]
fn the_selector_appears_when_there_is_a_choice() {
    let mut panel = JjPanel::new();
    assert!(panel.repository_selector().is_none());
    panel.request_refresh(Some(vec![repo(4, "/four")]));
    assert!(panel.repository_selector().is_none());
    panel.request_refresh(Some(vec![repo(4, "/four"), repo(2, "/two")]));
    panel.select_repository(2);
    let buttons = panel.repository_selector().expect("two repositories");
    let got: Vec<(u64, &str, bool)> =
        buttons.iter().map(|b| (b.id, b.label.as_str(), b.is_selected)).collect();
    assert_eq!(got, vec![(4, "/four", false), (2, "/two", true)]);
}
