use jj::commit::{
    edit_description, rename_description, resolve_change_commit, short_change_hash,
    short_commit_hash, summarize_commits, ChangeId, ChangeLookupError, CommitId, CommitSummary,
};

fn change(bytes: &[u8]) -> ChangeId {
    ChangeId::new(bytes.to_vec())
}

fn commit(bytes: &[u8]) -> CommitId {
    CommitId::new(bytes.to_vec())
}

fn summary(commit_id: &[u8], change_id: &[u8], description: &str) -> CommitSummary {
    CommitSummary {
        commit_id: commit(commit_id),
        change_id: change(change_id),
        author: "A. Author".to_string(),
        description: description.to_string(),
        timestamp: 1_700_000_000_000,
    }
}

#[test]
fn short_change_hash_uses_reversed_digits() {
    assert_eq!(short_change_hash(&change(&[0x00, 0x1f, 0xa5])), "zzykpu");
    assert_eq!(short_change_hash(&change(&[0xff])), "kk");
    assert_eq!(short_change_hash(&change(&[])), "");
}

#[test]
fn short_commit_hash_uses_hexadecimal_digits() {
    assert_eq!(short_commit_hash(&commit(&[0x00, 0x1f, 0xa5])), "001fa5");
    assert_eq!(short_commit_hash(&commit(&[0xff])), "ff");
    assert_eq!(short_commit_hash(&commit(&[])), "");
}

#[test]
fn short_hashes_stop_at_twelve_digits() {
    let bytes = [0x01, 0x23, 0x45, 0x67, 0x89, 0xab, 0xcd, 0xef];
    assert_eq!(short_commit_hash(&commit(&bytes)), "0123456789ab");
    assert_eq!(short_change_hash(&change(&bytes)), "zyxwvutsrqpo");
    let six = [0x01, 0x23, 0x45, 0x67, 0x89, 0xab];
    assert_eq!(short_commit_hash(&commit(&six)), "0123456789ab");
    let seven = [0x01, 0x23, 0x45, 0x67, 0x89, 0xab, 0xcd];
    assert_eq!(short_commit_hash(&commit(&seven)), "0123456789ab");
}

#[test]
fn identifiers_compare_by_their_bytes() {
    assert!(change(&[1, 2]).same_id(&change(&[1, 2])));
    assert!(!change(&[1, 2]).same_id(&change(&[1, 3])));
    assert!(!change(&[1, 2]).same_id(&change(&[1])));
    assert!(commit(&[9]).same_id(&commit(&[9]).clone()));
    assert_eq!(change(&[4, 5]).as_bytes(), &vec![4, 5]);
    assert_eq!(commit(&[4, 5]).as_bytes(), &vec![4, 5]);
}

#[test]
fn an_unknown_change_is_not_found() {
    let id = change(&[0x00, 0x1f]);
    match resolve_change_commit(&id, None) {
        Err(error @ ChangeLookupError::NotFound { .. }) => {
            assert_eq!(error.message(), "change zzyk not found");
        }
        other => panic!("unexpected {other:?}"),
    }
}

#[test]
fn a_change_without_commits_has_none_to_work_on() {
    let id = change(&[0x00, 0x1f]);
    match resolve_change_commit(&id, Some(vec![])) {
        Err(error @ ChangeLookupError::NoCommits { .. }) => {
            assert_eq!(error.message(), "change zzyk has no associated commits");
        }
        other => panic!("unexpected {other:?}"),
    }
}

#[test]
fn the_first_commit_of_a_change_is_worked_on() {
    let id = change(&[0x00, 0x1f]);
    let found = resolve_change_commit(&id, Some(vec![commit(&[7]), commit(&[8])])).unwrap();
    assert_eq!(found.as_bytes(), &vec![7]);
}

#[test]
fn operations_are_described_by_the_short_change() {
    let id = change(&[0x01, 0x23, 0x45, 0x67, 0x89, 0xab, 0xcd]);
    assert_eq!(edit_description(&id), "edit change zyxwvutsrqpo");
    assert_eq!(rename_description(&id), "rename change zyxwvutsrqpo");
}

#[test]
fn the_commit_of_the_current_change_is_marked() {
    let commits = vec![summary(&[1], &[10], "one"), summary(&[2], &[20], "two"), summary(&[3], &[10], "three")];
    let current = change(&[10]);
    let shown = summarize_commits(Some(&current), commits);
    let got: Vec<(Vec<u8>, String, bool)> = shown
        .iter()
        .map(|c| (c.commit_id.as_bytes().clone(), c.description.clone(), c.is_current))
        .collect();
    assert_eq!(
        got,
        vec![
            (vec![1], "one".to_string(), true),
            (vec![2], "two".to_string(), false),
            (vec![3], "three".to_string(), true),
        ]
    );
    assert_eq!(shown[1].author, "A. Author");
    assert_eq!(shown[1].timestamp, 1_700_000_000_000);
    assert_eq!(shown[1].change_id.as_bytes(), &vec![20]);
}

#[test]
fn without_a_current_change_no_commit_is_marked() {
    let shown = summarize_commits(None, vec![summary(&[1], &[10], "one")]);
    assert_eq!(shown.len(), 1);
    assert!(!shown[0].is_current);
    assert!(summarize_commits(None, vec![]).is_empty());
}
