use std::collections::HashMap;

use jj::commit::{ChangeId, CommitId, CommitSummary};
use jj::history::{id_less, sort_heads, CommitRecord, HistoryWalk, WalkStep};

fn id(n: u8) -> CommitId {
    CommitId::new(vec![n])
}

fn record(n: u8, parents: &[u8]) -> CommitRecord {
    CommitRecord {
        summary: CommitSummary {
            commit_id: id(n),
            change_id: ChangeId::new(vec![n, n]),
            author: format!("author {n}"),
            description: format!("commit {n}"),
            timestamp: n as i64,
        },
        parent_ids: parents.iter().map(|p| id(*p)).collect(),
    }
}

/// Walks the commits of `graph` from `heads`, loading what the walk asks for.
fn walk(graph: &[(u8, Vec<u8>)], heads: &[u8], limit: usize) -> Vec<u8> {
    let by_id: HashMap<u8, Vec<u8>> = graph.iter().cloned().collect();
    let load = |ids: &[CommitId]| -> Vec<CommitRecord> {
        ids.iter()
            .map(|id| {
                let n = id.as_bytes()[0];
                record(n, &by_id[&n])
            })
            .collect()
    };
    let mut walk = HistoryWalk::new(limit);
    let sorted = sort_heads(heads.iter().map(|h| id(*h)).collect());
    walk.supply(load(&sorted));
    loop {
        match walk.advance() {
            WalkStep::Load(ids) => walk.supply(load(&ids)),
            WalkStep::Done => break,
        }
    }
    walk.into_summaries().iter().map(|s| s.commit_id.as_bytes()[0]).collect()
}

#[test]
fn identifiers_are_ordered_like_words() {
    let less = |a: &[u8], b: &[u8]| id_less(&CommitId::new(a.to_vec()), &CommitId::new(b.to_vec()));
    assert!(less(&[1], &[2]));
    assert!(!less(&[2], &[1]));
    assert!(!less(&[1], &[1]));
    assert!(less(&[1], &[1, 0]));
    assert!(!less(&[1, 0], &[1]));
    assert!(less(&[], &[0]));
    assert!(!less(&[], &[]));
    assert!(less(&[1, 9], &[2, 0]));
    assert!(less(&[1, 2, 3], &[1, 2, 4]));
}

#[test]
fn heads_are_sorted_by_their_bytes() {
    let heads = vec![
        CommitId::new(vec![3]),
        CommitId::new(vec![1, 5]),
        CommitId::new(vec![1]),
        CommitId::new(vec![2]),
        CommitId::new(vec![1]),
    ];
    let sorted: Vec<Vec<u8>> = sort_heads(heads).iter().map(|h| h.as_bytes().clone()).collect();
    assert_eq!(sorted, vec![vec![1], vec![1], vec![1, 5], vec![2], vec![3]]);
    assert!(sort_heads(vec![]).is_empty());
}

#[test]
fn sorting_agrees_with_the_order_of_the_repository_library() {
    let raw: Vec<Vec<u8>> = vec![vec![9, 1], vec![], vec![9], vec![0, 255], vec![0], vec![200, 3, 4]];
    let mut expected: Vec<jj_lib::backend::CommitId> =
        raw.iter().map(|b| jj_lib::backend::CommitId::from_bytes(b)).collect();
    expected.sort();
    let expected: Vec<Vec<u8>> = expected
        .iter()
        .map(|id| jj_lib::object_id::ObjectId::to_bytes(id))
        .collect();
    let sorted: Vec<Vec<u8>> = sort_heads(raw.iter().map(|b| CommitId::new(b.clone())).collect())
        .iter()
        .map(|h| h.as_bytes().clone())
        .collect();
    assert_eq!(sorted, expected);
}

#[test]
fn a_line_of_commits_is_walked_from_the_head() {
    let graph = vec![(3, vec![2]), (2, vec![1]), (1, vec![])];
    assert_eq!(walk(&graph, &[3], 50), vec![3, 2, 1]);
    assert_eq!(walk(&graph, &[3], 2), vec![3, 2]);
    assert_eq!(walk(&graph, &[3], 1), vec![3]);
}

#[test]
fn the_first_commit_is_collected_whatever_the_limit() {
    let graph = vec![(3, vec![2]), (2, vec![1]), (1, vec![])];
    assert_eq!(walk(&graph, &[3], 0), vec![3]);
    assert_eq!(walk(&graph, &[], 0), Vec::<u8>::new());
    assert_eq!(walk(&graph, &[], 5), Vec::<u8>::new());
}

#[test]
fn a_merge_is_walked_first_parent_first_and_nothing_twice() {
    // 5 merges 3 and 4, which both descend from 2.
    let graph = vec![(5, vec![3, 4]), (4, vec![2]), (3, vec![2]), (2, vec![1]), (1, vec![])];
    assert_eq!(walk(&graph, &[5], 50), vec![5, 3, 2, 1, 4]);
    assert_eq!(walk(&graph, &[5], 3), vec![5, 3, 2]);
}

#[test]
fn the_walk_starts_from_the_greatest_head() {
    let graph = vec![(7, vec![1]), (4, vec![1]), (1, vec![])];
    assert_eq!(walk(&graph, &[4, 7], 50), vec![7, 1, 4]);
    assert_eq!(walk(&graph, &[7, 4], 50), vec![7, 1, 4]);
    assert_eq!(walk(&graph, &[7, 4, 7], 50), vec![7, 1, 4]);
}

#[test]
fn the_walk_keeps_what_is_shown_of_a_commit() {
    let mut walk = HistoryWalk::new(10);
    assert!(!walk.has_enough());
    walk.supply(vec![record(8, &[])]);
    assert!(matches!(walk.advance(), WalkStep::Load(ids) if ids.is_empty()));
    assert!(matches!(walk.advance(), WalkStep::Done));
    let summaries = walk.into_summaries();
    assert_eq!(summaries.len(), 1);
    assert_eq!(summaries[0].description, "commit 8");
    assert_eq!(summaries[0].author, "author 8");
    assert_eq!(summaries[0].timestamp, 8);
    assert_eq!(summaries[0].change_id.as_bytes(), &vec![8, 8]);
}

#[test]
fn parents_are_asked_for_last_first() {
    let mut walk = HistoryWalk::new(10);
    walk.supply(vec![record(9, &[1, 2, 3])]);
    match walk.advance() {
        WalkStep::Load(ids) => {
            let got: Vec<u8> = ids.iter().map(|i| i.as_bytes()[0]).collect();
            assert_eq!(got, vec![3, 2, 1]);
        }
        WalkStep::Done => panic!("the parents are wanted"),
    }
}
