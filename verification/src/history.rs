//! The walk through the history that collects the most recent commits.
//!
//! The walk goes depth first from the heads. It decides which commits are
//! needed next; loading them is left to whoever holds the repository, who
//! hands them back.

use vstd::prelude::*;

use crate::commit::CommitId;
use crate::commit::CommitSummary;
use crate::commit::CommitSummaryView;

verus! {

/// What the walk needs of one commit: what is shown of it, and its parents.
#[derive(Debug)]
pub struct CommitRecord {
    pub summary: CommitSummary,
    pub parent_ids: Vec<CommitId>,
}

/// What a commit record is, with identifiers as bytes.
pub struct CommitRecordView {
    pub summary: CommitSummaryView,
    pub parent_ids: Seq<Seq<u8>>,
}

/// The bytes of each identifier of a list.
pub open spec fn id_views(ids: Seq<CommitId>) -> Seq<Seq<u8>> {
    Seq::new(ids.len(), |i: int| ids[i]@)
}

impl View for CommitRecord {
    type V = CommitRecordView;

    open spec fn view(&self) -> CommitRecordView {
        CommitRecordView { summary: self.summary@, parent_ids: id_views(self.parent_ids@) }
    }
}

/// What a list of commit records is.
pub open spec fn record_views(records: Seq<CommitRecord>) -> Seq<CommitRecordView> {
    Seq::new(records.len(), |i: int| records[i]@)
}

/// What a list of commit summaries is.
pub open spec fn summary_views(summaries: Seq<CommitSummary>) -> Seq<CommitSummaryView> {
    Seq::new(summaries.len(), |i: int| summaries[i]@)
}

/// Whether the byte string `a` comes before `b` in the order of the
/// dictionary: at the first place where they differ `a` has the lower byte, or
/// `a` ends there and `b` goes on.
pub open spec fn bytes_less(a: Seq<u8>, b: Seq<u8>) -> bool
    decreases a.len(),
{
    if b.len() == 0 {
        false
    } else if a.len() == 0 {
        true
    } else if a[0] != b[0] {
        a[0] < b[0]
    } else {
        bytes_less(a.drop_first(), b.drop_first())
    }
}

/// Whether no identifier of `ids` comes before one that stands earlier.
pub open spec fn ascending_ids(ids: Seq<Seq<u8>>) -> bool {
    forall|i: int, j: int| 0 <= i < j < ids.len() ==> !bytes_less(#[trigger] ids[j], #[trigger] ids[i])
}

/// No byte string comes before itself.
pub proof fn lemma_bytes_less_irreflexive(a: Seq<u8>)
    ensures
        !bytes_less(a, a),
    decreases a.len(),
{
    if a.len() > 0 {
        lemma_bytes_less_irreflexive(a.drop_first());
    }
}

/// Of two different byte strings one comes before the other.
pub proof fn lemma_bytes_less_total(a: Seq<u8>, b: Seq<u8>)
    ensures
        a == b || bytes_less(a, b) || bytes_less(b, a),
        !(bytes_less(a, b) && bytes_less(b, a)),
    decreases a.len(),
{
    if a.len() == 0 || b.len() == 0 {
        if a.len() == 0 && b.len() == 0 {
            assert(a =~= b);
        }
    } else if a[0] == b[0] {
        lemma_bytes_less_total(a.drop_first(), b.drop_first());
        if a.drop_first() == b.drop_first() {
            assert(a =~= seq![a[0]] + a.drop_first());
            assert(b =~= seq![b[0]] + b.drop_first());
        }
    }
}

/// What comes before a byte string comes before everything that the byte
/// string does not come after.
pub proof fn lemma_bytes_less_transitive(a: Seq<u8>, b: Seq<u8>, c: Seq<u8>)
    requires
        bytes_less(a, b),
        !bytes_less(c, b),
    ensures
        bytes_less(a, c),
    decreases a.len(),
{
    if c.len() == 0 {
        assert(b.len() > 0);
    } else if a.len() > 0 {
        if a[0] == b[0] && b[0] == c[0] {
            lemma_bytes_less_transitive(a.drop_first(), b.drop_first(), c.drop_first());
        }
    }
}

/// Decides whether the bytes of `a` come before those of `b`.
pub fn id_less(a: &CommitId, b: &CommitId) -> (less: bool)
    ensures
        less == bytes_less(a@, b@),
{
    let x = a.as_bytes();
    let y = b.as_bytes();
    let mut i: usize = 0;
    proof {
        assert(x@.skip(0) =~= x@);
        assert(y@.skip(0) =~= y@);
    }
    while i < x.len() && i < y.len()
        invariant
            i <= x.len(),
            i <= y.len(),
            x@ == a@,
            y@ == b@,
            bytes_less(a@, b@) == bytes_less(x@.skip(i as int), y@.skip(i as int)),
        decreases x.len() - i,
    {
        proof {
            let p = x@.skip(i as int);
            let q = y@.skip(i as int);
            assert(p[0] == x@[i as int]);
            assert(q[0] == y@[i as int]);
            assert(p.drop_first() =~= x@.skip(i + 1));
            assert(q.drop_first() =~= y@.skip(i + 1));
        }
        if x[i] != y[i] {
            return x[i] < y[i];
        }
        i += 1;
    }
    proof {
        let p = x@.skip(i as int);
        let q = y@.skip(i as int);
        assert(p.len() == x.len() - i);
        assert(q.len() == y.len() - i);
    }
    i < y.len()
}

/// Sorts the identifiers of the heads, so that the walk starts from them in
/// an order that does not depend on how they were found.
pub fn sort_heads(heads: Vec<CommitId>) -> (sorted: Vec<CommitId>)
    ensures
        ascending_ids(id_views(sorted@)),
        id_views(sorted@).to_multiset() == id_views(heads@).to_multiset(),
{
    let ghost all = id_views(heads@);
    let mut sorted: Vec<CommitId> = Vec::new();
    proof {
        assert(all.take(0) =~= Seq::<Seq<u8>>::empty());
        assert(id_views(sorted@) =~= Seq::<Seq<u8>>::empty());
    }
    for head in it: heads
        invariant
            id_views(it.seq()) == all,
            ascending_ids(id_views(sorted@)),
            id_views(sorted@).to_multiset() == all.take(it.index()).to_multiset(),
    {
        let ghost before = id_views(sorted@);
        let mut place: usize = 0;
        while place < sorted.len() && !id_less(&head, &sorted[place])
            invariant
                place <= sorted.len(),
                before == id_views(sorted@),
                forall|i: int| 0 <= i < place ==> !bytes_less(head@, #[trigger] before[i]),
            decreases sorted.len() - place,
        {
            place += 1;
        }
        proof {
            let longer = before.insert(place as int, head@);
            assert forall|i: int, j: int| 0 <= i < j < longer.len() implies !bytes_less(
                #[trigger] longer[j],
                #[trigger] longer[i],
            ) by {
                if j < place {
                    assert(longer[i] == before[i] && longer[j] == before[j]);
                } else if j == place {
                    assert(longer[i] == before[i]);
                } else if i < place {
                    assert(longer[i] == before[i] && longer[j] == before[j - 1]);
                } else if i == place {
                    assert(longer[j] == before[j - 1]);
                    assert(bytes_less(head@, before[place as int]));
                    assert(!bytes_less(before[j - 1], before[place as int])) by {
                        if j - 1 == place {
                            lemma_bytes_less_irreflexive(before[place as int]);
                        }
                    }
                    lemma_bytes_less_transitive(head@, before[place as int], before[j - 1]);
                    lemma_bytes_less_total(head@, before[j - 1]);
                } else {
                    assert(longer[i] == before[i - 1] && longer[j] == before[j - 1]);
                }
            }
            let upto = all.take(it.index() + 1);
            assert(upto.drop_last() =~= all.take(it.index()));
            assert(upto.last() == head@);
            assert(upto =~= all.take(it.index()).push(head@));
            assert(longer.to_multiset() =~= before.to_multiset().insert(head@)) by {
                vstd::seq_lib::to_multiset_insert(before, place as int, head@);
            }
            assert(upto.to_multiset() =~= all.take(it.index()).to_multiset().insert(head@)) by {
                vstd::seq_lib::to_multiset_build(all.take(it.index()), head@);
            }
        }
        sorted.insert(place, head);
        proof {
            assert(id_views(sorted@) =~= before.insert(place as int, head@));
        }
    }
    proof {
        assert(all.take(all.len() as int) =~= all);
    }
    sorted
}

/// What the walk asks for next.
#[derive(Debug)]
pub enum WalkStep {
    /// These commits are to be loaded and supplied, in this order.
    Load(Vec<CommitId>),
    /// The walk is over.
    Done,
}

/// What the walk holds: the commits that wait to be visited, the last of them
/// being the next; the identifiers of the commits that were visited; what was
/// collected; and how many are wanted.
pub struct WalkView {
    pub limit: usize,
    pub stack: Seq<CommitRecordView>,
    pub visited: Seq<Seq<u8>>,
    pub summaries: Seq<CommitSummaryView>,
}

/// The commits that wait once those at the top that were visited already have
/// been dropped.
pub open spec fn without_visited_top(stack: Seq<CommitRecordView>, visited: Seq<Seq<u8>>) -> Seq<
    CommitRecordView,
>
    decreases stack.len(),
{
    if stack.len() == 0 {
        stack
    } else if visited.contains(stack.last().summary.commit_id) {
        without_visited_top(stack.drop_last(), visited)
    } else {
        stack
    }
}

/// The walk after its next step. The commits at the top of the stack that
/// were visited already are dropped; the next one is visited and collected.
/// With nothing left to visit the walk stays as it is otherwise.
pub open spec fn stepped(walk: WalkView) -> WalkView {
    let waiting = without_visited_top(walk.stack, walk.visited);
    if waiting.len() == 0 {
        WalkView { stack: waiting, ..walk }
    } else {
        WalkView {
            limit: walk.limit,
            stack: waiting.drop_last(),
            visited: walk.visited.push(waiting.last().summary.commit_id),
            summaries: walk.summaries.push(waiting.last().summary),
        }
    }
}

/// What the walk asks for after its next step: nothing more where nothing was
/// left to visit or where enough has been collected, else the parents of the
/// commit that was visited, the last parent first.
pub open spec fn asked_for(walk: WalkView) -> Option<Seq<Seq<u8>>> {
    let waiting = without_visited_top(walk.stack, walk.visited);
    if waiting.len() == 0 || walk.summaries.len() + 1 >= walk.limit {
        None
    } else {
        Some(waiting.last().parent_ids.reverse())
    }
}

/// Whether the walk has collected each commit once: what was collected are
/// the commits that were visited, in that order, and none of them twice.
pub open spec fn collected_once(walk: WalkView) -> bool {
    &&& walk.visited.len() == walk.summaries.len()
    &&& forall|i: int|
        0 <= i < walk.summaries.len() ==> (#[trigger] walk.summaries[i]).commit_id
            == walk.visited[i]
    &&& walk.visited.no_duplicates()
}

/// A step of the walk collects no commit twice.
///
/// For every walk that has collected each commit once, the walk after its
/// next step has done so too, and it has collected at most one commit more.
pub proof fn lemma_step_collects_once(walk: WalkView)
    requires
        collected_once(walk),
    ensures
        collected_once(stepped(walk)),
        walk.summaries.len() <= stepped(walk).summaries.len() <= walk.summaries.len() + 1,
        walk.summaries.is_prefix_of(stepped(walk).summaries),
{
    lemma_without_visited_top(walk.stack, walk.visited);
    let waiting = without_visited_top(walk.stack, walk.visited);
    let after = stepped(walk);
    if waiting.len() > 0 {
        let id = waiting.last().summary.commit_id;
        assert forall|i: int, j: int|
            0 <= i < after.visited.len() && 0 <= j < after.visited.len() && i
                != j implies after.visited[i] != after.visited[j] by {
            if i < walk.visited.len() && j < walk.visited.len() {
                assert(walk.visited[i] != walk.visited[j]);
            } else if i < walk.visited.len() {
                assert(walk.visited.contains(walk.visited[i]));
            } else {
                assert(walk.visited.contains(walk.visited[j]));
            }
        }
        assert(walk.summaries =~= after.summaries.subrange(0, walk.summaries.len() as int));
    } else {
        assert(walk.summaries =~= after.summaries.subrange(0, walk.summaries.len() as int));
    }
}

/// A walk that asks for more has not collected enough yet.
///
/// For every walk: where its next step asks for commits to be loaded, it has
/// collected fewer commits after that step than were wanted. So a walk that
/// is advanced only while it asks for more never collects more than were
/// wanted, but for the first commit, which it collects whatever the limit.
pub proof fn lemma_asking_walk_is_below_limit(walk: WalkView)
    requires
        asked_for(walk) is Some,
    ensures
        stepped(walk).summaries.len() == walk.summaries.len() + 1,
        stepped(walk).summaries.len() < walk.limit,
{
}

/// What is left after the visited commits at the top have been dropped is a
/// first part of the stack whose top, if there is one, was not visited.
pub proof fn lemma_without_visited_top(stack: Seq<CommitRecordView>, visited: Seq<Seq<u8>>)
    ensures
        without_visited_top(stack, visited).is_prefix_of(stack),
        without_visited_top(stack, visited).len() > 0 ==> !visited.contains(
            without_visited_top(stack, visited).last().summary.commit_id,
        ),
    decreases stack.len(),
{
    if stack.len() > 0 && visited.contains(stack.last().summary.commit_id) {
        lemma_without_visited_top(stack.drop_last(), visited);
        let rest = without_visited_top(stack.drop_last(), visited);
        assert(rest =~= stack.subrange(0, rest.len() as int));
    } else {
        assert(stack =~= stack.subrange(0, stack.len() as int));
    }
}

/// The walk through the history.
pub struct HistoryWalk {
    limit: usize,
    stack: Vec<CommitRecord>,
    visited: Vec<CommitId>,
    summaries: Vec<CommitSummary>,
}

impl View for HistoryWalk {
    type V = WalkView;

    closed spec fn view(&self) -> WalkView {
        WalkView {
            limit: self.limit,
            stack: record_views(self.stack@),
            visited: id_views(self.visited@),
            summaries: summary_views(self.summaries@),
        }
    }
}

/// Decides whether `id` is among `visited`.
fn was_visited(visited: &Vec<CommitId>, id: &CommitId) -> (seen: bool)
    ensures
        seen == id_views(visited@).contains(id@),
{
    let mut i: usize = 0;
    while i < visited.len()
        invariant
            i <= visited.len(),
            forall|j: int| 0 <= j < i ==> id_views(visited@)[j] != id@,
        decreases visited.len() - i,
    {
        if visited[i].same_id(id) {
            proof {
                assert(id_views(visited@)[i as int] == id@);
            }
            return true;
        }
        i += 1;
    }
    false
}

impl HistoryWalk {
    /// Whether the walk has collected each commit once. Every walk has: a new
    /// one has collected nothing, and no step collects a commit twice.
    pub open spec fn well_formed(&self) -> bool {
        collected_once(self@)
    }

    /// A walk that is to collect `limit` commits and has nowhere to start from
    /// yet. A walk collects the first commit that it visits whatever the
    /// limit.
    pub fn new(limit: usize) -> (walk: Self)
        ensures
            walk@ == (WalkView {
                limit,
                stack: Seq::empty(),
                visited: Seq::empty(),
                summaries: Seq::empty(),
            }),
            walk.well_formed(),
    {
        let walk = HistoryWalk {
            limit,
            stack: Vec::new(),
            visited: Vec::new(),
            summaries: Vec::new(),
        };
        proof {
            assert(walk@.stack =~= Seq::empty());
            assert(walk@.visited =~= Seq::empty());
            assert(walk@.summaries =~= Seq::empty());
        }
        walk
    }

    /// Hands the walk the commits that it asked for, in the order in which it
    /// asked for them. They wait on top of those that wait already, the last
    /// of them being the next to be visited.
    pub fn supply(&mut self, commits: Vec<CommitRecord>)
        requires
            old(self).well_formed(),
        ensures
            final(self).well_formed(),
            final(self)@ == (WalkView {
                stack: old(self)@.stack + record_views(commits@),
                ..old(self)@
            }),
    {
        let ghost before = self@;
        let ghost all = record_views(commits@);
        proof {
            assert(before.stack + all.take(0) =~= before.stack);
        }
        for commit in it: commits
            invariant
                record_views(it.seq()) == all,
                self@ == (WalkView { stack: before.stack + all.take(it.index()), ..before }),
        {
            let ghost current = self@;
            self.stack.push(commit);
            proof {
                assert(self@.stack =~= current.stack.push(commit@));
                assert(self@.stack =~= before.stack + all.take(it.index() + 1));
                assert(self@.visited =~= current.visited);
                assert(self@.summaries =~= current.summaries);
            }
        }
        proof {
            assert(all.take(all.len() as int) =~= all);
        }
    }

    /// Takes the next step of the walk and says what it needs then. The
    /// commits on top that were visited already are passed over; the next one
    /// is visited and collected. The walk is over where nothing was left to
    /// visit, and where as many commits as wanted have been collected; else
    /// the parents of the visited commit are asked for, the last parent
    /// first, so that the first parent is visited next.
    pub fn advance(&mut self) -> (step: WalkStep)
        requires
            old(self).well_formed(),
        ensures
            final(self).well_formed(),
            final(self)@ == stepped(old(self)@),
            match step {
                WalkStep::Load(ids) => asked_for(old(self)@) == Some(id_views(ids@)),
                WalkStep::Done => asked_for(old(self)@) is None,
            },
    {
        let ghost before = self@;
        proof {
            lemma_step_collects_once(before);
        }
        loop
            invariant
                before == old(self)@,
                collected_once(stepped(before)),
                self@.limit == before.limit,
                self@.visited == before.visited,
                self@.summaries == before.summaries,
                without_visited_top(self@.stack, before.visited) == without_visited_top(
                    before.stack,
                    before.visited,
                ),
            decreases self.stack.len(),
        {
            let ghost current = self@;
            let commit = match self.stack.pop() {
                Some(commit) => commit,
                None => {
                    proof {
                        assert(self@.stack =~= current.stack);
                        assert(self@.summaries =~= current.summaries);
                        assert(self@.visited =~= current.visited);
                        assert(current.stack.len() == 0);
                        assert(without_visited_top(before.stack, before.visited) == current.stack);
                        assert(self@ == stepped(before));
                    }
                    return WalkStep::Done;
                },
            };
            proof {
                assert(self@.stack =~= current.stack.drop_last());
                assert(current.stack.last() == commit@);
                assert(self@.summaries =~= current.summaries);
                assert(self@.visited =~= current.visited);
            }
            if was_visited(&self.visited, &commit.summary.commit_id) {
                continue ;
            }
            let ghost waiting = without_visited_top(before.stack, before.visited);
            proof {
                assert(waiting == current.stack);
            }
            let enough = self.limit <= 1 || self.limit - 1 <= self.summaries.len();
            let mut parents: Vec<CommitId> = Vec::new();
            if !enough {
                let mut i: usize = commit.parent_ids.len();
                proof {
                    assert(id_views(parents@) =~= commit@.parent_ids.reverse().take(0));
                }
                while i > 0
                    invariant
                        i <= commit.parent_ids.len(),
                        id_views(parents@) == commit@.parent_ids.reverse().take(
                            commit.parent_ids.len() - i,
                        ),
                    decreases i,
                {
                    i -= 1;
                    let ghost earlier = id_views(parents@);
                    let parent = commit.parent_ids[i].clone();
                    parents.push(parent);
                    proof {
                        let turned = commit@.parent_ids.reverse();
                        let n = commit.parent_ids.len() as int;
                        assert(turned[n - 1 - i] == commit@.parent_ids[i as int]);
                        assert(id_views(parents@) =~= earlier.push(parent@));
                        assert(id_views(parents@) =~= turned.take(n - i));
                    }
                }
                proof {
                    let turned = commit@.parent_ids.reverse();
                    assert(turned.take(turned.len() as int) =~= turned);
                }
            }
            let ghost seen = self@;
            self.visited.push(commit.summary.commit_id.clone());
            self.summaries.push(commit.summary);
            proof {
                assert(self@.visited =~= seen.visited.push(commit@.summary.commit_id));
                assert(self@.summaries =~= seen.summaries.push(commit@.summary));
                assert(self@.stack =~= seen.stack);
                assert(waiting.last() == commit@);
                assert(self@ == stepped(before));
                assert(enough == (before.summaries.len() + 1 >= before.limit));
            }
            if enough {
                return WalkStep::Done;
            }
            return WalkStep::Load(parents);
        }
    }

    /// Whether the walk has collected as many commits as were wanted.
    pub fn has_enough(&self) -> (enough: bool)
        ensures
            enough == (self@.summaries.len() >= self@.limit),
    {
        self.summaries.len() >= self.limit
    }

    /// What the walk has collected, in the order in which it was visited.
    pub fn into_summaries(self) -> (summaries: Vec<CommitSummary>)
        requires
            self.well_formed(),
        ensures
            summary_views(summaries@) == self@.summaries,
            forall|i: int, j: int|
                0 <= i < j < summaries.len() ==> (#[trigger] summaries[i])@.commit_id != (
                #[trigger] summaries[j])@.commit_id,
    {
        proof {
            let views = self@.summaries;
            assert forall|i: int, j: int| 0 <= i < j < self.summaries.len() implies (
            #[trigger] self.summaries[i])@.commit_id != (
            #[trigger] self.summaries[j])@.commit_id by {
                assert(views[i].commit_id == self@.visited[i]);
                assert(views[j].commit_id == self@.visited[j]);
            }
        }
        self.summaries
    }
}

} // verus!
