//! Safety laws of the protocol, stated over the node's state and the specs
//! of its handlers.
use vstd::prelude::*;
use crate::cluster::{lemma_majority_bounds, majority_of};
use crate::message::{LogEntry, VoteReply};
use crate::state::{last_term, merge, term_at, up_to_date, RaftState};

verus! {

/// A node grants at most one vote per term: along any run of the handlers
/// (each step keeps votes, as every handler ensures), once the node has voted
/// in a term, any later state of that same term holds the same vote.
pub proof fn one_vote_per_term(run: Seq<RaftState>, i: int, j: int)
    requires
        forall|k: int| 0 <= k < run.len() - 1 ==> #[trigger] run[k].keeps_votes(&run[k + 1]),
        0 <= i <= j < run.len(),
        run[i].current_term == run[j].current_term,
        run[i].voted_for is Some,
    ensures
        run[j].voted_for == run[i].voted_for,
    decreases j - i,
{
    if i < j {
        lemma_terms_rise(run, i + 1, j);
        assert(run[i].keeps_votes(&run[i + 1]));
        one_vote_per_term(run, i + 1, j);
    }
}

/// The commit index never decreases: along any run of the handlers (each
/// step keeps the commit index from falling, as every handler ensures), a
/// later state has a commit index at least that of an earlier one.
pub proof fn commit_never_decreases(run: Seq<RaftState>, i: int, j: int)
    requires
        forall|k: int| 0 <= k < run.len() - 1 ==> #[trigger] run[k].keeps_commit(&run[k + 1]),
        0 <= i <= j < run.len(),
    ensures
        run[i].commit_index <= run[j].commit_index,
    decreases j - i,
{
    if i < j {
        assert(run[i].keeps_commit(&run[i + 1]));
        commit_never_decreases(run, i + 1, j);
    }
}

/// Along a run of the handlers the term never falls.
proof fn lemma_terms_rise(run: Seq<RaftState>, i: int, j: int)
    requires
        forall|k: int| 0 <= k < run.len() - 1 ==> #[trigger] run[k].keeps_votes(&run[k + 1]),
        0 <= i <= j < run.len(),
    ensures
        run[i].current_term <= run[j].current_term,
    decreases j - i,
{
    if i < j {
        assert(run[i].keeps_votes(&run[i + 1]));
        lemma_terms_rise(run, i + 1, j);
    }
}

/// Any two quorums of a cluster with an odd number of nodes share a node.
pub proof fn quorums_intersect(cluster: Set<u64>, a: Set<u64>, b: Set<u64>) -> (x: u64)
    requires
        cluster.finite(),
        cluster.len() % 2 == 1,
        a.subset_of(cluster),
        b.subset_of(cluster),
        a.len() >= majority_of(cluster.len() as int),
        b.len() >= majority_of(cluster.len() as int),
    ensures
        a.contains(x),
        b.contains(x),
{
    vstd::set_lib::lemma_len_subset(a, cluster);
    vstd::set_lib::lemma_len_subset(b, cluster);
    vstd::set_lib::lemma_len_subset(a + b, cluster);
    vstd::set_lib::lemma_set_intersect_union_lens(a, b);
    lemma_majority_bounds(cluster.len() as int);
    let both = a.intersect(b);
    assert(both.len() > 0);
    assert(exists|y: u64| both.contains(y)) by {
        if !(exists|y: u64| both.contains(y)) {
            assert(both =~= Set::<u64>::empty());
        }
    }
    both.choose()
}

/// Election safety: in one term, where each node casts at most one vote
/// (`vote_of`), two candidates that each won the votes of a quorum of a
/// cluster with an odd number of nodes are the same node.
pub proof fn election_safety(
    cluster: Set<u64>,
    vote_of: spec_fn(u64) -> u64,
    leader1: u64,
    won1: Set<u64>,
    leader2: u64,
    won2: Set<u64>,
)
    requires
        cluster.finite(),
        cluster.len() % 2 == 1,
        won1.subset_of(cluster),
        won2.subset_of(cluster),
        won1.len() >= majority_of(cluster.len() as int),
        won2.len() >= majority_of(cluster.len() as int),
        forall|v: u64| won1.contains(v) ==> vote_of(v) == leader1,
        forall|v: u64| won2.contains(v) ==> vote_of(v) == leader2,
    ensures
        leader1 == leader2,
{
    let x = quorums_intersect(cluster, won1, won2);
    assert(vote_of(x) == leader1);
}

/// A candidate takes up leadership only on the votes of a quorum: when the
/// vote of `from` brings its tally to the majority, the nodes that voted for
/// it (itself included) are distinct members of the cluster, as many as the
/// majority at least.
pub proof fn leader_has_quorum(s: RaftState, from: u64, reply: VoteReply)
    requires
        s.wf(),
        s.counts_vote(from, reply),
        s.votes_granted.len() + 2 >= s.majority,
    ensures
        ({
            let voters = s.votes_granted@.push(from).push(s.node_id).to_set();
            let cluster = s.peers@.to_set().insert(s.node_id);
            &&& voters.subset_of(cluster)
            &&& voters.len() >= majority_of(cluster.len() as int)
        }),
{
    let seq = s.votes_granted@.push(from).push(s.node_id);
    assert forall|i: int, j: int| 0 <= i < seq.len() && 0 <= j < seq.len() && i != j
        implies seq[i] != seq[j] by {
        if i < s.votes_granted.len() && j < s.votes_granted.len() {
        } else if i < s.votes_granted.len() {
            assert(s.peers@.contains(s.votes_granted@[i]));
            assert(s.votes_granted@.contains(seq[i]));
        } else if j < s.votes_granted.len() {
            assert(s.peers@.contains(s.votes_granted@[j]));
            assert(s.votes_granted@.contains(seq[j]));
        }
    }
    seq.unique_seq_to_set();
    s.peers@.unique_seq_to_set();
    assert(!s.peers@.to_set().contains(s.node_id));
    let cluster = s.peers@.to_set().insert(s.node_id);
    assert forall|v: u64| seq.to_set().contains(v) implies cluster.contains(v) by {
        let i = choose|i: int| 0 <= i < seq.len() && seq[i] == v;
        if i < s.votes_granted.len() {
            assert(s.peers@.contains(s.votes_granted@[i]));
        }
    }
}

/// The step of log matching: if a follower's log agrees with the leader's
/// up to `prev`, an entry of the follower with the same index and term as
/// one of the leader's is that entry, and the leader sends its entries from
/// `prev` on, then after taking them in the follower's log agrees with the
/// leader's up to the last entry sent.
pub proof fn append_matches_leader(
    leader: Seq<LogEntry>,
    follower: Seq<LogEntry>,
    prev: int,
    entries: Seq<LogEntry>,
)
    requires
        0 <= prev <= follower.len(),
        prev + entries.len() <= leader.len(),
        follower.take(prev) == leader.take(prev),
        entries == leader.subrange(prev, prev + entries.len()),
        forall|k: int| 0 <= k < follower.len() && k < leader.len() && follower[k].term
            == leader[k].term ==> #[trigger] follower[k] == leader[k],
    ensures
        merge(follower, prev, entries).take(prev + entries.len()) == leader.take(
            prev + entries.len(),
        ),
    decreases entries.len(),
{
    if entries.len() > 0 {
        if prev < follower.len() && follower[prev].term == entries[0].term {
            assert(follower[prev] == leader[prev]);
            assert(follower.take(prev + 1) =~= leader.take(prev + 1)) by {
                assert forall|k: int| 0 <= k < prev + 1 implies #[trigger] follower.take(prev + 1)[k]
                    == leader.take(prev + 1)[k] by {
                    if k < prev {
                        assert(follower.take(prev)[k] == leader.take(prev)[k]);
                    }
                }
            }
            assert(entries.drop_first() =~= leader.subrange(
                prev + 1,
                prev + 1 + entries.drop_first().len(),
            ));
            append_matches_leader(leader, follower, prev + 1, entries.drop_first());
        } else {
            let m = follower.take(prev) + entries;
            assert(m.take(prev + entries.len()) =~= leader.take(prev + entries.len())) by {
                assert forall|k: int| 0 <= k < prev + entries.len() implies #[trigger] m[k] == leader[k] by {
                    if k < prev {
                        assert(follower.take(prev)[k] == leader.take(prev)[k]);
                    }
                }
            }
        }
    }
}

/// Terms along `log` never fall.
pub open spec fn terms_sorted(log: Seq<LogEntry>) -> bool {
    forall|a: int, b: int| 0 <= a <= b < log.len() ==> log[a].term <= log[b].term
}

/// The step of leader completeness that a single election gives: if a
/// quorum holds the entry at `index` with term `term` in logs whose terms
/// never fall (the entry is committed), then a candidate whose log, ending
/// in `(cand_last_term, cand_last_index)`, was found at least as up to date
/// as the log of every node of a voting quorum is itself at least as up to
/// date as that entry.
pub proof fn winner_not_behind_committed(
    cluster: Set<u64>,
    holders: Set<u64>,
    voters: Set<u64>,
    log_of: spec_fn(u64) -> Seq<LogEntry>,
    index: int,
    term: int,
    cand_last_term: int,
    cand_last_index: int,
)
    requires
        cluster.finite(),
        cluster.len() % 2 == 1,
        holders.subset_of(cluster),
        voters.subset_of(cluster),
        holders.len() >= majority_of(cluster.len() as int),
        voters.len() >= majority_of(cluster.len() as int),
        1 <= index,
        forall|h: u64| holders.contains(h) ==> index <= (#[trigger] log_of(h)).len()
            && term_at(log_of(h), index) == term && terms_sorted(log_of(h)),
        forall|v: u64| voters.contains(v) ==> up_to_date(
            cand_last_term,
            cand_last_index,
            last_term(#[trigger] log_of(v)),
            log_of(v).len() as int,
        ),
    ensures
        up_to_date(cand_last_term, cand_last_index, term, index),
{
    let x = quorums_intersect(cluster, holders, voters);
    let log = log_of(x);
    assert(log[index - 1].term <= log[log.len() - 1].term);
}

} // verus!
