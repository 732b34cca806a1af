//! The cluster-level safety arguments of the consensus protocol, stated over
//! the mathematical model: sets of node ids, one recorded vote per node and
//! term, and the logs the per-node transitions produce.

use vstd::prelude::*;

use vstd::set_lib::lemma_len_subset;
use vstd::set_lib::lemma_set_intersect_union_lens;

use crate::raft::merged_log;
use crate::raft::match_prefix_len;
use crate::raft::lemma_match_prefix_len_bounds;
use crate::raft::LogEntry;
use crate::raft::RaftNode;
use crate::raft::StateMachine;

verus! {

/// Two strict majorities of one membership share a node.
pub proof fn lemma_quorums_intersect(members: Set<u64>, q1: Set<u64>, q2: Set<u64>)
    requires
        members.finite(),
        q1.subset_of(members),
        q2.subset_of(members),
        2 * q1.len() > members.len(),
        2 * q2.len() > members.len(),
    ensures
        exists|n: u64| q1.contains(n) && q2.contains(n),
{
    lemma_len_subset(q1, members);
    lemma_len_subset(q2, members);
    lemma_len_subset(q1 + q2, members);
    lemma_set_intersect_union_lens(q1, q2);
    assert(q1.intersect(q2).len() > 0);
    assert(exists|n: u64| q1.intersect(q2).contains(n)) by {
        assert(!(q1.intersect(q2) =~= Set::<u64>::empty()));
    }
    let n = choose|n: u64| q1.intersect(q2).contains(n);
    assert(q1.contains(n) && q2.contains(n));
}

/// Election safety: within one term, at most one node can assemble a
/// majority of votes, because each node records at most one vote for the
/// term (`votes` maps a voter to the single candidate its `votedFor` names,
/// as `handle_request_vote` ensures) and any two majorities share a voter.
pub proof fn lemma_election_safety(
    members: Set<u64>,
    votes: Map<u64, u64>,
    leader1: u64,
    leader2: u64,
    q1: Set<u64>,
    q2: Set<u64>,
)
    requires
        members.finite(),
        q1.subset_of(members),
        q2.subset_of(members),
        2 * q1.len() > members.len(),
        2 * q2.len() > members.len(),
        forall|n: u64| q1.contains(n) ==> votes.dom().contains(n) && votes[n] == leader1,
        forall|n: u64| q2.contains(n) ==> votes.dom().contains(n) && votes[n] == leader2,
    ensures
        leader1 == leader2,
{
    lemma_quorums_intersect(members, q1, q2);
    let n = choose|n: u64| q1.contains(n) && q2.contains(n);
    assert(votes[n] == leader1 && votes[n] == leader2);
}

/// One step toward leader completeness: an entry acknowledged by a majority
/// (`ackers`, the nodes whose logs hold it when it commits) meets the
/// majority that elects any later leader (`voters`), so some voter's log
/// held the committed entry — and `handle_request_vote` grants a vote only
/// to a candidate whose log is at least as up to date as that voter's.
pub proof fn lemma_committed_entry_reaches_voter(
    members: Set<u64>,
    ackers: Set<u64>,
    voters: Set<u64>,
)
    requires
        members.finite(),
        ackers.subset_of(members),
        voters.subset_of(members),
        2 * ackers.len() > members.len(),
        2 * voters.len() > members.len(),
    ensures
        exists|n: u64| ackers.contains(n) && voters.contains(n),
{
    lemma_quorums_intersect(members, ackers, voters);
}

/// `a` is an entrywise prefix of `b`.
pub open spec fn is_log_prefix(a: Seq<LogEntry>, b: Seq<LogEntry>) -> bool {
    a.len() <= b.len() && a == b.take(a.len() as int)
}

/// One step of log matching, for the two logs an accepted AppendEntries
/// relates: if the follower's log agreed with the leader's up to the
/// anchoring position, agreement in term meant agreement outright there
/// (the pairwise log-matching relation), and the leader sent its whole
/// suffix, then after the rewrite the leader's log is a prefix of the
/// follower's — and where the follower actually changed its log, the two
/// are equal.
pub proof fn lemma_append_entries_log_matching(
    leader_log: Seq<LogEntry>,
    follower_log: Seq<LogEntry>,
    base: int,
)
    requires
        0 <= base <= follower_log.len(),
        base <= leader_log.len(),
        follower_log.take(base) == leader_log.take(base),
        forall|j: int|
            base <= j < follower_log.len() && j < leader_log.len() && (
            #[trigger] follower_log[j]).term == leader_log[j].term ==> follower_log[j]
                == leader_log[j],
    ensures
        is_log_prefix(leader_log, merged_log(follower_log, base, leader_log.skip(base))),
        match_prefix_len(follower_log, base, leader_log.skip(base)) < leader_log.skip(base).len()
            ==> merged_log(follower_log, base, leader_log.skip(base)) == leader_log,
{
    let entries = leader_log.skip(base);
    let m = entries.len();
    lemma_match_prefix_len_bounds(follower_log, base, entries);
    let k = match_prefix_len(follower_log, base, entries);
    lemma_match_prefix_agrees(follower_log, base, entries, k);
    assert forall|j: int| base <= j < base + k implies (#[trigger] follower_log[j])
        == leader_log[j] by {
        assert(base + (j - base) < follower_log.len() && entries[j - base].term == follower_log[base
            + (j - base)].term);
        assert(entries[j - base] == leader_log[j]);
        assert(follower_log[j].term == leader_log[j].term);
    }
    let merged = merged_log(follower_log, base, entries);
    if k > 0 {
        assert(base + (k - 1) < follower_log.len() && entries[k - 1].term == follower_log[base + (k
            - 1)].term);
    }
    if k == m {
        assert(base + m == leader_log.len());
        assert(merged == follower_log);
        assert(leader_log =~= follower_log.take(leader_log.len() as int)) by {
            assert forall|j: int| 0 <= j < leader_log.len() implies leader_log[j]
                == follower_log[j] by {
                if j < base {
                    assert(follower_log.take(base)[j] == follower_log[j]);
                    assert(leader_log.take(base)[j] == leader_log[j]);
                    assert(follower_log.take(base)[j] == leader_log.take(base)[j]);
                    assert(follower_log[j] == leader_log[j]);
                    assert(leader_log[j] == follower_log[j]);
                } else {
                    assert(base <= j);
                    assert(k == m);
                    assert(base + m == leader_log.len());
                    assert(j < base + k);
                    assert(follower_log[j] == leader_log[j]);
                    assert(leader_log[j] == follower_log[j]);
                }
            }
        }
        assert(leader_log.len() <= merged.len());
        assert(leader_log == merged.take(leader_log.len() as int));
    } else {
        assert(merged == follower_log.take(base + k) + entries.skip(k));
        assert(merged =~= leader_log) by {
            assert forall|j: int| 0 <= j < merged.len() implies merged[j] == leader_log[j] by {
                if j < base {
                    assert(merged[j] == follower_log.take(base + k)[j]);
                    assert(follower_log.take(base)[j] == leader_log.take(base)[j]);
                } else if j < base + k {
                    assert(merged[j] == follower_log[j]);
                    assert(follower_log[j] == leader_log[j]);
                } else {
                    assert(merged[j] == entries.skip(k)[j - base - k]);
                    assert(entries.skip(k)[j - base - k] == entries[j - base]);
                    assert(entries[j - base] == leader_log[j]);
                }
            }
        }
        assert(leader_log.len() <= merged.len());
        assert(merged.take(leader_log.len() as int) =~= leader_log);
    }
}

/// The pointwise agreement behind the agreeing prefix length, rederived
/// here where the safety lemmas need it.
proof fn lemma_match_prefix_agrees(
    log: Seq<LogEntry>,
    base: int,
    entries: Seq<LogEntry>,
    k: int,
)
    requires
        base >= 0,
        k == match_prefix_len(log, base, entries),
    ensures
        forall|j: int|
            0 <= j < k ==> base + j < log.len() && (#[trigger] entries[j]).term == log[base
                + j].term,
    decreases entries.len(),
{
    lemma_match_prefix_len_bounds(log, base, entries);
    if entries.len() > 0 && 0 <= base < log.len() && log[base].term == entries[0].term {
        lemma_match_prefix_agrees(log, base + 1, entries.skip(1), k - 1);
        assert forall|j: int|
            0 <= j < k implies base + j < log.len() && (#[trigger] entries[j]).term == log[base
            + j].term by {
            if j > 0 {
                assert(0 <= j - 1 < k - 1);
                assert(entries.skip(1)[j - 1] == entries[j]);
                assert(base + 1 + (j - 1) < log.len() && entries.skip(1)[j - 1].term == log[base + 1
                    + (j - 1)].term);
            }
        }
    }
}

/// State-machine agreement at one index, given log matching: nodes whose
/// logs stand in the log-matching relation and both hold an entry at one
/// position with one term applied the same command there.
pub proof fn lemma_matching_logs_apply_same_command(
    a: Seq<LogEntry>,
    b: Seq<LogEntry>,
    i: int,
)
    requires
        0 <= i < a.len(),
        0 <= i < b.len(),
        a[i].term == b[i].term,
        forall|j: int|
            0 <= j < a.len() && j < b.len() && (#[trigger] a[j]).term == b[j].term ==> a[j] == b[j],
    ensures
        a[i] == b[i],
        a[i].command == b[i].command,
{
    assert(a[i] == b[i]);
}

/// The catch-up chain after a snapshot install: once a node's commit index
/// sits at its snapshot base — exactly what `handle_install_snapshot` leaves
/// behind — a leader's AppendEntries anchored at that base, carrying a
/// current term, is accepted: the consistency check passes at the base and
/// no rewrite can reach below the commit index.
pub proof fn lemma_snapshot_anchors_append<M: StateMachine>(
    s: RaftNode<M>,
    term: u64,
    entries: Seq<LogEntry>,
)
    requires
        s.inv(),
        s.commit_index == s.snapshot_last_index,
        term >= s.current_term,
    ensures
        s.append_accepted(term, s.snapshot_last_index, s.snapshot_last_term, entries),
{
    lemma_match_prefix_len_bounds(s.log@, 0, entries);
}

} // verus!
