//! The Raft consensus engine for one node: persistent and volatile state,
//! leader election, log replication, commit advancement and snapshot
//! transfer, written as pure transitions from state and event to next state
//! and reply. Timers and the wire live outside; they feed events in and
//! carry the returned argument tuples to the other nodes.

use vstd::prelude::*;

use vstd::pervasive::VecAdditionalExecFns;

verus! {

/// One replicated command at a gapless, 1-based index, tagged with the term
/// it was appended under.
#[derive(Debug)]
pub struct LogEntry {
    pub index: u64,
    pub term: u64,
    pub command: Vec<u8>,
}

/// The three roles a node can hold.
#[derive(Clone, Copy, Debug, PartialEq, Eq, Structural)]
pub enum Role {
    Follower,
    Candidate,
    Leader,
}

/// What a node tracks about one peer: its id, the leader-side replication
/// indexes, and whether it granted its vote in the current candidacy.
#[derive(Clone, Copy, Debug, PartialEq, Eq, Structural)]
pub struct Peer {
    pub id: u64,
    pub next_index: u64,
    pub match_index: u64,
    pub vote_granted: bool,
}

/// The application state machine a node drives: committed commands are
/// applied in index order, and snapshots move its whole state at once. The
/// spec methods are the machine's model — how one applied command relates
/// the state before to the state after, what bytes a snapshot holds, and
/// what restoring from bytes leaves behind — and the three calls are held to
/// it, so the engine's contracts carry the machine's behaviour through.
pub trait StateMachine: Sized {
    /// How applying `command` at `index` relates the state before to the
    /// state after.
    spec fn apply_post(pre: Self, index: u64, command: Seq<u8>, post: Self) -> bool;

    /// The bytes a snapshot of this state holds.
    spec fn snapshot_of(m: Self) -> Seq<u8>;

    /// What restoring from `data` leaves behind.
    spec fn restore_post(pre: Self, data: Seq<u8>, post: Self) -> bool;

    fn apply(&mut self, index: u64, command: &Vec<u8>) -> (r: Vec<u8>)
        ensures
            Self::apply_post(*old(self), index, command@, *final(self)),
    ;

    fn snapshot(&self) -> (r: Vec<u8>)
        ensures
            r@ == Self::snapshot_of(*self),
    ;

    fn restore(&mut self, data: &Vec<u8>)
        ensures
            Self::restore_post(*old(self), data@, *final(self)),
    ;
}

/// The machine states that applying the log's commands at indices `lo + 1`
/// up to `hi`, in index order, can step through: `post` is reachable from
/// `pre` by exactly those applications.
pub open spec fn applied_in_order<M: StateMachine>(
    pre: M,
    log: Seq<LogEntry>,
    snap: int,
    lo: int,
    hi: int,
    post: M,
) -> bool
    decreases hi - lo,
{
    if lo >= hi {
        post == pre
    } else {
        exists|mid: M|
            applied_in_order(pre, log, snap, lo, hi - 1, mid) && #[trigger] M::apply_post(
                mid,
                hi as u64,
                log[hi - snap - 1].command@,
                post,
            )
    }
}

/// The number of granted votes among the peers.
pub open spec fn count_votes(s: Seq<Peer>) -> int
    decreases s.len(),
{
    if s.len() == 0 {
        0
    } else {
        count_votes(s.drop_last()) + if s.last().vote_granted {
            1int
        } else {
            0int
        }
    }
}

/// The number of peers whose match index has reached `n`.
pub open spec fn count_matching(s: Seq<Peer>, n: u64) -> int
    decreases s.len(),
{
    if s.len() == 0 {
        0
    } else {
        count_matching(s.drop_last(), n) + if s.last().match_index >= n {
            1int
        } else {
            0int
        }
    }
}

/// A strict majority of a cluster of `cluster` nodes.
pub open spec fn is_majority(count: int, cluster: int) -> bool {
    2 * count > cluster
}

/// How far `entries` agrees in term with `log` when laid over it starting at
/// position `base`: the length of the longest agreeing prefix.
pub open spec fn match_prefix_len(log: Seq<LogEntry>, base: int, entries: Seq<LogEntry>) -> int
    decreases entries.len(),
{
    if entries.len() == 0 {
        0
    } else if 0 <= base < log.len() && log[base].term == entries[0].term {
        1 + match_prefix_len(log, base + 1, entries.skip(1))
    } else {
        0
    }
}

/// The log after the append-entries rewrite: entries already present are
/// kept as they are; at the first conflict the tail is deleted and the rest
/// of `entries` appended.
pub open spec fn merged_log(log: Seq<LogEntry>, base: int, entries: Seq<LogEntry>) -> Seq<
    LogEntry,
> {
    let k = match_prefix_len(log, base, entries);
    if k == entries.len() {
        log
    } else {
        log.take(base + k) + entries.skip(k)
    }
}

/// The agreeing prefix length lies within both sequences.
pub proof fn lemma_match_prefix_len_bounds(log: Seq<LogEntry>, base: int, entries: Seq<LogEntry>)
    requires
        base >= 0,
    ensures
        0 <= match_prefix_len(log, base, entries) <= entries.len(),
        match_prefix_len(log, base, entries) == 0 || base + match_prefix_len(log, base, entries)
            <= log.len(),
    decreases entries.len(),
{
    if entries.len() > 0 && 0 <= base < log.len() && log[base].term == entries[0].term {
        lemma_match_prefix_len_bounds(log, base + 1, entries.skip(1));
    }
}

/// Some peer in `s` has id `id`.
pub open spec fn has_peer(s: Seq<Peer>, id: u64) -> bool {
    exists|i: int| 0 <= i < s.len() && (#[trigger] s[i]).id == id
}

/// The position of the peer with id `id` in `s`.
pub open spec fn peer_index(s: Seq<Peer>, id: u64) -> int {
    choose|i: int| 0 <= i < s.len() && (#[trigger] s[i]).id == id
}

/// One node's Raft state, over the application state machine `M`.
pub struct RaftNode<M> {
    pub id: u64,
    pub peers: Vec<Peer>,
    pub role: Role,
    pub current_term: u64,
    pub voted_for: Option<u64>,
    pub log: Vec<LogEntry>,
    pub commit_index: u64,
    pub last_applied: u64,
    pub snapshot_last_index: u64,
    pub snapshot_last_term: u64,
    pub snapshot_data: Vec<u8>,
    pub pending_snapshot: Vec<u8>,
    pub machine: M,
}

impl<M: StateMachine> RaftNode<M> {
    /// The index of the last entry the node stores, counting the snapshot.
    pub open spec fn last_log_index(&self) -> int {
        self.snapshot_last_index + self.log@.len()
    }

    /// The term of the entry at index `i` (the snapshot base included).
    pub open spec fn term_at(&self, i: int) -> u64
        recommends
            self.snapshot_last_index <= i <= self.last_log_index(),
    {
        if i == self.snapshot_last_index {
            self.snapshot_last_term
        } else {
            self.log@[i - self.snapshot_last_index - 1].term
        }
    }

    pub open spec fn last_log_term(&self) -> u64 {
        self.term_at(self.last_log_index())
    }

    /// The size of the whole cluster, this node included.
    pub open spec fn cluster_size(&self) -> int {
        1 + self.peers@.len() as int
    }

    /// The node's well-formedness: a gapless log rooted at the snapshot, the
    /// applied/commit bounds, distinct peers, and the machine limits the
    /// index arithmetic needs.
    pub open spec fn inv(&self) -> bool {
        &&& self.snapshot_last_index + self.log@.len() <= u64::MAX
        &&& forall|i: int|
            0 <= i < self.log@.len() ==> (#[trigger] self.log@[i]).index
                == self.snapshot_last_index + 1 + i
        &&& self.snapshot_last_index <= self.last_applied
        &&& self.last_applied <= self.commit_index
        &&& self.commit_index <= self.last_log_index()
        &&& forall|i: int, j: int|
            0 <= i < j < self.peers@.len() ==> (#[trigger] self.peers@[i]).id != (
            #[trigger] self.peers@[j]).id
        &&& forall|i: int| 0 <= i < self.peers@.len() ==> (#[trigger] self.peers@[i]).id != self.id
        &&& forall|i: int|
            0 <= i < self.peers@.len() ==> (#[trigger] self.peers@[i]).match_index < u64::MAX
        &&& self.peers@.len() < 0x8000_0000
    }

    /// A fresh follower with an empty log, a zero snapshot base, and one
    /// peer record per other cluster member.
    pub fn new(id: u64, peer_ids: Vec<u64>, machine: M) -> (r: RaftNode<M>)
        requires
            forall|i: int, j: int|
                0 <= i < j < peer_ids@.len() ==> peer_ids@[i] != peer_ids@[j],
            forall|i: int| 0 <= i < peer_ids@.len() ==> peer_ids@[i] != id,
            peer_ids@.len() < 0x8000_0000,
        ensures
            r.inv(),
            r.id == id,
            r.role == Role::Follower,
            r.current_term == 0,
            r.voted_for is None,
            r.log@.len() == 0,
            r.commit_index == 0,
            r.last_applied == 0,
            r.snapshot_last_index == 0,
            r.snapshot_last_term == 0,
            r.machine == machine,
            r.peers@.len() == peer_ids@.len(),
            forall|i: int|
                0 <= i < peer_ids@.len() ==> (#[trigger] r.peers@[i]).id == peer_ids@[i],
    {
        let n = peer_ids.len();
        let mut peers: Vec<Peer> = Vec::new();
        let mut i: usize = 0;
        while i < n
            invariant
                n == peer_ids@.len(),
                i <= n,
                peers@.len() == i,
                forall|j: int|
                    0 <= j < i ==> (#[trigger] peers@[j]) == (Peer {
                        id: peer_ids@[j],
                        next_index: 1u64,
                        match_index: 0u64,
                        vote_granted: false,
                    }),
            decreases n - i,
        {
            peers.push(Peer { id: peer_ids[i], next_index: 1, match_index: 0, vote_granted: false });
            i = i + 1;
        }
        RaftNode {
            id,
            peers,
            role: Role::Follower,
            current_term: 0,
            voted_for: Option::None,
            log: Vec::new(),
            commit_index: 0,
            last_applied: 0,
            snapshot_last_index: 0,
            snapshot_last_term: 0,
            snapshot_data: Vec::new(),
            pending_snapshot: Vec::new(),
            machine,
        }
    }

    /// A candidate's log is at least as up to date as this node's: a higher
    /// last term wins, a tie goes to the longer log.
    pub open spec fn candidate_up_to_date(&self, last_idx: u64, last_term: u64) -> bool {
        last_term > self.last_log_term() || (last_term == self.last_log_term() && last_idx
            >= self.last_log_index())
    }

    /// Whether this node, in state `self`, grants a RequestVote carrying
    /// these arguments.
    pub open spec fn vote_granted_spec(
        self,
        term: u64,
        candidate_id: u64,
        last_idx: u64,
        last_term: u64,
    ) -> bool {
        &&& term >= self.current_term
        &&& (term > self.current_term || self.voted_for is None || self.voted_for == Some(
            candidate_id,
        ))
        &&& self.candidate_up_to_date(last_idx, last_term)
    }

    /// Serves RequestVote: a stale term is rejected; a higher term is
    /// adopted first (clearing the old vote); the vote is granted iff the
    /// node has not voted for anyone else this term and the candidate's log
    /// is at least as up to date. Granting is a signal to the caller to
    /// reset the election timer.
    pub fn handle_request_vote(
        &mut self,
        term: u64,
        candidate_id: u64,
        last_log_index: u64,
        last_log_term: u64,
    ) -> (r: (u64, bool))
        requires
            old(self).inv(),
        ensures
            final(self).inv(),
            final(self).log@ == old(self).log@,
            final(self).commit_index == old(self).commit_index,
            final(self).last_applied == old(self).last_applied,
            final(self).snapshot_last_index == old(self).snapshot_last_index,
            final(self).snapshot_last_term == old(self).snapshot_last_term,
            final(self).peers@ == old(self).peers@,
            final(self).id == old(self).id,
            final(self).machine == old(self).machine,
            final(self).current_term == (if term > old(self).current_term {
                term
            } else {
                old(self).current_term
            }),
            r.0 == final(self).current_term,
            r.1 == old(self).vote_granted_spec(term, candidate_id, last_log_index, last_log_term),
            final(self).voted_for == (if r.1 {
                Some(candidate_id)
            } else if term > old(self).current_term {
                Option::<u64>::None
            } else {
                old(self).voted_for
            }),
            final(self).role == (if term > old(self).current_term {
                Role::Follower
            } else {
                old(self).role
            }),
    {
        if term > self.current_term {
            self.current_term = term;
            self.voted_for = Option::None;
            self.role = Role::Follower;
        }
        if term < self.current_term {
            return (self.current_term, false);
        }
        let may_vote = match self.voted_for {
            Option::None => true,
            Option::Some(v) => v == candidate_id,
        };
        let my_last_index = self.last_index();
        let my_last_term = self.last_term();
        let up_to_date = last_log_term > my_last_term || (last_log_term == my_last_term
            && last_log_index >= my_last_index);
        if may_vote && up_to_date {
            self.voted_for = Option::Some(candidate_id);
            (self.current_term, true)
        } else {
            (self.current_term, false)
        }
    }

    /// The index of the node's last stored entry, as a value.
    pub fn last_index(&self) -> (r: u64)
        requires
            self.inv(),
        ensures
            r == self.last_log_index(),
    {
        self.snapshot_last_index + (self.log.len() as u64)
    }

    /// The term of the node's last stored entry, as a value.
    pub fn last_term(&self) -> (r: u64)
        requires
            self.inv(),
        ensures
            r == self.last_log_term(),
    {
        let n = self.log.len();
        if n == 0 {
            self.snapshot_last_term
        } else {
            self.log[n - 1].term
        }
    }

    /// Fires the election timeout: the node becomes a candidate for the next
    /// term, votes for itself, forgets stale grants, and hands back the
    /// RequestVote arguments (term, candidate id, last log index, last log
    /// term) to send to every peer. A node with no peers holds the whole
    /// majority and becomes leader at once.
    pub fn on_election_timeout(&mut self) -> (r: (u64, u64, u64, u64))
        requires
            old(self).inv(),
            old(self).current_term < u64::MAX,
        ensures
            final(self).inv(),
            final(self).current_term == old(self).current_term + 1,
            final(self).voted_for == Some(old(self).id),
            final(self).role == (if old(self).peers@.len() == 0 {
                Role::Leader
            } else {
                Role::Candidate
            }),
            final(self).log@ == old(self).log@,
            final(self).commit_index == old(self).commit_index,
            final(self).last_applied == old(self).last_applied,
            final(self).snapshot_last_index == old(self).snapshot_last_index,
            final(self).snapshot_last_term == old(self).snapshot_last_term,
            final(self).id == old(self).id,
            final(self).machine == old(self).machine,
            final(self).peers@.len() == old(self).peers@.len(),
            forall|j: int|
                0 <= j < old(self).peers@.len() ==> (#[trigger] final(self).peers@[j]) == (Peer {
                    vote_granted: false,
                    ..old(self).peers@[j]
                }),
            r == (final(self).current_term, old(self).id, old(self).last_log_index() as u64, old(self).last_log_term()),
    {
        self.current_term = self.current_term + 1;
        self.voted_for = Option::Some(self.id);
        self.role = Role::Candidate;
        let n = self.peers.len();
        let mut i: usize = 0;
        while i < n
            invariant
                n == self.peers@.len(),
                i <= n,
                forall|j: int|
                    0 <= j < i ==> (#[trigger] self.peers@[j]) == (Peer {
                        vote_granted: false,
                        ..old(self).peers@[j]
                    }),
                forall|j: int| i <= j < n ==> (#[trigger] self.peers@[j]) == old(self).peers@[j],
                self.id == old(self).id,
                self.role == Role::Candidate,
                self.current_term == old(self).current_term + 1,
                self.voted_for == Some(old(self).id),
                self.log@ == old(self).log@,
                self.commit_index == old(self).commit_index,
                self.last_applied == old(self).last_applied,
                self.snapshot_last_index == old(self).snapshot_last_index,
                self.snapshot_last_term == old(self).snapshot_last_term,
                self.machine == old(self).machine,
            decreases n - i,
        {
            let mut p = self.peers[i];
            p.vote_granted = false;
            self.peers.set(i, p);
            i = i + 1;
        }
        if n == 0 {
            self.role = Role::Leader;
        }
        let last_idx = self.last_index();
        let last_tm = self.last_term();
        (self.current_term, self.id, last_idx, last_tm)
    }

    /// The number of peers that granted their vote.
    fn count_granted(&self) -> (r: usize)
        ensures
            r as int == count_votes(self.peers@),
            r <= self.peers@.len(),
    {
        let n = self.peers.len();
        let mut c: usize = 0;
        let mut i: usize = 0;
        while i < n
            invariant
                n == self.peers@.len(),
                i <= n,
                c as int == count_votes(self.peers@.take(i as int)),
                c <= i,
            decreases n - i,
        {
            proof {
                assert(self.peers@.take(i + 1).drop_last() =~= self.peers@.take(i as int));
                assert(self.peers@.take(i + 1).last() == self.peers@[i as int]);
            }
            if self.peers[i].vote_granted {
                c = c + 1;
            }
            i = i + 1;
        }
        proof {
            assert(self.peers@.take(n as int) =~= self.peers@);
        }
        c
    }

    /// The number of peers whose replicated log is known to reach `n`.
    fn count_match_reached(&self, n: u64) -> (r: usize)
        ensures
            r as int == count_matching(self.peers@, n),
            r <= self.peers@.len(),
    {
        let m = self.peers.len();
        let mut c: usize = 0;
        let mut i: usize = 0;
        while i < m
            invariant
                m == self.peers@.len(),
                i <= m,
                c as int == count_matching(self.peers@.take(i as int), n),
                c <= i,
            decreases m - i,
        {
            proof {
                assert(self.peers@.take(i + 1).drop_last() =~= self.peers@.take(i as int));
                assert(self.peers@.take(i + 1).last() == self.peers@[i as int]);
            }
            if self.peers[i].match_index >= n {
                c = c + 1;
            }
            i = i + 1;
        }
        proof {
            assert(self.peers@.take(m as int) =~= self.peers@);
        }
        c
    }
    /// Makes this node leader: every peer's next index starts just past the
    /// leader's log and its match index at zero.
    fn become_leader(&mut self)
        requires
            old(self).inv(),
            old(self).last_log_index() < u64::MAX,
        ensures
            final(self).inv(),
            final(self).role == Role::Leader,
            final(self).current_term == old(self).current_term,
            final(self).voted_for == old(self).voted_for,
            final(self).log@ == old(self).log@,
            final(self).commit_index == old(self).commit_index,
            final(self).last_applied == old(self).last_applied,
            final(self).snapshot_last_index == old(self).snapshot_last_index,
            final(self).snapshot_last_term == old(self).snapshot_last_term,
            final(self).id == old(self).id,
            final(self).machine == old(self).machine,
            final(self).peers@.len() == old(self).peers@.len(),
            forall|j: int|
                0 <= j < old(self).peers@.len() ==> (#[trigger] final(self).peers@[j]) == (Peer {
                    next_index: (old(self).last_log_index() + 1) as u64,
                    match_index: 0,
                    ..old(self).peers@[j]
                }),
    {
        self.role = Role::Leader;
        let next = self.last_index() + 1;
        let n = self.peers.len();
        let mut i: usize = 0;
        while i < n
            invariant
                n == self.peers@.len(),
                i <= n,
                next == old(self).last_log_index() + 1,
                forall|j: int|
                    0 <= j < i ==> (#[trigger] self.peers@[j]) == (Peer {
                        next_index: next,
                        match_index: 0,
                        ..old(self).peers@[j]
                    }),
                forall|j: int| i <= j < n ==> (#[trigger] self.peers@[j]) == old(self).peers@[j],
                self.role == Role::Leader,
                self.id == old(self).id,
                self.current_term == old(self).current_term,
                self.voted_for == old(self).voted_for,
                self.log@ == old(self).log@,
                self.commit_index == old(self).commit_index,
                self.last_applied == old(self).last_applied,
                self.snapshot_last_index == old(self).snapshot_last_index,
                self.snapshot_last_term == old(self).snapshot_last_term,
                self.machine == old(self).machine,
            decreases n - i,
        {
            let mut p = self.peers[i];
            p.next_index = next;
            p.match_index = 0;
            self.peers.set(i, p);
            i = i + 1;
        }
    }

    /// Counts a vote reply. A reply carrying a higher term forces a step
    /// down. A grant from a peer, received while still a candidate in the
    /// same term, is recorded; when the grants and the node's own vote reach
    /// a strict majority the node becomes leader, and the call reports it.
    pub fn handle_vote_reply(&mut self, from: u64, term: u64, granted: bool) -> (r: bool)
        requires
            old(self).inv(),
            old(self).last_log_index() < u64::MAX,
        ensures
            final(self).inv(),
            final(self).log@ == old(self).log@,
            final(self).commit_index == old(self).commit_index,
            final(self).last_applied == old(self).last_applied,
            final(self).snapshot_last_index == old(self).snapshot_last_index,
            final(self).snapshot_last_term == old(self).snapshot_last_term,
            final(self).id == old(self).id,
            final(self).machine == old(self).machine,
            if term > old(self).current_term {
                r == false && final(self).current_term == term && final(self).role
                    == Role::Follower && final(self).voted_for is None && final(self).peers@ == old(self).peers@
            } else if old(self).role == Role::Candidate && term == old(self).current_term && granted
                && has_peer(old(self).peers@, from) {
                let i = peer_index(old(self).peers@, from);
                let up = old(self).peers@.update(i, (Peer { vote_granted: true, ..old(self).peers@[i] }));
                &&& final(self).current_term == old(self).current_term
                &&& final(self).voted_for == old(self).voted_for
                &&& r == is_majority(1 + count_votes(up), old(self).cluster_size())
                &&& if r {
                    final(self).role == Role::Leader && final(self).peers@.len() == up.len()
                        && (forall|j: int|
                        0 <= j < up.len() ==> (#[trigger] final(self).peers@[j]) == (Peer {
                            next_index: (old(self).last_log_index() + 1) as u64,
                            match_index: 0,
                            ..up[j]
                        }))
                } else {
                    final(self).role == old(self).role && final(self).peers@ == up
                }
            } else {
                r == false && final(self).current_term == old(self).current_term && final(self).voted_for == old(self).voted_for && final(self).role == old(self).role && final(self).peers@ == old(self).peers@
            },
    {
        if term > self.current_term {
            self.current_term = term;
            self.voted_for = Option::None;
            self.role = Role::Follower;
            return false;
        }
        let is_candidate = match self.role {
            Role::Candidate => true,
            _ => false,
        };
        if !is_candidate || term != self.current_term || !granted {
            return false;
        }
        let n = self.peers.len();
        let mut i: usize = 0;
        while i < n
            invariant
                old(self).inv(),
                old(self).last_log_index() < u64::MAX,
                old(self).role == Role::Candidate,
                term == old(self).current_term,
                granted,
                n == self.peers@.len(),
                i <= n,
                forall|j: int| 0 <= j < i ==> (#[trigger] self.peers@[j]).id != from,
                *self == *old(self),
            decreases n - i,
        {
            if self.peers[i].id == from {
                proof {
                    assert(old(self).peers@[i as int].id == from);
                    assert(has_peer(old(self).peers@, from));
                    let pi = peer_index(old(self).peers@, from);
                    assert(0 <= pi < old(self).peers@.len() && old(self).peers@[pi].id == from);
                    if pi != i as int {
                        assert(old(self).peers@[pi].id != old(self).peers@[i as int].id);
                        assert(false);
                    }
                }
                let mut p = self.peers[i];
                p.vote_granted = true;
                self.peers.set(i, p);
                proof {
                    assert(self.peers@ =~= old(self).peers@.update(
                        i as int,
                        (Peer { vote_granted: true, ..old(self).peers@[i as int] }),
                    ));
                }
                let votes = self.count_granted();
                let cluster: u64 = 1 + (n as u64);
                if 2 * ((votes as u64) + 1) > cluster {
                    self.become_leader();
                    return true;
                }
                return false;
            }
            i = i + 1;
        }
        proof {
            if has_peer(old(self).peers@, from) {
                let pi = peer_index(old(self).peers@, from);
                assert(0 <= pi < n && old(self).peers@[pi].id == from);
            }
        }
        false
    }

    /// Accepts a client command. Only a leader appends: the command becomes
    /// the next entry of its log, tagged with the current term, and its
    /// index is handed back; any other role refuses.
    pub fn propose(&mut self, command: Vec<u8>) -> (r: Option<u64>)
        requires
            old(self).inv(),
            old(self).last_log_index() < u64::MAX,
        ensures
            final(self).inv(),
            final(self).current_term == old(self).current_term,
            final(self).voted_for == old(self).voted_for,
            final(self).role == old(self).role,
            final(self).commit_index == old(self).commit_index,
            final(self).last_applied == old(self).last_applied,
            final(self).snapshot_last_index == old(self).snapshot_last_index,
            final(self).snapshot_last_term == old(self).snapshot_last_term,
            final(self).peers@ == old(self).peers@,
            final(self).id == old(self).id,
            final(self).machine == old(self).machine,
            if old(self).role == Role::Leader {
                r == Some((old(self).last_log_index() + 1) as u64) && final(self).log@ == old(self).log@.push(
                    (LogEntry {
                        index: (old(self).last_log_index() + 1) as u64,
                        term: old(self).current_term,
                        command: command,
                    }),
                )
            } else {
                r is None && final(self).log@ == old(self).log@
            },
    {
        let is_leader = match self.role {
            Role::Leader => true,
            _ => false,
        };
        if !is_leader {
            return Option::None;
        }
        let idx = self.last_index() + 1;
        self.log.push(LogEntry { index: idx, term: self.current_term, command });
        Option::Some(idx)
    }

    /// Digests a peer's reply to AppendEntries. A higher term forces a step
    /// down. While leading in the reply's term: success moves the peer's
    /// match index up to the last index sent (never down) and its next index
    /// just past it; failure backs the next index off by one, to retry
    /// earlier in the log.
    pub fn on_append_reply(&mut self, from: u64, term: u64, success: bool, last_index_sent: u64)
        requires
            old(self).inv(),
            last_index_sent < u64::MAX,
        ensures
            final(self).inv(),
            final(self).log@ == old(self).log@,
            final(self).commit_index == old(self).commit_index,
            final(self).last_applied == old(self).last_applied,
            final(self).snapshot_last_index == old(self).snapshot_last_index,
            final(self).snapshot_last_term == old(self).snapshot_last_term,
            final(self).id == old(self).id,
            final(self).machine == old(self).machine,
            if term > old(self).current_term {
                final(self).current_term == term && final(self).role == Role::Follower && final(self).voted_for is None && final(self).peers@ == old(self).peers@
            } else if old(self).role == Role::Leader && term == old(self).current_term && has_peer(
                old(self).peers@,
                from,
            ) {
                let i = peer_index(old(self).peers@, from);
                let p = old(self).peers@[i];
                &&& final(self).current_term == old(self).current_term
                &&& final(self).voted_for == old(self).voted_for
                &&& final(self).role == old(self).role
                &&& final(self).peers@ == old(self).peers@.update(
                    i,
                    (if success {
                        let m = if p.match_index >= last_index_sent {
                            p.match_index
                        } else {
                            last_index_sent
                        };
                        Peer { next_index: (m + 1) as u64, match_index: m, ..p }
                    } else {
                        Peer {
                            next_index: if p.next_index > 1 {
                                (p.next_index - 1) as u64
                            } else {
                                1
                            },
                            ..p
                        }
                    }),
                )
            } else {
                final(self).current_term == old(self).current_term && final(self).voted_for == old(self).voted_for && final(self).role == old(self).role && final(self).peers@ == old(self).peers@
            },
    {
        if term > self.current_term {
            self.current_term = term;
            self.voted_for = Option::None;
            self.role = Role::Follower;
            return ;
        }
        let is_leader = match self.role {
            Role::Leader => true,
            _ => false,
        };
        if !is_leader || term != self.current_term {
            return ;
        }
        let n = self.peers.len();
        let mut i: usize = 0;
        while i < n
            invariant
                old(self).inv(),
                last_index_sent < u64::MAX,
                old(self).role == Role::Leader,
                term == old(self).current_term,
                n == self.peers@.len(),
                i <= n,
                forall|j: int| 0 <= j < i ==> (#[trigger] self.peers@[j]).id != from,
                *self == *old(self),
            decreases n - i,
        {
            if self.peers[i].id == from {
                proof {
                    assert(old(self).peers@[i as int].id == from);
                    assert(has_peer(old(self).peers@, from));
                    let pi = peer_index(old(self).peers@, from);
                    assert(0 <= pi < old(self).peers@.len() && old(self).peers@[pi].id == from);
                    if pi != i as int {
                        assert(old(self).peers@[pi].id != old(self).peers@[i as int].id);
                        assert(false);
                    }
                }
                let mut p = self.peers[i];
                if success {
                    let m = if p.match_index >= last_index_sent {
                        p.match_index
                    } else {
                        last_index_sent
                    };
                    p.match_index = m;
                    p.next_index = m + 1;
                } else {
                    if p.next_index > 1 {
                        p.next_index = p.next_index - 1;
                    } else {
                        p.next_index = 1;
                    }
                }
                self.peers.set(i, p);
                return ;
            }
            i = i + 1;
        }
        proof {
            if has_peer(old(self).peers@, from) {
                let pi = peer_index(old(self).peers@, from);
                assert(0 <= pi < n && old(self).peers@[pi].id == from);
            }
        }
    }
    /// Whether AppendEntries with these arguments is accepted in state
    /// `self`: the term is current, the log holds the entry at
    /// `prev` with term `prev_term`, and the rewrite would not delete a
    /// committed entry.
    pub open spec fn append_accepted(
        self,
        term: u64,
        prev: u64,
        prev_term: u64,
        entries: Seq<LogEntry>,
    ) -> bool {
        let k = match_prefix_len(self.log@, prev - self.snapshot_last_index, entries);
        &&& term >= self.current_term
        &&& self.snapshot_last_index <= prev <= self.last_log_index()
        &&& self.term_at(prev as int) == prev_term
        &&& (k == entries.len() || prev + k >= self.commit_index)
    }

    /// The commit index after accepting AppendEntries: the smaller of the
    /// leader's commit index and the last new entry's index, but never
    /// moving backwards.
    pub open spec fn append_commit(self, prev: u64, m: int, leader_commit: u64) -> int {
        let c: int = if leader_commit <= prev + m {
            leader_commit as int
        } else {
            prev + m
        };
        if c > self.commit_index {
            c
        } else {
            self.commit_index as int
        }
    }

    /// Serves AppendEntries. A stale term is rejected; otherwise the sender
    /// is the leader of the (possibly adopted) term, so the node reverts to
    /// follower and the caller resets the election timer. The call fails if
    /// the log has no entry at `prev_log_index` with `prev_log_term`, or if
    /// the rewrite would delete a committed entry. On success entries
    /// already present are kept, a conflicting tail is deleted, the rest of
    /// `entries` is appended, the commit index advances to the leader's
    /// (capped at the last new entry, never backwards), and every newly
    /// committed entry is applied in index order before the reply.
    pub fn handle_append_entries(
        &mut self,
        term: u64,
        leader_id: u64,
        prev_log_index: u64,
        prev_log_term: u64,
        entries: Vec<LogEntry>,
        leader_commit: u64,
    ) -> (r: (u64, bool))
        requires
            old(self).inv(),
            forall|j: int|
                0 <= j < entries@.len() ==> (#[trigger] entries@[j]).index == prev_log_index + 1
                    + j,
            prev_log_index + entries@.len() <= u64::MAX,
        ensures
            final(self).inv(),
            final(self).current_term == (if term > old(self).current_term {
                term
            } else {
                old(self).current_term
            }),
            r.0 == final(self).current_term,
            r.1 == old(self).append_accepted(term, prev_log_index, prev_log_term, entries@),
            final(self).commit_index >= old(self).commit_index,
            final(self).snapshot_last_index == old(self).snapshot_last_index,
            final(self).snapshot_last_term == old(self).snapshot_last_term,
            final(self).peers@ == old(self).peers@,
            final(self).id == old(self).id,
            final(self).voted_for == (if term > old(self).current_term {
                Option::<u64>::None
            } else {
                old(self).voted_for
            }),
            final(self).role == (if term >= old(self).current_term {
                Role::Follower
            } else {
                old(self).role
            }),
            r.1 ==> final(self).log@ == merged_log(
                old(self).log@,
                prev_log_index - old(self).snapshot_last_index,
                entries@,
            ) && final(self).commit_index == old(self).append_commit(
                prev_log_index,
                entries@.len() as int,
                leader_commit,
            ) && final(self).last_applied == final(self).commit_index && applied_in_order(
                old(self).machine,
                final(self).log@,
                old(self).snapshot_last_index as int,
                old(self).last_applied as int,
                final(self).commit_index as int,
                final(self).machine,
            ),
            !r.1 ==> final(self).log@ == old(self).log@ && final(self).commit_index == old(self).commit_index && final(self).last_applied == old(self).last_applied && final(self).machine
                == old(self).machine,
    {
        if term > self.current_term {
            self.current_term = term;
            self.voted_for = Option::None;
            self.role = Role::Follower;
        }
        if term < self.current_term {
            return (self.current_term, false);
        }
        self.role = Role::Follower;
        let snap = self.snapshot_last_index;
        let last = self.last_index();
        if prev_log_index < snap || prev_log_index > last {
            return (self.current_term, false);
        }
        let prev_ok = if prev_log_index == snap {
            self.snapshot_last_term == prev_log_term
        } else {
            let nn = self.log.len();
            let pos = prev_log_index - snap - 1;
            proof {
                assert(pos < nn as u64);
            }
            self.log[pos as usize].term == prev_log_term
        };
        if !prev_ok {
            return (self.current_term, false);
        }
        let base = prev_log_index - snap;
        let m = entries.len();
        let n = self.log.len();
        let ghost s0 = *self;
        let mut k: usize = 0;
        proof {
            assert(entries@.skip(0) =~= entries@);
        }
        while k < m && base + (k as u64) < (n as u64) && self.log[(base + (k as u64)) as usize].term
            == entries[k].term
            invariant
                *self == s0,
                s0.inv(),
                n == self.log@.len(),
                m == entries@.len(),
                base == prev_log_index - s0.snapshot_last_index,
                base <= n,
                prev_log_index + m <= u64::MAX,
                prev_log_index >= s0.snapshot_last_index,
                k <= m,
                match_prefix_len(self.log@, base as int, entries@) == k + match_prefix_len(
                    self.log@,
                    base + k,
                    entries@.skip(k as int),
                ),
            decreases m - k,
        {
            proof {
                assert(entries@.skip(k as int)[0] == entries@[k as int]);
                assert(entries@.skip(k as int).skip(1) =~= entries@.skip(k + 1));
                assert(match_prefix_len(self.log@, base + k, entries@.skip(k as int)) == 1
                    + match_prefix_len(self.log@, base + k + 1, entries@.skip(k + 1)));
            }
            k = k + 1;
        }
        proof {
            if k < m {
                assert(entries@.skip(k as int)[0] == entries@[k as int]);
                assert(match_prefix_len(self.log@, base + k, entries@.skip(k as int)) == 0);
            } else {
                assert(entries@.skip(k as int).len() == 0);
                assert(match_prefix_len(self.log@, base + k, entries@.skip(k as int)) == 0);
            }
            assert(match_prefix_len(self.log@, base as int, entries@) == k);
            lemma_match_prefix_len_bounds(self.log@, base as int, entries@);
        }
        if k < m {
            if prev_log_index + (k as u64) < self.commit_index {
                return (self.current_term, false);
            }
            let cut = base + (k as u64);
            self.log.truncate(cut as usize);
            let mut moved = entries;
            let mut rest = moved.split_off(k);
            self.log.append(&mut rest);
            proof {
                assert(self.log@ =~= merged_log(s0.log@, base as int, entries@));
                assert(self.log@.len() == base + m);
            }
        } else {
            proof {
                assert(self.log@ =~= merged_log(s0.log@, base as int, entries@));
            }
        }
        let last_new = prev_log_index + (m as u64);
        let c = if leader_commit < last_new {
            leader_commit
        } else {
            last_new
        };
        if c > self.commit_index {
            self.commit_index = c;
        }
        self.apply_committed();
        (self.current_term, true)
    }

    /// Applies every committed, not yet applied entry to the state machine,
    /// in index order: the machine steps from its old state to its new one
    /// through exactly those commands.
    pub fn apply_committed(&mut self)
        requires
            old(self).inv(),
        ensures
            final(self).inv(),
            final(self).last_applied == final(self).commit_index,
            final(self).log@ == old(self).log@,
            final(self).commit_index == old(self).commit_index,
            final(self).current_term == old(self).current_term,
            final(self).voted_for == old(self).voted_for,
            final(self).role == old(self).role,
            final(self).snapshot_last_index == old(self).snapshot_last_index,
            final(self).snapshot_last_term == old(self).snapshot_last_term,
            final(self).peers@ == old(self).peers@,
            final(self).id == old(self).id,
            applied_in_order(
                old(self).machine,
                old(self).log@,
                old(self).snapshot_last_index as int,
                old(self).last_applied as int,
                old(self).commit_index as int,
                final(self).machine,
            ),
    {
        let snap = self.snapshot_last_index;
        let nn = self.log.len();
        while self.last_applied < self.commit_index
            invariant
                self.inv(),
                snap == self.snapshot_last_index,
                nn == self.log@.len(),
                self.log@ == old(self).log@,
                self.commit_index == old(self).commit_index,
                self.current_term == old(self).current_term,
                self.voted_for == old(self).voted_for,
                self.role == old(self).role,
                self.snapshot_last_index == old(self).snapshot_last_index,
                self.snapshot_last_term == old(self).snapshot_last_term,
                self.peers@ == old(self).peers@,
                self.id == old(self).id,
                old(self).last_applied <= self.last_applied,
                applied_in_order(
                    old(self).machine,
                    old(self).log@,
                    snap as int,
                    old(self).last_applied as int,
                    self.last_applied as int,
                    self.machine,
                ),
            decreases self.commit_index - self.last_applied,
        {
            let idx = self.last_applied + 1;
            proof {
                assert(idx - snap - 1 < nn as u64);
            }
            let pos = (idx - snap - 1) as usize;
            let ghost mid = self.machine;
            self.machine.apply(idx, &self.log[pos].command);
            self.last_applied = idx;
            proof {
                assert(applied_in_order(
                    old(self).machine,
                    old(self).log@,
                    snap as int,
                    old(self).last_applied as int,
                    idx - 1,
                    mid,
                ) && M::apply_post(mid, idx, old(self).log@[idx - snap - 1].command@, self.machine));
            }
        }
    }
    /// Index `n` may become the leader's commit index: it is stored, not yet
    /// committed, carries the current term, and a majority of the cluster
    /// (the leader itself included) holds it.
    pub open spec fn committable(self, n: u64) -> bool {
        &&& self.commit_index < n <= self.last_log_index()
        &&& self.term_at(n as int) == self.current_term
        &&& is_majority(1 + count_matching(self.peers@, n), self.cluster_size())
    }

    /// Advances the leader's commit index to the highest committable index:
    /// one stored by a majority whose entry carries the current term — the
    /// restriction that keeps entries of prior terms from being committed
    /// directly. The commit index never moves backwards.
    pub fn leader_advance_commit(&mut self)
        requires
            old(self).inv(),
            old(self).role == Role::Leader,
        ensures
            final(self).inv(),
            final(self).log@ == old(self).log@,
            final(self).current_term == old(self).current_term,
            final(self).voted_for == old(self).voted_for,
            final(self).role == old(self).role,
            final(self).last_applied == old(self).last_applied,
            final(self).snapshot_last_index == old(self).snapshot_last_index,
            final(self).snapshot_last_term == old(self).snapshot_last_term,
            final(self).peers@ == old(self).peers@,
            final(self).id == old(self).id,
            final(self).machine == old(self).machine,
            final(self).commit_index >= old(self).commit_index,
            final(self).commit_index > old(self).commit_index ==> old(self).committable(
                final(self).commit_index,
            ),
            forall|n: u64| old(self).committable(n) ==> n <= final(self).commit_index,
    {
        let last = self.last_index();
        let nn = self.log.len();
        let ghost g = *old(self);
        let mut n = self.commit_index;
        while n < last
            invariant
                g.inv(),
                self.log@ == g.log@,
                self.current_term == g.current_term,
                self.voted_for == g.voted_for,
                self.role == g.role,
                self.last_applied == g.last_applied,
                self.snapshot_last_index == g.snapshot_last_index,
                self.snapshot_last_term == g.snapshot_last_term,
                self.peers@ == g.peers@,
                self.id == g.id,
                self.machine == g.machine,
                self.pending_snapshot == g.pending_snapshot,
                self.snapshot_data == g.snapshot_data,
                last == g.last_log_index(),
                nn == self.log@.len(),
                g.commit_index <= n <= last,
                self.commit_index >= g.commit_index,
                self.commit_index > g.commit_index ==> g.committable(self.commit_index),
                self.commit_index <= last,
                forall|v: u64| g.committable(v) && v <= n ==> v <= self.commit_index,
            decreases last - n,
        {
            n = n + 1;
            proof {
                assert(n - self.snapshot_last_index - 1 < nn as u64);
            }
            let pos = (n - self.snapshot_last_index - 1) as usize;
            if self.log[pos].term == self.current_term {
                let c = self.count_match_reached(n);
                let cluster: u64 = 1 + (self.peers.len() as u64);
                if 2 * ((c as u64) + 1) > cluster {
                    if n > self.commit_index {
                        self.commit_index = n;
                    }
                }
            }
            proof {
                if g.committable(n) {
                    assert(self.commit_index >= n);
                }
            }
        }
    }

    /// A private copy of a byte vector.
    fn copy_bytes(v: &Vec<u8>) -> (r: Vec<u8>)
        ensures
            r@ == v@,
    {
        let n = v.len();
        let mut r: Vec<u8> = Vec::new();
        let mut i: usize = 0;
        while i < n
            invariant
                n == v@.len(),
                i <= n,
                r@ == v@.take(i as int),
            decreases n - i,
        {
            r.push(v[i]);
            i = i + 1;
            proof {
                assert(v@.take(i - 1).push(v@[i - 1]) =~= v@.take(i as int));
            }
        }
        proof {
            assert(v@.take(n as int) =~= v@);
        }
        r
    }

    /// Whether replicating to the peer takes a snapshot: its next index
    /// points at or before the leader's earliest retained entry.
    pub fn needs_snapshot(&self, from: u64) -> (r: bool)
        requires
            self.inv(),
        ensures
            r == (has_peer(self.peers@, from) && self.peers@[peer_index(self.peers@, from)].next_index
                <= self.snapshot_last_index),
    {
        let n = self.peers.len();
        let mut i: usize = 0;
        while i < n
            invariant
                self.inv(),
                n == self.peers@.len(),
                i <= n,
                forall|j: int| 0 <= j < i ==> (#[trigger] self.peers@[j]).id != from,
            decreases n - i,
        {
            if self.peers[i].id == from {
                proof {
                    assert(self.peers@[i as int].id == from);
                    assert(has_peer(self.peers@, from));
                    let pi = peer_index(self.peers@, from);
                    assert(0 <= pi < self.peers@.len() && self.peers@[pi].id == from);
                    if pi != i as int {
                        assert(self.peers@[pi].id != self.peers@[i as int].id);
                        assert(false);
                    }
                }
                return self.peers[i].next_index <= self.snapshot_last_index;
            }
            i = i + 1;
        }
        proof {
            if has_peer(self.peers@, from) {
                let pi = peer_index(self.peers@, from);
                assert(0 <= pi < self.peers@.len() && self.peers@[pi].id == from);
            }
        }
        false
    }

    /// Builds the AppendEntries arguments for one peer: everything from its
    /// next index on, after the entry at `next - 1` whose term anchors the
    /// consistency check. Yields nothing when the peer is unknown or its
    /// next index lies outside the retained log.
    pub fn append_args_for(&self, from: u64) -> (r: Option<(u64, u64, u64, u64, Vec<LogEntry>, u64)>)
        requires
            self.inv(),
            self.role == Role::Leader,
        ensures
            match r {
                Some(a) => {
                    let next = self.peers@[peer_index(self.peers@, from)].next_index;
                    &&& has_peer(self.peers@, from)
                    &&& self.snapshot_last_index < next <= self.last_log_index() + 1
                    &&& a.0 == self.current_term
                    &&& a.1 == self.id
                    &&& a.2 == next - 1
                    &&& a.3 == self.term_at(next - 1)
                    &&& a.5 == self.commit_index
                    &&& a.4@.len() == self.last_log_index() + 1 - next
                    &&& forall|j: int|
                        0 <= j < a.4@.len() ==> {
                            let e = self.log@[next - self.snapshot_last_index - 1 + j];
                            (#[trigger] a.4@[j]).index == e.index && a.4@[j].term == e.term
                                && a.4@[j].command@ == e.command@
                        }
                    &&& forall|j: int|
                        0 <= j < a.4@.len() ==> (#[trigger] a.4@[j]).index == a.2 + 1 + j
                },
                None => !(has_peer(self.peers@, from) && self.snapshot_last_index
                    < self.peers@[peer_index(self.peers@, from)].next_index
                    <= self.last_log_index() + 1),
            },
    {
        let n = self.peers.len();
        let last = self.last_index();
        let snap = self.snapshot_last_index;
        let mut i: usize = 0;
        while i < n
            invariant
                self.inv(),
                n == self.peers@.len(),
                snap == self.snapshot_last_index,
                last == self.last_log_index(),
                i <= n,
                forall|j: int| 0 <= j < i ==> (#[trigger] self.peers@[j]).id != from,
            decreases n - i,
        {
            if self.peers[i].id == from {
                proof {
                    assert(self.peers@[i as int].id == from);
                    assert(has_peer(self.peers@, from));
                    let pi = peer_index(self.peers@, from);
                    assert(0 <= pi < self.peers@.len() && self.peers@[pi].id == from);
                    if pi != i as int {
                        assert(self.peers@[pi].id != self.peers@[i as int].id);
                        assert(false);
                    }
                }
                let next = self.peers[i].next_index;
                if next <= snap {
                    return Option::None;
                }
                let prev = next - 1;
                if prev > last {
                    return Option::None;
                }
                let nn0 = self.log.len();
                let prev_term = if prev == snap {
                    self.snapshot_last_term
                } else {
                    proof {
                        assert(prev - snap - 1 < nn0 as u64);
                    }
                    self.log[(prev - snap - 1) as usize].term
                };
                let mut entries: Vec<LogEntry> = Vec::new();
                let mut pos = next - snap - 1;
                let nn = self.log.len();
                while pos < nn as u64
                    invariant
                        self.inv(),
                        nn == self.log@.len(),
                        snap == self.snapshot_last_index,
                        next - snap - 1 <= pos <= nn,
                        snap < next,
                        entries@.len() == pos - (next - snap - 1),
                        forall|j: int|
                            0 <= j < entries@.len() ==> {
                                let e = self.log@[next - snap - 1 + j];
                                (#[trigger] entries@[j]).index == e.index && entries@[j].term
                                    == e.term && entries@[j].command@ == e.command@
                            },
                    decreases nn - pos,
                {
                    let e = &self.log[pos as usize];
                    let copied = LogEntry {
                        index: e.index,
                        term: e.term,
                        command: Self::copy_bytes(&e.command),
                    };
                    entries.push(copied);
                    pos = pos + 1;
                }
                proof {
                    assert forall|j: int| 0 <= j < entries@.len() implies (#[trigger] entries@[j]).index
                        == prev + 1 + j by {
                        assert(self.log@[next - snap - 1 + j].index == snap + 1 + (next - snap - 1
                            + j));
                    }
                }
                return Option::Some((self.current_term, self.id, prev, prev_term, entries, self.commit_index));
            }
            i = i + 1;
        }
        proof {
            if has_peer(self.peers@, from) {
                let pi = peer_index(self.peers@, from);
                assert(0 <= pi < self.peers@.len() && self.peers@[pi].id == from);
            }
        }
        Option::None
    }
    /// Builds the InstallSnapshot arguments for a follower that has fallen
    /// behind the earliest retained entry: the snapshot base and a copy of
    /// the snapshot bytes, sent in one piece.
    pub fn snapshot_args(&self) -> (r: (u64, u64, u64, u64, Vec<u8>, bool))
        requires
            self.inv(),
            self.role == Role::Leader,
        ensures
            r.0 == self.current_term,
            r.1 == self.id,
            r.2 == self.snapshot_last_index,
            r.3 == self.snapshot_last_term,
            r.4@ == self.snapshot_data@,
            r.5 == true,
    {
        (
            self.current_term,
            self.id,
            self.snapshot_last_index,
            self.snapshot_last_term,
            Self::copy_bytes(&self.snapshot_data),
            true,
        )
    }

    /// Serves InstallSnapshot. A stale term is rejected with the current
    /// term. Otherwise the sender is the leader: chunks with `done` unset
    /// are buffered; the final chunk completes the snapshot, which — unless
    /// it lags the node's own commit index — replaces the state machine's
    /// base: entries at or before its last included index are discarded (the
    /// whole log, if the entry there disagrees in term), and both the commit
    /// index and the applied index jump to the last included index.
    pub fn handle_install_snapshot(
        &mut self,
        term: u64,
        leader_id: u64,
        last_included_index: u64,
        last_included_term: u64,
        data: Vec<u8>,
        done: bool,
    ) -> (r: u64)
        requires
            old(self).inv(),
        ensures
            final(self).inv(),
            final(self).current_term == (if term > old(self).current_term {
                term
            } else {
                old(self).current_term
            }),
            r == final(self).current_term,
            final(self).peers@ == old(self).peers@,
            final(self).id == old(self).id,
            final(self).commit_index >= old(self).commit_index,
            final(self).voted_for == (if term > old(self).current_term {
                Option::<u64>::None
            } else {
                old(self).voted_for
            }),
            final(self).role == (if term >= old(self).current_term {
                Role::Follower
            } else {
                old(self).role
            }),
            term < old(self).current_term ==> final(self).log@ == old(self).log@ && final(self).commit_index == old(self).commit_index && final(self).last_applied == old(self).last_applied && final(self).snapshot_last_index == old(self).snapshot_last_index
                && final(self).snapshot_last_term == old(self).snapshot_last_term && final(self).pending_snapshot@ == old(self).pending_snapshot@ && final(self).machine == old(self).machine,
            term >= old(self).current_term && !done ==> final(self).pending_snapshot@ == old(self).pending_snapshot@ + data@ && final(self).log@ == old(self).log@ && final(self).commit_index == old(self).commit_index && final(self).last_applied == old(self).last_applied && final(self).snapshot_last_index == old(self).snapshot_last_index
                && final(self).snapshot_last_term == old(self).snapshot_last_term && final(self).machine == old(self).machine,
            term >= old(self).current_term && done && last_included_index <= old(self).commit_index ==> final(self).pending_snapshot@.len() == 0 && final(self).log@ == old(self).log@ && final(self).commit_index == old(self).commit_index && final(self).last_applied == old(self).last_applied && final(self).snapshot_last_index == old(self).snapshot_last_index && final(self).snapshot_last_term == old(self).snapshot_last_term && final(self).machine
                == old(self).machine,
            term >= old(self).current_term && done && last_included_index > old(self).commit_index
                ==> final(self).pending_snapshot@.len() == 0 && final(self).snapshot_last_index
                == last_included_index && final(self).snapshot_last_term == last_included_term
                && final(self).commit_index == last_included_index && final(self).last_applied
                == last_included_index && final(self).snapshot_data@ == old(self).pending_snapshot@ + data@ && M::restore_post(
                old(self).machine,
                old(self).pending_snapshot@ + data@,
                final(self).machine,
            ) && final(self).log@ == (if last_included_index <= old(self).last_log_index() && old(self).term_at(last_included_index as int)
                == last_included_term {
                old(self).log@.skip(last_included_index - old(self).snapshot_last_index)
            } else {
                Seq::<LogEntry>::empty()
            }),
    {
        if term > self.current_term {
            self.current_term = term;
            self.voted_for = Option::None;
            self.role = Role::Follower;
        }
        if term < self.current_term {
            return self.current_term;
        }
        self.role = Role::Follower;
        let mut data = data;
        if !done {
            self.pending_snapshot.append(&mut data);
            return self.current_term;
        }
        let mut full: Vec<u8> = Vec::new();
        full.append(&mut self.pending_snapshot);
        full.append(&mut data);
        if last_included_index <= self.commit_index {
            return self.current_term;
        }
        let snap = self.snapshot_last_index;
        let last = self.last_index();
        let nn = self.log.len();
        let keep_suffix = if last_included_index <= last {
            proof {
                assert(last_included_index - snap - 1 < nn as u64);
            }
            self.log[(last_included_index - snap - 1) as usize].term == last_included_term
        } else {
            false
        };
        if keep_suffix {
            let suffix = self.log.split_off((last_included_index - snap) as usize);
            self.log = suffix;
        } else {
            self.log.clear();
        }
        self.machine.restore(&full);
        self.snapshot_data = full;
        self.snapshot_last_index = last_included_index;
        self.snapshot_last_term = last_included_term;
        self.commit_index = last_included_index;
        self.last_applied = last_included_index;
        self.current_term
    }

    /// Compacts the log: applied entries up to `up_to` are folded into a
    /// fresh snapshot of the state machine, and the log keeps only what
    /// follows.
    pub fn compact(&mut self, up_to: u64)
        requires
            old(self).inv(),
            old(self).snapshot_last_index < up_to <= old(self).last_applied,
        ensures
            final(self).inv(),
            final(self).snapshot_last_index == up_to,
            final(self).snapshot_last_term == old(self).term_at(up_to as int),
            final(self).log@ == old(self).log@.skip(up_to - old(self).snapshot_last_index),
            final(self).commit_index == old(self).commit_index,
            final(self).last_applied == old(self).last_applied,
            final(self).current_term == old(self).current_term,
            final(self).voted_for == old(self).voted_for,
            final(self).role == old(self).role,
            final(self).peers@ == old(self).peers@,
            final(self).id == old(self).id,
            final(self).machine == old(self).machine,
            final(self).snapshot_data@ == M::snapshot_of(old(self).machine),
    {
        let snap = self.snapshot_last_index;
        let nn = self.log.len();
        proof {
            assert(up_to - snap - 1 < nn as u64);
        }
        let term_kept = self.log[(up_to - snap - 1) as usize].term;
        let data = self.machine.snapshot();
        let suffix = self.log.split_off((up_to - snap) as usize);
        self.log = suffix;
        self.snapshot_data = data;
        self.snapshot_last_index = up_to;
        self.snapshot_last_term = term_kept;
    }
}

} // verus!
