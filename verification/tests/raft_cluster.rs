use bifrost::raft::{RaftNode, Role};
use bifrost::store::{encode_get, encode_set, ValueStore};

fn node(id: u64, peers: Vec<u64>) -> RaftNode<ValueStore> {
    RaftNode::new(id, peers, ValueStore::new())
}

fn grant_votes(candidate: &mut RaftNode<ValueStore>, voters: &mut [&mut RaftNode<ValueStore>]) {
    let (term, cand_id, last_idx, last_term) = candidate.on_election_timeout();
    for voter in voters.iter_mut() {
        let (reply_term, granted) = voter.handle_request_vote(term, cand_id, last_idx, last_term);
        candidate.handle_vote_reply(voter.id, reply_term, granted);
    }
}

fn replicate_once(leader: &mut RaftNode<ValueStore>, follower: &mut RaftNode<ValueStore>) -> bool {
    let (term, leader_id, prev, prev_term, entries, commit) =
        leader.append_args_for(follower.id).expect("peer within retained log");
    let sent = prev + entries.len() as u64;
    let (reply_term, ok) =
        follower.handle_append_entries(term, leader_id, prev, prev_term, entries, commit);
    leader.on_append_reply(follower.id, reply_term, ok, sent);
    ok
}

#[test]
fn single_node_commits_and_applies_at_once() {
    let mut n1 = node(1, vec![]);
    n1.on_election_timeout();
    assert_eq!(n1.role, Role::Leader);

    let idx = n1.propose(encode_set(b"solo".to_vec())).expect("leader accepts");
    assert_eq!(idx, 1);
    n1.leader_advance_commit();
    assert_eq!(n1.commit_index, 1);
    n1.apply_committed();
    assert_eq!(n1.last_applied, 1);
    assert_eq!(n1.machine.value, b"solo".to_vec());
}

#[test]
fn commit_index_never_decreases() {
    let mut n1 = node(1, vec![]);
    n1.on_election_timeout();
    let mut floor = n1.commit_index;
    for i in 0..5u8 {
        n1.propose(encode_set(vec![i])).unwrap();
        n1.leader_advance_commit();
        assert!(n1.commit_index >= floor);
        floor = n1.commit_index;
        n1.apply_committed();
        assert!(n1.commit_index >= floor);
    }
    let (t, _) = n1.handle_request_vote(n1.current_term + 1, 9, 0, 0);
    assert!(n1.commit_index >= floor);
    n1.handle_install_snapshot(t, 9, 0, 0, vec![], true);
    assert!(n1.commit_index >= floor);
}

#[test]
fn majority_elects_and_old_leader_steps_down() {
    let mut n1 = node(1, vec![2, 3]);
    let mut n2 = node(2, vec![1, 3]);
    let mut n3 = node(3, vec![1, 2]);

    grant_votes(&mut n1, &mut [&mut n2, &mut n3]);
    assert_eq!(n1.role, Role::Leader);
    assert_eq!(n1.current_term, 1);

    n1.propose(encode_set(b"from first leader".to_vec())).unwrap();
    assert!(replicate_once(&mut n1, &mut n2));
    assert!(replicate_once(&mut n1, &mut n3));
    n1.leader_advance_commit();
    assert_eq!(n1.commit_index, 1);
    n1.apply_committed();

    // The leader is cut off; it keeps appending locally without commits.
    n1.propose(encode_set(b"lost entry".to_vec())).unwrap();
    assert_eq!(n1.commit_index, 1);

    // The remaining two nodes elect a new leader once the timeout fires.
    grant_votes(&mut n2, &mut [&mut n3]);
    assert_eq!(n2.role, Role::Leader);
    assert_eq!(n2.current_term, 2);

    n2.propose(encode_set(b"from second leader".to_vec())).unwrap();
    assert!(replicate_once(&mut n2, &mut n3));
    n2.leader_advance_commit();
    assert_eq!(n2.commit_index, 2);
    n2.apply_committed();
    n3.handle_append_entries(n2.current_term, n2.id, 2, n2.current_term, vec![], n2.commit_index);
    assert_eq!(n3.commit_index, 2);

    // The old leader rejoins: the higher term forces it down and the
    // conflicting entry is truncated in favour of the new leader's log.
    let ok = replicate_once(&mut n2, &mut n1);
    assert_eq!(n1.role, Role::Follower);
    assert_eq!(n1.current_term, 2);
    if ok {
        assert_eq!(n1.commit_index, 2);
        assert_eq!(n1.machine.value, b"from second leader".to_vec());
    } else {
        // The consistency check sent the new leader further back first.
        while !replicate_once(&mut n2, &mut n1) {}
        assert_eq!(n1.commit_index, 2);
        assert_eq!(n1.machine.value, b"from second leader".to_vec());
    }
}

#[test]
fn lagging_follower_catches_up_through_snapshot() {
    let mut n1 = node(1, vec![2, 3]);
    let mut n2 = node(2, vec![1, 3]);
    let mut n3 = node(3, vec![1, 2]);

    grant_votes(&mut n1, &mut [&mut n2, &mut n3]);
    assert_eq!(n1.role, Role::Leader);

    for i in 0..3u8 {
        n1.propose(encode_set(vec![b'v', i])).unwrap();
        assert!(replicate_once(&mut n1, &mut n2));
        n1.leader_advance_commit();
    }
    assert_eq!(n1.commit_index, 3);
    n1.apply_committed();

    // The log before the applied prefix is compacted away.
    n1.compact(3);
    assert_eq!(n1.snapshot_last_index, 3);

    // The third node never got an entry; back its next index off until it
    // points before the earliest retained entry.
    n1.on_append_reply(3, n1.current_term, false, 0);
    n1.on_append_reply(3, n1.current_term, false, 0);
    n1.on_append_reply(3, n1.current_term, false, 0);
    assert!(n1.needs_snapshot(3));
    assert!(n1.append_args_for(3).is_none());

    let (term, leader_id, snap_idx, snap_term, data, done) = n1.snapshot_args();
    let reply_term = n3.handle_install_snapshot(term, leader_id, snap_idx, snap_term, data, done);
    assert_eq!(n3.commit_index, 3);
    assert_eq!(n3.last_applied, 3);
    assert_eq!(n3.machine.value, vec![b'v', 2]);

    // The acknowledged snapshot moves the follower's indexes forward; the
    // next round of AppendEntries succeeds from there.
    n1.on_append_reply(3, reply_term, true, snap_idx);
    n1.propose(encode_set(b"after snapshot".to_vec())).unwrap();
    assert!(replicate_once(&mut n1, &mut n3));
    assert_eq!(n3.last_applied, 3);
    assert!(replicate_once(&mut n1, &mut n2));
    n1.leader_advance_commit();
    assert_eq!(n1.commit_index, 4);
    assert!(replicate_once(&mut n1, &mut n3));
    assert_eq!(n3.commit_index, 4);
    assert_eq!(n3.machine.value, b"after snapshot".to_vec());
}

#[test]
fn query_sees_a_set_only_after_it_commits() {
    let mut n1 = node(1, vec![2, 3]);
    let mut n2 = node(2, vec![1, 3]);
    let mut n3 = node(3, vec![1, 2]);

    grant_votes(&mut n1, &mut [&mut n2, &mut n3]);
    n1.propose(encode_set(b"The stored text".to_vec())).unwrap();
    assert!(replicate_once(&mut n1, &mut n2));
    assert!(replicate_once(&mut n1, &mut n3));
    n1.leader_advance_commit();
    n1.apply_committed();
    assert!(replicate_once(&mut n1, &mut n2));
    assert_eq!(n2.machine.serve(encode_get()), Ok(b"The stored text".to_vec()));

    // A new set is proposed, stored on a majority, but not yet committed:
    // queries still answer with the old value on every node.
    n1.propose(encode_set(b"altered text".to_vec())).unwrap();
    assert!(replicate_once(&mut n1, &mut n2));
    assert_eq!(n1.machine.serve(encode_get()), Ok(b"The stored text".to_vec()));
    assert_eq!(n2.machine.serve(encode_get()), Ok(b"The stored text".to_vec()));

    // Once the leader learns of the majority it commits and applies; only
    // then does a query observe the new value.
    n1.leader_advance_commit();
    n1.apply_committed();
    assert_eq!(n1.machine.serve(encode_get()), Ok(b"altered text".to_vec()));
    assert!(replicate_once(&mut n1, &mut n2));
    assert_eq!(n2.machine.serve(encode_get()), Ok(b"altered text".to_vec()));
}
