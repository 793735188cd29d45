use memgraph::coordinator::{Coordinator, CoordinatorReadReq, CoordinatorReadRes, ShardMap};
use memgraph::net::{Address, Envelope, IpAddr, Message};
use memgraph::rsm::{AppendReq, AppendRes, Replica, Role, Rsm, RsmMessage, Snapshot, Term};
use memgraph::shard::{ScanAll, Shard, ShardReadReq, ShardReadRes};

fn addr(id: u64) -> Address {
    Address { id, port: 1, ip_addr: IpAddr::V4(0x7f00_0001) }
}

fn replica(id: u64, peers: &[u64]) -> Replica<Coordinator> {
    let snapshot = Snapshot {
        state: Coordinator::default(),
        corresponding_raft_index: 0,
        committed_log_size: 0,
        rsm_id: id,
        peers: peers.iter().map(|p| addr(*p)).collect(),
    };
    Replica::recover(snapshot, Vec::new(), addr(id))
}

fn envelope(from: u64, to: u64, msg: RsmMessage<Coordinator>, request_id: Option<u64>) -> Envelope {
    Envelope { from: addr(from), to: addr(to), message: Message::Coordinator(msg), request_id }
}

fn unwrap(e: &Envelope) -> RsmMessage<Coordinator> {
    Coordinator::unwrap(e.message.clone()).ok().expect("a coordinator message")
}

/// Replica 1 starts an election and wins it with a vote from replica 2 in
/// its own term.
fn elected_leader() -> Replica<Coordinator> {
    let mut a = replica(1, &[1, 2, 3]);
    let votes = a.cron(0, 200);
    assert_eq!(votes.len(), 2);
    let vote = envelope(2, 1, RsmMessage::VoteRes { success: true, term: Term(1), committed_log_size: 0 }, None);
    let sent = a.receive(vote, 20, 150);
    assert!(sent.is_empty());
    a
}

#[test]
fn granted_vote_reports_the_voters_previous_term() {
    let mut a = replica(1, &[1, 2, 3]);
    let votes = a.cron(0, 200);
    let mut b = replica(2, &[1, 2, 3]);
    let answer = b.receive(votes[0].clone(), 10, 150);
    assert_eq!(answer.len(), 1);
    assert!(matches!(unwrap(&answer[0]), RsmMessage::VoteRes { success: true, term: Term(0), committed_log_size: 0 }));
    // The candidate counts only votes that name its own term.
    a.receive(answer[0].clone(), 20, 150);
    assert!(matches!(a.current_role(), Role::Candidate { term: Term(1), .. }));
}

#[test]
fn recover_takes_id_from_snapshot() {
    let r = replica(7, &[7, 8]);
    assert_eq!(r.own_address().id, 7);
    assert_eq!(r.term(), Term(0));
    assert_eq!(r.committed_log_size(), 0);
    assert!(matches!(r.current_role(), Role::Candidate { term: Term(0), attempt_expiration: 0, .. }));
    let other = Replica::<Coordinator>::recover(
        Snapshot { state: Coordinator::default(), corresponding_raft_index: 3, committed_log_size: 2, rsm_id: 9, peers: vec![] },
        Vec::new(),
        addr(1),
    );
    assert_eq!(other.own_address().id, 9);
    assert_eq!(other.committed_log_size(), 2);
}

#[test]
fn expired_candidate_asks_other_peers_for_votes() {
    let mut r = replica(1, &[1, 2, 3]);
    let sent = r.cron(5_000, 200);
    assert_eq!(r.term(), Term(1));
    assert_eq!(sent.len(), 2);
    assert_eq!(sent[0].to, addr(2));
    assert_eq!(sent[1].to, addr(3));
    for e in &sent {
        assert_eq!(e.from, addr(1));
        assert_eq!(e.request_id, None);
        match unwrap(e) {
            RsmMessage::VoteReq { proposed_leadership_term, last_log_term, committed_log_size } => {
                assert_eq!(proposed_leadership_term, Term(1));
                assert_eq!(last_log_term, None);
                assert_eq!(committed_log_size, 0);
            }
            other => panic!("unexpected {:?}", other),
        }
    }
    match r.current_role() {
        Role::Candidate { term, attempt_expiration, outstanding_votes, successes } => {
            assert_eq!(*term, Term(1));
            assert_eq!(*attempt_expiration, 5_000 + 200 * 1000);
            assert!(outstanding_votes.contains_key(&addr(2)));
            assert!(outstanding_votes.contains_key(&addr(3)));
            assert!(!outstanding_votes.contains_key(&addr(1)));
            assert_eq!(successes.len(), 0);
        }
        _ => panic!("should be a candidate"),
    }
}

#[test]
fn candidate_waits_until_its_attempt_expires() {
    let mut r = replica(1, &[1, 2]);
    r.cron(0, 300);
    let sent = r.cron(299_999, 150);
    assert!(sent.is_empty());
    assert_eq!(r.term(), Term(1));
    let sent = r.cron(300_000, 150);
    assert_eq!(sent.len(), 1);
    assert_eq!(r.term(), Term(2));
}

#[test]
fn vote_granted_for_newer_term_and_then_follows() {
    let mut b = replica(2, &[1, 2]);
    let req = envelope(1, 2, RsmMessage::VoteReq { proposed_leadership_term: Term(1), last_log_term: None, committed_log_size: 0 }, None);
    let sent = b.receive(req, 1_000, 150);
    assert_eq!(sent.len(), 1);
    assert_eq!(sent[0].to, addr(1));
    match unwrap(&sent[0]) {
        RsmMessage::VoteRes { success, term, committed_log_size } => {
            assert!(success);
            assert_eq!(term, Term(0));
            assert_eq!(committed_log_size, 0);
        }
        other => panic!("unexpected {:?}", other),
    }
    assert!(matches!(b.current_role(), Role::Follower { term: Term(1), leader_timeout: 151_000, .. }));
}

#[test]
fn one_vote_per_term() {
    let mut b = replica(2, &[1, 2, 3]);
    let first = envelope(1, 2, RsmMessage::VoteReq { proposed_leadership_term: Term(1), last_log_term: None, committed_log_size: 0 }, None);
    b.receive(first, 0, 150);
    let second = envelope(3, 2, RsmMessage::VoteReq { proposed_leadership_term: Term(1), last_log_term: None, committed_log_size: 5 }, None);
    let sent = b.receive(second, 0, 150);
    match unwrap(&sent[0]) {
        RsmMessage::VoteRes { success, term, .. } => {
            assert!(!success);
            assert_eq!(term, Term(1));
        }
        other => panic!("unexpected {:?}", other),
    }
    match b.current_role() {
        Role::Follower { leader, term, .. } => {
            assert_eq!(*leader, addr(1));
            assert_eq!(*term, Term(1));
        }
        _ => panic!("should follow replica 1"),
    }
}

#[test]
fn vote_refused_to_candidate_behind_on_commits() {
    let mut b = Replica::<Coordinator>::recover(
        Snapshot { state: Coordinator::default(), corresponding_raft_index: 0, committed_log_size: 3, rsm_id: 2, peers: vec![addr(1), addr(2)] },
        Vec::new(),
        addr(2),
    );
    let req = envelope(1, 2, RsmMessage::VoteReq { proposed_leadership_term: Term(4), last_log_term: None, committed_log_size: 2 }, None);
    let sent = b.receive(req, 0, 150);
    assert!(matches!(unwrap(&sent[0]), RsmMessage::VoteRes { success: false, term: Term(0), committed_log_size: 3 }));
    assert_eq!(b.term(), Term(0));
}

#[test]
fn candidate_becomes_leader_with_enough_votes() {
    let a = elected_leader();
    match a.current_role() {
        Role::Leader { term, broadcast_indices, confirmed_log_lengths } => {
            assert_eq!(*term, Term(1));
            assert_eq!(broadcast_indices.get(&addr(2)), Some(0));
            assert_eq!(broadcast_indices.get(&addr(3)), Some(0));
            assert_eq!(confirmed_log_lengths.get(&addr(2)), Some(0));
            assert_eq!(confirmed_log_lengths.len(), 2);
        }
        _ => panic!("should lead"),
    }
}

#[test]
fn vote_for_another_term_is_ignored() {
    let mut a = replica(1, &[1, 2, 3]);
    a.cron(0, 200);
    let stale = envelope(2, 1, RsmMessage::VoteRes { success: true, term: Term(7), committed_log_size: 0 }, None);
    a.receive(stale, 0, 150);
    assert!(matches!(a.current_role(), Role::Candidate { .. }));
    let refused = envelope(2, 1, RsmMessage::VoteRes { success: false, term: Term(1), committed_log_size: 0 }, None);
    a.receive(refused, 0, 150);
    assert!(matches!(a.current_role(), Role::Candidate { .. }));
}

#[test]
fn leader_broadcasts_committed_entries() {
    let mut a = elected_leader();
    let sent = a.cron(1_000, 150);
    assert_eq!(sent.len(), 2);
    let mut targets: Vec<u64> = sent.iter().map(|e| e.to.id).collect();
    targets.sort();
    assert_eq!(targets, vec![2, 3]);
    for e in &sent {
        match unwrap(e) {
            RsmMessage::AppendReq(req) => {
                assert_eq!(req.term, Term(1));
                assert_eq!(req.batch_start_log_index, 0);
                assert_eq!(req.last_log_term, None);
                assert!(req.entries.is_empty());
                assert_eq!(req.leader_committed_log_size, 0);
            }
            other => panic!("unexpected {:?}", other),
        }
    }
}

#[test]
fn leader_answers_reads_and_follower_redirects() {
    let mut a = elected_leader();
    let read = envelope(9, 1, RsmMessage::ReadReq(CoordinatorReadReq::GetShardMap), Some(42));
    let sent = a.receive(read, 0, 150);
    assert_eq!(sent.len(), 1);
    assert_eq!(sent[0].to, addr(9));
    assert_eq!(sent[0].request_id, Some(42));
    assert!(matches!(unwrap(&sent[0]), RsmMessage::ReadRes(CoordinatorReadRes::GetShardMap(ShardMap {}))));

    let mut b = replica(2, &[1, 2]);
    b.receive(envelope(1, 2, RsmMessage::VoteReq { proposed_leadership_term: Term(3), last_log_term: None, committed_log_size: 0 }, None), 0, 150);
    let read = envelope(9, 2, RsmMessage::ReadReq(CoordinatorReadReq::GetShardMap), Some(5));
    let sent = b.receive(read, 0, 150);
    assert_eq!(sent.len(), 1);
    assert!(matches!(unwrap(&sent[0]), RsmMessage::Redirect { leader, term: Term(3) } if leader == addr(1)));

    let mut c = replica(3, &[1, 3]);
    let read = envelope(9, 3, RsmMessage::ReadReq(CoordinatorReadReq::GetShardMap), Some(5));
    assert!(c.receive(read, 0, 150).is_empty());
}

#[test]
fn append_from_newer_term_makes_follower() {
    let mut b = replica(2, &[1, 2]);
    let req = AppendReq { term: Term(2), batch_start_log_index: 0, last_log_term: None, entries: vec![], leader_committed_log_size: 0 };
    let sent = b.receive(envelope(1, 2, RsmMessage::AppendReq(req), None), 1_000, 200);
    assert!(sent.is_empty());
    assert!(matches!(b.current_role(), Role::Follower { term: Term(2), leader_timeout: 201_000, .. }));
}

#[test]
fn append_at_wrong_index_reports_log_size() {
    let mut b = replica(2, &[1, 2]);
    let req = AppendReq { term: Term(2), batch_start_log_index: 5, last_log_term: None, entries: vec![], leader_committed_log_size: 0 };
    let sent = b.receive(envelope(1, 2, RsmMessage::AppendReq(req), None), 0, 150);
    assert_eq!(sent.len(), 1);
    match unwrap(&sent[0]) {
        RsmMessage::AppendRes(AppendRes { term, last_log_term, log_size }) => {
            assert_eq!(term, Term(2));
            assert_eq!(last_log_term, None);
            assert_eq!(log_size, 0);
        }
        other => panic!("unexpected {:?}", other),
    }
}

#[test]
fn append_from_stale_leader_is_ignored() {
    let mut b = replica(2, &[1, 2, 3]);
    b.receive(envelope(1, 2, RsmMessage::VoteReq { proposed_leadership_term: Term(3), last_log_term: None, committed_log_size: 0 }, None), 0, 150);
    let req = AppendReq { term: Term(2), batch_start_log_index: 0, last_log_term: None, entries: vec![], leader_committed_log_size: 0 };
    let sent = b.receive(envelope(3, 2, RsmMessage::AppendReq(req), None), 0, 150);
    assert!(sent.is_empty());
    assert!(matches!(b.current_role(), Role::Follower { term: Term(3), .. }));
}

#[test]
fn leader_tracks_append_results() {
    let mut a = elected_leader();
    let res = AppendRes { term: Term(1), last_log_term: None, log_size: 4 };
    a.receive(envelope(2, 1, RsmMessage::AppendRes(res), None), 0, 150);
    let res = AppendRes { term: Term(1), last_log_term: None, log_size: 2 };
    a.receive(envelope(2, 1, RsmMessage::AppendRes(res), None), 0, 150);
    let res = AppendRes { term: Term(1), last_log_term: None, log_size: 6 };
    a.receive(envelope(5, 1, RsmMessage::AppendRes(res), None), 0, 150);
    match a.current_role() {
        Role::Leader { broadcast_indices, confirmed_log_lengths, .. } => {
            assert_eq!(broadcast_indices.get(&addr(2)), Some(4));
            assert_eq!(confirmed_log_lengths.get(&addr(2)), Some(4));
            assert_eq!(broadcast_indices.get(&addr(5)), Some(6));
            assert_eq!(confirmed_log_lengths.get(&addr(5)), Some(6));
        }
        _ => panic!("should lead"),
    }
}

#[test]
fn envelopes_for_another_machine_are_refused() {
    let r = replica(1, &[1]);
    let shard_msg = Envelope { from: addr(2), to: addr(1), message: Message::Shard(RsmMessage::ReadReq(ShardReadReq::ScanAll)), request_id: None };
    assert!(!r.accepts_envelope(&shard_msg));
    let answer = envelope(2, 1, RsmMessage::ReadRes(CoordinatorReadRes::GetShardMap(ShardMap {})), None);
    assert!(!r.accepts_envelope(&answer));
    let vote = envelope(2, 1, RsmMessage::VoteReq { proposed_leadership_term: Term(1), last_log_term: None, committed_log_size: 0 }, None);
    assert!(r.accepts_envelope(&vote));
    let bad_commit = AppendReq { term: Term(1), batch_start_log_index: 0, last_log_term: None, entries: vec![], leader_committed_log_size: 1 };
    assert!(!r.accepts_envelope(&envelope(2, 1, RsmMessage::AppendReq(bad_commit), None)));
}

#[test]
fn cron_ok_for_fresh_replica() {
    let r = replica(1, &[1, 2]);
    assert!(r.cron_ok_exec(0));
}

#[test]
fn wrap_then_unwrap_gives_message_back() {
    let m = RsmMessage::<Shard>::ReadRes(ShardReadRes::ScanAll(ScanAll));
    let wrapped = Shard::wrap(m);
    assert!(matches!(wrapped, Message::Shard(RsmMessage::ReadRes(ShardReadRes::ScanAll(ScanAll)))));
    assert!(matches!(Shard::unwrap(wrapped), Ok(RsmMessage::ReadRes(_))));
    let foreign = Message::Coordinator(RsmMessage::ReadReq(CoordinatorReadReq::GetShardMap));
    assert!(matches!(Shard::unwrap(foreign), Err(Message::Coordinator(_))));
    assert!(matches!(Coordinator::default().read(CoordinatorReadReq::GetShardMap), CoordinatorReadRes::GetShardMap(ShardMap {})));
    assert!(matches!(Shard::default().read(ShardReadReq::ScanAll), ShardReadRes::ScanAll(ScanAll)));
}

#[test]
fn terms_never_go_back() {
    let mut b = replica(2, &[1, 2, 3]);
    b.receive(envelope(1, 2, RsmMessage::VoteReq { proposed_leadership_term: Term(5), last_log_term: None, committed_log_size: 0 }, None), 0, 150);
    assert_eq!(b.term(), Term(5));
    b.receive(envelope(3, 2, RsmMessage::VoteReq { proposed_leadership_term: Term(4), last_log_term: None, committed_log_size: 9 }, None), 0, 150);
    assert_eq!(b.term(), Term(5));
    let stale = AppendReq { term: Term(3), batch_start_log_index: 0, last_log_term: None, entries: vec![], leader_committed_log_size: 0 };
    b.receive(envelope(3, 2, RsmMessage::AppendReq(stale), None), 0, 150);
    assert_eq!(b.term(), Term(5));
    b.cron(1_000_000, 150);
    assert_eq!(b.term(), Term(6));
    assert_eq!(b.log_len(), 0);
    assert_eq!(b.committed_log_size(), 0);
}
