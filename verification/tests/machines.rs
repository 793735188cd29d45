use memgraph::common::Hlc;
use memgraph::coordinator::{Coordinator, CoordinatorReadReq};
use memgraph::machine_manager::MachineManager;
use memgraph::metadata::ClusterMetadata;
use memgraph::net::{Address, Envelope, IpAddr, Message};
use memgraph::rsm::{Replica, Role, RsmClient, RsmMessage, Snapshot, Term};
use memgraph::shard::{Shard, ShardReadReq};

fn addr(id: u64) -> Address {
    Address { id, port: 1, ip_addr: IpAddr::V4(0x7f00_0001) }
}

fn shard(id: u64) -> Replica<Shard> {
    Replica::recover(
        Snapshot { state: Shard::default(), corresponding_raft_index: 0, committed_log_size: 0, rsm_id: id, peers: vec![addr(id), addr(100)] },
        Vec::new(),
        addr(id),
    )
}

fn coordinator() -> Replica<Coordinator> {
    Replica::recover(
        Snapshot { state: Coordinator::default(), corresponding_raft_index: 0, committed_log_size: 0, rsm_id: 1, peers: vec![addr(1), addr(2)] },
        Vec::new(),
        addr(1),
    )
}

#[test]
fn shard_messages_go_to_the_addressed_shard() {
    let mut mm = MachineManager::new(Some(coordinator()));
    mm.insert_rsm(42, shard(42));
    mm.insert_rsm(7, shard(7));
    let vote = Envelope {
        from: addr(100),
        to: addr(42),
        message: Message::Shard(RsmMessage::VoteReq { proposed_leadership_term: Term(1), last_log_term: None, committed_log_size: 0 }),
        request_id: None,
    };
    assert!(mm.handle_ok_exec(&vote));
    let sent = mm.handle(vote, 0, 150);
    assert_eq!(sent.len(), 1);
    assert_eq!(sent[0].from.id, 42);
    assert_eq!(sent[0].to, addr(100));
    let lost = Envelope {
        from: addr(100),
        to: addr(5),
        message: Message::Shard(RsmMessage::ReadReq(ShardReadReq::ScanAll)),
        request_id: Some(1),
    };
    assert!(mm.handle(lost, 0, 150).is_empty());
}

#[test]
fn coordinator_messages_go_to_the_coordinator() {
    let mut mm = MachineManager::new(Some(coordinator()));
    let read = Envelope {
        from: addr(9),
        to: addr(1),
        message: Message::Coordinator(RsmMessage::ReadReq(CoordinatorReadReq::GetShardMap)),
        request_id: Some(1),
    };
    // A candidate drops reads.
    assert!(mm.handle(read, 0, 150).is_empty());
    let mut none = MachineManager::new(None);
    let vote = Envelope {
        from: addr(2),
        to: addr(1),
        message: Message::Coordinator(RsmMessage::VoteReq { proposed_leadership_term: Term(1), last_log_term: None, committed_log_size: 0 }),
        request_id: None,
    };
    assert!(none.handle(vote, 0, 150).is_empty());
}

#[test]
fn cron_runs_coordinator_then_shards_in_id_order() {
    let mut mm = MachineManager::new(Some(coordinator()));
    mm.insert_rsm(42, shard(42));
    mm.insert_rsm(7, shard(7));
    assert!(mm.cron_ok_exec(0));
    assert_eq!(mm.elections_due(0), vec![true, true, true]);
    let sent = mm.cron(0, &vec![150, 160, 170]);
    let from: Vec<u64> = sent.iter().map(|e| e.from.id).collect();
    assert_eq!(from, vec![1, 7, 42]);
    assert!(sent.iter().all(|e| matches!(e.message, Message::Coordinator(RsmMessage::VoteReq { .. }) | Message::Shard(RsmMessage::VoteReq { .. }))));
}

#[test]
fn inserting_an_rsm_again_replaces_it() {
    let mut mm = MachineManager::new(None);
    mm.insert_rsm(3, shard(3));
    mm.cron(0, &vec![0, 150]);
    mm.insert_rsm(3, shard(3));
    let sent = mm.cron(0, &vec![0, 150]);
    assert_eq!(sent.len(), 1);
    match &sent[0].message {
        Message::Shard(RsmMessage::VoteReq { proposed_leadership_term, .. }) => assert_eq!(*proposed_leadership_term, Term(1)),
        _ => panic!("expected a vote request"),
    }
}

#[test]
fn elections_are_due_only_where_a_timeout_expired() {
    let mut mm = MachineManager::new(None);
    mm.insert_rsm(9, shard(9));
    mm.insert_rsm(4, shard(4));
    assert_eq!(mm.elections_due(0), vec![false, true, true]);
    mm.cron(0, &vec![0, 200, 300]);
    // Shard 4 now waits until 200 ms, shard 9 until 300 ms.
    assert_eq!(mm.elections_due(199_999), vec![false, false, false]);
    assert_eq!(mm.elections_due(200_000), vec![false, true, false]);
    assert_eq!(mm.elections_due(300_000), vec![false, true, true]);
}

#[test]
fn only_append_and_granted_vote_requests_draw_a_timeout() {
    let mut mm = MachineManager::new(Some(coordinator()));
    mm.insert_rsm(42, shard(42));
    let vote = |to: u64, term: u64| Envelope {
        from: addr(100),
        to: addr(to),
        message: Message::Shard(RsmMessage::VoteReq { proposed_leadership_term: Term(term), last_log_term: None, committed_log_size: 0 }),
        request_id: None,
    };
    assert!(mm.handle_draws_timeout(&vote(42, 1)));
    assert!(!mm.handle_draws_timeout(&vote(42, 0)));
    assert!(!mm.handle_draws_timeout(&vote(5, 1)));
    let read = Envelope {
        from: addr(9),
        to: addr(1),
        message: Message::Coordinator(RsmMessage::ReadReq(CoordinatorReadReq::GetShardMap)),
        request_id: Some(1),
    };
    assert!(!mm.handle_draws_timeout(&read));
    let append = Envelope {
        from: addr(2),
        to: addr(1),
        message: Message::Coordinator(RsmMessage::AppendReq(memgraph::rsm::AppendReq {
            term: Term(1),
            batch_start_log_index: 0,
            last_log_term: None,
            entries: vec![],
            leader_committed_log_size: 0,
        })),
        request_id: None,
    };
    assert!(mm.handle_draws_timeout(&append));
    assert!(!MachineManager::new(None).handle_draws_timeout(&append));
}

#[test]
fn client_follows_redirects() {
    let mut client = RsmClient::<Coordinator> { timeout: 100_000, retries: 0, peers: vec![addr(1)], leader: addr(1), pd: std::marker::PhantomData };
    let req = RsmClient::<Coordinator>::read_request(CoordinatorReadReq::GetShardMap);
    assert!(matches!(req, Message::Coordinator(RsmMessage::ReadReq(CoordinatorReadReq::GetShardMap))));
    let redirect = Message::Coordinator(RsmMessage::Redirect { leader: addr(2), term: Term(3) });
    assert!(RsmClient::<Coordinator>::accepts_read_reply(&redirect));
    assert!(client.read_reply(redirect).is_none());
    assert_eq!(client.leader, addr(2));
    let answer = Message::Coordinator(RsmMessage::ReadRes(memgraph::coordinator::CoordinatorReadRes::GetShardMap(Default::default())));
    assert!(client.read_reply(answer).is_some());
    assert_eq!(client.leader, addr(2));
    let foreign = Message::Shard(RsmMessage::Redirect { leader: addr(2), term: Term(3) });
    assert!(!RsmClient::<Coordinator>::accepts_read_reply(&foreign));
    assert!(!RsmClient::<Coordinator>::accepts_write_reply(&Message::Coordinator(RsmMessage::ReadReq(CoordinatorReadReq::GetShardMap))));
}

#[test]
fn idgen_advances_logical_clock() {
    let mut m = ClusterMetadata {
        version: Hlc { logical: 41, coordinator_wall: 17 },
        coordinators: vec![],
        name_to_id: vec![],
        id_to_name: vec![],
        schemas: vec![],
    };
    assert_eq!(m.idgen(), 42);
    assert_eq!(m.idgen(), 43);
    assert_eq!(m.version, Hlc { logical: 43, coordinator_wall: 17 });
}

#[test]
fn default_key_is_the_empty_vertex() {
    match memgraph::common::Key::default() {
        memgraph::common::Key::Vertex { label, key } => {
            assert_eq!(label, 0);
            assert!(key.is_empty());
        }
        _ => panic!("expected a vertex key"),
    }
    let _ = Role::Follower { leader: addr(1), leader_timeout: 0, term: Term(0) };
}
