use rand::{Rng, SeedableRng};
use memgraph::coordinator::Coordinator;
use memgraph::net::{Address, Envelope, IpAddr, Message};
use memgraph::rsm::{RsmMessage, Term};
use memgraph::simulator::SimulatorState;

fn addr(id: u64) -> Address {
    Address { id, port: 1, ip_addr: IpAddr::V4(0x7f00_0001) }
}

fn envelope(from: u64, to: u64, request_id: Option<u64>, committed: u64) -> Envelope {
    Envelope {
        from: addr(from),
        to: addr(to),
        message: Message::Coordinator(RsmMessage::<Coordinator>::VoteRes { success: true, term: Term(0), committed_log_size: committed }),
        request_id,
    }
}

fn committed_of(e: &Envelope) -> u64 {
    match &e.message {
        Message::Coordinator(RsmMessage::VoteRes { committed_log_size, .. }) => *committed_log_size,
        _ => panic!("unexpected message"),
    }
}

type State = SimulatorState<&'static str, &'static str>;

#[test]
fn sent_envelope_waits_until_received() {
    let mut s = State::new();
    assert!(s.send(envelope(0, 1, None, 11)).is_none());
    let (sender, e) = s.receive(100, addr(1), "rx").expect("waiting envelope");
    assert_eq!(sender, "rx");
    assert_eq!(committed_of(&e), 11);
    assert!(s.receive(100, addr(1), "rx2").is_none());
}

#[test]
fn receive_takes_most_recent_envelope_first() {
    let mut s = State::new();
    s.send(envelope(0, 1, None, 1));
    s.send(envelope(0, 1, None, 2));
    let (_, e) = s.receive(100, addr(1), "a").unwrap();
    assert_eq!(committed_of(&e), 2);
    let (_, e) = s.receive(100, addr(1), "b").unwrap();
    assert_eq!(committed_of(&e), 1);
}

#[test]
fn waiting_receiver_takes_sent_envelope() {
    let mut s = State::new();
    assert!(s.receive(100, addr(1), "rx").is_none());
    assert!(s.quiescent());
    let (sender, e) = s.send(envelope(0, 1, None, 5)).expect("delivered");
    assert_eq!(sender, "rx");
    assert_eq!(committed_of(&e), 5);
    assert!(!s.quiescent());
}

#[test]
fn answer_goes_to_pending_request() {
    let mut s = State::new();
    let req = envelope(0, 1, Some(9), 0);
    assert!(s.request_ok_exec(&req));
    assert!(s.request(100, req, "requester").is_none());
    assert!(!s.request_ok_exec(&envelope(0, 2, Some(9), 0)));
    assert!(!s.request_ok_exec(&envelope(0, 2, None, 0)));
    s.receive(100, addr(0), "client-receiver");
    let (sender, e) = s.send(envelope(1, 0, Some(9), 3)).unwrap();
    assert_eq!(sender, "requester");
    assert_eq!(committed_of(&e), 3);
    let (sender, _) = s.send(envelope(1, 0, Some(9), 4)).unwrap();
    assert_eq!(sender, "client-receiver");
}

#[test]
fn request_goes_to_waiting_receiver() {
    let mut s = State::new();
    s.receive(100, addr(1), "server");
    let (sender, e) = s.request(100, envelope(0, 1, Some(1), 8), "client").unwrap();
    assert_eq!(sender, "server");
    assert_eq!(committed_of(&e), 8);
}

#[test]
fn tick_only_when_every_server_waits() {
    let mut s = State::new();
    s.maybe_tick();
    assert_eq!(s.now(), 0);
    s.receive(1500, addr(1), "rx");
    s.maybe_tick();
    assert_eq!(s.now(), 1000);
    assert!(s.quiescent());
    s.maybe_tick();
    assert_eq!(s.now(), 2000);
    assert!(!s.quiescent());
    assert!(s.send(envelope(0, 1, None, 0)).is_none());
}

#[test]
fn rand_stays_in_range_and_is_seeded() {
    let mut a = State::new();
    let mut b = State::new();
    for _ in 0..100 {
        let x = a.rand(150, 300);
        assert!((150..300).contains(&x));
        assert_eq!(x, b.rand(150, 300));
    }
    let draws: Vec<u64> = (0..20).map(|_| a.rand(0, 1_000_000)).collect();
    assert!(draws.iter().any(|d| *d != draws[0]));
}

#[test]
fn shutdown_is_remembered() {
    let mut s = State::new();
    assert!(!s.should_shutdown());
    s.shutdown();
    assert!(s.should_shutdown());
    s.timer(10, 1, "t");
}

#[test]
fn draws_follow_the_zero_seeded_chacha8_generator() {
    let mut s = State::new();
    let mut reference = rand_chacha::ChaCha8Rng::from_seed([0; 32]);
    for (low, high) in [(150u64, 300u64), (0, 1_000_000), (7, 8), (0, u64::MAX)] {
        assert_eq!(s.rand(low, high), reference.gen_range(low..high));
    }
}
