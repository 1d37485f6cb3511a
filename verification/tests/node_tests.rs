use narwhal::behavior::{
    context_updates, kademlia_additions_for, requests_for_peers, send_transaction_to_peers, Event,
    IdentifyEvent, KademliaEvent, RequestResponseEvent, RequestResponseMessage,
};
use narwhal::dag::DAG;
use narwhal::message::TransactionMessage;
use narwhal::node::{
    after_dial, handle_event, receive_transaction, should_dial, ConnectedPoint, DialStep, SwarmEvent,
    DIAL_RETRY_DELAY_SECS, MAX_DIAL_ATTEMPTS,
};
use narwhal::p2p::{PeerManager, PeerStorage};
use narwhal::transaction::Transaction;

fn strings(v: &[&str]) -> Vec<String> {
    v.iter().map(|s| s.to_string()).collect()
}

fn sorted(mut v: Vec<String>) -> Vec<String> {
    v.sort();
    v
}

fn empty_manager() -> PeerManager {
    PeerManager::new("local".to_string(), &PeerStorage::default())
}

fn message(data: &str, parents: &[&str]) -> TransactionMessage {
    let t = Transaction::new(data.to_string(), strings(parents));
    TransactionMessage::from_transaction(t)
}

#[test]
fn kademlia_gets_identified_listen_addresses() {
    let e = Event::Identify(IdentifyEvent::Received {
        peer_id: "p".to_string(),
        listen_addrs: strings(&["a1", "a2"]),
    });
    assert_eq!(
        kademlia_additions_for(&e),
        vec![("p".to_string(), "a1".to_string()), ("p".to_string(), "a2".to_string())]
    );
}

#[test]
fn kademlia_gets_routing_update_addresses() {
    let e = Event::Kad(KademliaEvent::RoutingUpdated { peer: "q".to_string(), addresses: strings(&["b"]) });
    assert_eq!(kademlia_additions_for(&e), vec![("q".to_string(), "b".to_string())]);
}

#[test]
fn kademlia_ignores_other_events() {
    let e = Event::ConnectionEstablished { peer_id: "p".to_string(), endpoint: "e".to_string() };
    assert!(kademlia_additions_for(&e).is_empty());
    assert!(kademlia_additions_for(&Event::Kad(KademliaEvent::OutboundQueryProgressed)).is_empty());
    assert!(kademlia_additions_for(&Event::Identify(IdentifyEvent::Other)).is_empty());
}

#[test]
fn context_learns_routing_update_addresses() {
    let mut pm = empty_manager();
    let e = Event::Kad(KademliaEvent::RoutingUpdated { peer: "q".to_string(), addresses: strings(&["b1", "b2"]) });
    let u = context_updates(&mut pm, &e);
    assert_eq!(u.kademlia_additions.len(), 2);
    assert_eq!(u.snapshots.len(), 2);
    assert_eq!(pm.get_peers(), strings(&["q"]));
    assert_eq!(pm.get_peer_addr(&"q".to_string()), Some(&"b2".to_string()));
    assert_eq!(u.snapshots[0].addresses(), &vec![("q".to_string(), "b1".to_string())]);
    assert_eq!(u.snapshots[1].addresses(), &vec![("q".to_string(), "b2".to_string())]);
}

#[test]
fn context_learns_connection_endpoint() {
    let mut pm = empty_manager();
    let e = Event::ConnectionEstablished { peer_id: "p".to_string(), endpoint: "e".to_string() };
    let u = context_updates(&mut pm, &e);
    assert_eq!(u.kademlia_additions, vec![("p".to_string(), "e".to_string())]);
    assert_eq!(u.snapshots.len(), 1);
    assert_eq!(pm.get_peer_addr(&"p".to_string()), Some(&"e".to_string()));
}

#[test]
fn context_learns_identified_peer_without_kademlia() {
    let mut pm = empty_manager();
    let e = Event::Identify(IdentifyEvent::Received { peer_id: "p".to_string(), listen_addrs: strings(&["x", "y"]) });
    let u = context_updates(&mut pm, &e);
    assert!(u.kademlia_additions.is_empty());
    assert_eq!(u.snapshots.len(), 2);
    assert_eq!(pm.get_peer_addr(&"p".to_string()), Some(&"y".to_string()));
}

#[test]
fn context_ignores_request_response_events() {
    let mut pm = empty_manager();
    let e = Event::RequestResponse(RequestResponseEvent::OutboundFailure { peer: "p".to_string() });
    let u = context_updates(&mut pm, &e);
    assert!(u.kademlia_additions.is_empty());
    assert!(u.snapshots.is_empty());
    assert!(pm.get_peers().is_empty());
}

#[test]
fn requests_go_to_each_peer_in_order() {
    let m = message("d", &[]);
    let r = requests_for_peers(&strings(&["p1", "p2"]), &m);
    assert_eq!(r.len(), 2);
    assert_eq!(r[0].0, "p1");
    assert_eq!(r[1].0, "p2");
    assert_eq!(r[1].1.transaction_id, m.transaction_id);
}

#[test]
fn no_requests_without_peers() {
    let pm = empty_manager();
    assert!(send_transaction_to_peers(&pm, &message("d", &[])).is_empty());
}

#[test]
fn transaction_is_sent_to_every_known_peer() {
    let mut pm = empty_manager();
    pm.add_peer_with_addr("p1".to_string(), "a".to_string());
    pm.add_peer_with_addr("p2".to_string(), "b".to_string());
    pm.add_peer_with_addr("p1".to_string(), "c".to_string());
    let r = send_transaction_to_peers(&pm, &message("d", &[]));
    assert_eq!(sorted(r.iter().map(|x| x.0.clone()).collect()), strings(&["p1", "p2"]));
}

#[test]
fn dialed_connection_teaches_peer() {
    let mut pm = empty_manager();
    let mut dag = DAG::new();
    let e = SwarmEvent::ConnectionEstablished {
        peer_id: "p".to_string(),
        endpoint: ConnectedPoint::Dialer { address: "/ip4/1.2.3.4/tcp/1".to_string() },
    };
    let out = handle_event(&mut pm, &mut dag, &e);
    assert!(out.response.is_none());
    assert!(out.received.is_none());
    assert_eq!(out.snapshot.unwrap().peers(), &strings(&["p"]));
    assert_eq!(pm.get_peer_addr(&"p".to_string()), Some(&"/ip4/1.2.3.4/tcp/1".to_string()));
}

#[test]
fn listened_connection_teaches_nothing() {
    let mut pm = empty_manager();
    let mut dag = DAG::new();
    let e = SwarmEvent::ConnectionEstablished { peer_id: "p".to_string(), endpoint: ConnectedPoint::Listener };
    let out = handle_event(&mut pm, &mut dag, &e);
    assert!(out.snapshot.is_none());
    assert!(pm.get_peers().is_empty());
}

#[test]
fn received_request_is_acknowledged_and_added() {
    let mut pm = empty_manager();
    let mut dag = DAG::new();
    let m = message("hello", &[]);
    let e = SwarmEvent::Behaviour(Event::RequestResponse(RequestResponseEvent::Message {
        peer: "p".to_string(),
        message: RequestResponseMessage::Request { request: m.clone() },
    }));
    let out = handle_event(&mut pm, &mut dag, &e);
    let response = out.response.unwrap();
    assert_eq!(response.transaction_id, m.transaction_id);
    assert_eq!(response.transaction_data, "hello");
    let (t, added) = out.received.unwrap();
    assert!(added);
    assert_eq!(t.id, "c6402d15196824a049ad87c371a5047a673535c2ac8607e2bfa483f7591cc27a");
    assert!(dag.contains(&t.id));
    assert!(out.snapshot.is_none());
}

#[test]
fn received_response_is_added_without_answer() {
    let mut pm = empty_manager();
    let mut dag = DAG::new();
    let m = message("hello", &[]);
    let e = SwarmEvent::Behaviour(Event::RequestResponse(RequestResponseEvent::Message {
        peer: "p".to_string(),
        message: RequestResponseMessage::Response { response: m },
    }));
    let out = handle_event(&mut pm, &mut dag, &e);
    assert!(out.response.is_none());
    assert!(out.received.unwrap().1);
    assert_eq!(dag.get_all_transactions().len(), 1);
}

#[test]
fn received_orphan_is_not_added() {
    let mut pm = empty_manager();
    let mut dag = DAG::new();
    let e = SwarmEvent::Behaviour(Event::RequestResponse(RequestResponseEvent::Message {
        peer: "p".to_string(),
        message: RequestResponseMessage::Request { request: message("x", &["unknown"]) },
    }));
    let out = handle_event(&mut pm, &mut dag, &e);
    assert!(out.response.is_some());
    assert!(!out.received.unwrap().1);
    assert!(dag.get_all_transactions().is_empty());
}

#[test]
fn identified_peer_is_learned_with_first_address() {
    let mut pm = empty_manager();
    let mut dag = DAG::new();
    let e = SwarmEvent::Behaviour(Event::Identify(IdentifyEvent::Received {
        peer_id: "p".to_string(),
        listen_addrs: strings(&["first", "second"]),
    }));
    let out = handle_event(&mut pm, &mut dag, &e);
    assert!(out.snapshot.is_some());
    assert_eq!(pm.get_peer_addr(&"p".to_string()), Some(&"first".to_string()));
}

#[test]
fn identified_peer_without_addresses_is_not_learned() {
    let mut pm = empty_manager();
    let mut dag = DAG::new();
    let e = SwarmEvent::Behaviour(Event::Identify(IdentifyEvent::Received { peer_id: "p".to_string(), listen_addrs: vec![] }));
    let out = handle_event(&mut pm, &mut dag, &e);
    assert!(out.snapshot.is_none());
    assert!(pm.get_peers().is_empty());
}

#[test]
fn closed_connection_keeps_peer() {
    let mut pm = empty_manager();
    let mut dag = DAG::new();
    pm.add_peer_with_addr("p".to_string(), "a".to_string());
    let out = handle_event(&mut pm, &mut dag, &SwarmEvent::ConnectionClosed { peer_id: "p".to_string() });
    assert!(out.snapshot.is_none());
    assert_eq!(pm.get_peers(), strings(&["p"]));
    let out = handle_event(&mut pm, &mut dag, &SwarmEvent::Other);
    assert!(out.received.is_none());
}

#[test]
fn submitted_transaction_is_added_and_sent_to_peers() {
    let mut pm = empty_manager();
    pm.add_peer_with_addr("p1".to_string(), "a".to_string());
    pm.add_peer_with_addr("p2".to_string(), "b".to_string());
    let mut dag = DAG::new();
    let s = receive_transaction(&pm, &mut dag, "test transaction 1".to_string(), vec![]);
    assert!(s.added);
    assert_eq!(s.transaction.id, "ea23092e64d52882493b56f7a5c6d7e966a3ddc8af6eb7fac270d0ea43873503");
    assert!(dag.contains(&s.transaction.id));
    assert_eq!(s.requests.len(), 2);
    for (_, m) in &s.requests {
        assert_eq!(m.transaction_id, s.transaction.id);
        assert_eq!(m.transaction_data, "test transaction 1");
    }
}

#[test]
fn submitted_orphan_is_sent_but_not_added() {
    let mut pm = empty_manager();
    pm.add_peer_with_addr("p1".to_string(), "a".to_string());
    let mut dag = DAG::new();
    let s = receive_transaction(&pm, &mut dag, "x".to_string(), strings(&["missing"]));
    assert!(!s.added);
    assert!(!dag.contains(&s.transaction.id));
    assert_eq!(s.requests.len(), 1);
}

#[test]
fn dialing_stops_after_three_failures() {
    assert_eq!(MAX_DIAL_ATTEMPTS, 3);
    let mut failures = 0;
    let mut dials = 0;
    while should_dial(failures) {
        dials += 1;
        match after_dial(failures, false) {
            DialStep::RetryAfter { failures: f, delay_secs } => {
                assert_eq!(delay_secs, DIAL_RETRY_DELAY_SECS);
                assert_eq!(delay_secs, 2);
                failures = f;
            }
            DialStep::Connected => panic!("a failed dial does not connect"),
        }
    }
    assert_eq!(dials, 3);
    assert!(matches!(after_dial(0, true), DialStep::Connected));
    assert!(matches!(after_dial(2, true), DialStep::Connected));
}
