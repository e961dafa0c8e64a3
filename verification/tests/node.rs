//! The decisions of a node.

use mc_tunnel::addr::{
    circuit_text, parse_multiaddr, peer_id_from_ed25519, peer_id_from_multiaddr, Multiaddr,
    NetError,
};
use mc_tunnel::node::{
    add_bootstrap, handle_command, reserve_relays, start_listening, CommandStep, DoctorInfo,
    NetAction, NetCommand, NetConfig, NetEvent, NodeState, PeerAddr, Reply, StepOutcome, Survey,
    AGENT_VERSION, TUNNEL_PROTOCOL,
};
use mc_tunnel::record::{dht_key, Record, RecordBody, MAX_RECORD_BYTES};
use mc_tunnel::{keyid_from_pubkey, Identity};

const PEER: &str = "12D3KooWQK1wnefoLrcVHbbnf5tLzbopUd3K3bFAoJpA7YJgL5pV";

fn key() -> [u8; 32] {
    let hex = "d75a980182b10ab7d54bfed3c964073a0ee172f3daa62325af021a68f707511a";
    let mut key = [0u8; 32];
    for i in 0..32 {
        key[i] = u8::from_str_radix(&hex[2 * i..2 * i + 2], 16).unwrap();
    }
    key
}

fn addr(text: &str) -> Multiaddr {
    parse_multiaddr(text).unwrap()
}

fn peer_addr(peer: &str, addr: &str) -> PeerAddr {
    PeerAddr {
        peer: peer.to_string(),
        addr: addr.to_string(),
    }
}

#[test]
fn a_key_has_a_known_peer_id() {
    assert_eq!(peer_id_from_ed25519(&key()).unwrap(), PEER);
    let mut bad = [0; 32];
    bad[0] = 2;
    let e = peer_id_from_ed25519(&bad).unwrap_err();
    assert!(matches!(e, NetError::InvalidKey(_)));
    assert!(e.message().starts_with("invalid ed25519 public key: "));
}

#[test]
fn addresses_are_read() {
    let a = addr(&format!("/ip4/10.0.0.1/tcp/4001/p2p/{PEER}"));
    assert_eq!(peer_id_from_multiaddr(&a).as_deref(), Some(PEER));
    assert_eq!(a.components, vec![None, None, Some(PEER.to_string())]);
    assert_eq!(peer_id_from_multiaddr(&addr("/ip4/10.0.0.1/tcp/1")), None);
    // Through a relay, the peer is the one at the end.
    let relay = peer_id_from_ed25519(&Identity::generate().public_bytes()).unwrap();
    let through = addr(&format!("/ip4/10.0.0.1/tcp/1/p2p/{relay}/p2p-circuit/p2p/{PEER}"));
    assert_eq!(peer_id_from_multiaddr(&through).as_deref(), Some(PEER));
    let e = parse_multiaddr("no\"address").unwrap_err();
    match &e {
        NetError::InvalidMultiaddr { text, .. } => assert_eq!(text, "no\"address"),
        other => panic!("{other:?}"),
    }
    assert!(e.message().starts_with("invalid multiaddr \"no\\\"address\": "));
    assert!(parse_multiaddr(&circuit_text(&a)).is_ok());
}

#[test]
fn a_node_listens_on_all_interfaces_by_default() {
    let cfg = NetConfig::default();
    assert!(cfg.enable_mdns && !cfg.relay_server);
    assert_eq!(
        start_listening(&cfg),
        vec!["/ip4/0.0.0.0/tcp/0", "/ip4/0.0.0.0/udp/0/quic-v1"]
    );
    for text in start_listening(&cfg) {
        addr(&text);
    }
    let cfg = NetConfig {
        listen: vec![addr("/ip4/127.0.0.1/tcp/7")],
        ..NetConfig::default()
    };
    assert_eq!(start_listening(&cfg), vec!["/ip4/127.0.0.1/tcp/7"]);
}

#[test]
fn bootstrap_nodes_without_a_peer_are_skipped() {
    let with = format!("/ip4/10.0.0.1/tcp/4001/p2p/{PEER}");
    let without = "/ip4/10.0.0.2/tcp/4001";
    let cfg = NetConfig {
        bootstrap: vec![addr(without), addr(&with)],
        ..NetConfig::default()
    };
    let plan = add_bootstrap(&cfg);
    assert_eq!(plan.peers, vec![peer_addr(PEER, &with)]);
    assert_eq!(plan.skipped, vec![without]);
    assert!(plan.query);
    let cfg = NetConfig {
        bootstrap: vec![addr(without)],
        ..NetConfig::default()
    };
    assert!(!add_bootstrap(&cfg).query);
}

#[test]
fn relays_are_listened_on_through_a_circuit() {
    let with = format!("/ip4/10.0.0.1/tcp/4001/p2p/{PEER}");
    let cfg = NetConfig {
        reserve_relays: vec![addr(&with), addr("/ip4/10.0.0.2/tcp/1")],
        ..NetConfig::default()
    };
    let plan = reserve_relays(&cfg);
    assert_eq!(plan.len(), 2);
    assert_eq!(plan[0].relay, Some(peer_addr(PEER, &with)));
    assert_eq!(plan[0].circuit, format!("{with}/p2p-circuit"));
    assert_eq!(plan[1].relay, None);
    assert_eq!(plan[1].circuit, "/ip4/10.0.0.2/tcp/1/p2p-circuit");
}

#[test]
fn round_trip_times_are_kept_until_the_peer_is_gone() {
    let mut node = NodeState::new();
    let peer = || "p".to_string();
    assert_eq!(node.rtt_ms("p"), None);
    node.handle_event(NetEvent::Ping { peer: peer(), millis: 12 });
    assert_eq!(node.rtt_ms("p"), Some(12));
    node.handle_event(NetEvent::Ping { peer: peer(), millis: 7 });
    assert_eq!(node.rtt_ms("p"), Some(7));
    node.handle_event(NetEvent::ConnectionClosed { peer: peer(), remaining: 1 });
    assert_eq!(node.rtt_ms("p"), Some(7));
    node.handle_event(NetEvent::ConnectionClosed { peer: peer(), remaining: 0 });
    assert_eq!(node.rtt_ms("p"), None);
    assert_eq!(node.rtt_ms("q"), None);
}

#[test]
fn external_addresses_are_listed_once() {
    let mut node = NodeState::new();
    for a in ["/b", "/a", "/b"] {
        let todo = node.handle_event(NetEvent::ExternalAddress { address: a.to_string() });
        assert!(todo.is_empty());
    }
    let survey = Survey {
        peer_id: "me".to_string(),
        listen_addrs: vec!["/l".to_string()],
        connected_peers: 3,
        nat_status: "Public".to_string(),
    };
    match node.finish_command(StepOutcome::Surveyed(survey)) {
        Reply::Report(info) => {
            assert_eq!(info.external_addrs, vec!["/b", "/a"]);
            assert_eq!(info.peer_id, "me");
            assert_eq!(info.listen_addrs, vec!["/l"]);
            assert_eq!(info.connected_peers, 3);
            assert_eq!(info.nat_status, "Public");
        }
        _ => panic!("a survey is answered with a report"),
    }
    let empty = DoctorInfo::default();
    assert_eq!(empty.connected_peers, 0);
    assert!(empty.peer_id.is_empty() && empty.listen_addrs.is_empty());
}

#[test]
fn addresses_of_peers_are_passed_on() {
    let mut node = NodeState::new();
    let todo = node.handle_event(NetEvent::Identified {
        peer: "p".to_string(),
        listen_addrs: vec!["/1".to_string(), "/2".to_string()],
    });
    assert_eq!(todo.len(), 2);
    match (&todo[0], &todo[1]) {
        (NetAction::AddAddress(a), NetAction::AddAddress(b)) => {
            assert_eq!(*a, peer_addr("p", "/1"));
            assert_eq!(*b, peer_addr("p", "/2"));
        }
        _ => panic!("addresses are added"),
    }
    let todo = node.handle_event(NetEvent::Discovered {
        peers: vec![peer_addr("p", "/1"), peer_addr("q", "/2")],
    });
    assert_eq!(todo.len(), 4);
    match (&todo[2], &todo[3]) {
        (NetAction::AddAddress(a), NetAction::Dial(b)) => {
            assert_eq!(*a, peer_addr("q", "/2"));
            assert_eq!(b, "/2");
        }
        _ => panic!("peers are added and called"),
    }
    assert!(node.handle_event(NetEvent::Other).is_empty());
}

#[test]
fn a_lookup_returns_all_that_was_found() {
    let mut node = NodeState::new();
    assert!(matches!(
        node.finish_command(StepOutcome::GetStarted(1)),
        Reply::Wait
    ));
    let found = |query: u64, value: Vec<u8>| NetEvent::RecordFound { query, value };
    node.handle_event(found(1, vec![1]));
    node.handle_event(found(2, vec![9]));
    node.handle_event(found(1, vec![0; MAX_RECORD_BYTES + 1]));
    node.handle_event(found(1, vec![2; MAX_RECORD_BYTES]));
    node.handle_event(NetEvent::GetFinished { query: 2 });
    let todo = node.handle_event(NetEvent::GetFinished { query: 1 });
    match &todo[..] {
        [NetAction::AnswerGet { query: 1, records }] => {
            assert_eq!(*records, vec![vec![1], vec![2; MAX_RECORD_BYTES]]);
        }
        _ => panic!("the lookup is answered"),
    }
    assert!(node.handle_event(NetEvent::GetFinished { query: 1 }).is_empty());
}

#[test]
fn a_put_is_answered_once() {
    let mut node = NodeState::new();
    assert!(matches!(
        node.finish_command(StepOutcome::PutStarted(1)),
        Reply::Wait
    ));
    node.finish_command(StepOutcome::PutStarted(2));
    let todo = node.handle_event(NetEvent::PutFinished { query: 1, error: None });
    assert!(matches!(
        &todo[..],
        [NetAction::AnswerPut { query: 1, result: Ok(()) }]
    ));
    let again = node.handle_event(NetEvent::PutFinished { query: 1, error: None });
    assert!(again.is_empty());
    let todo = node.handle_event(NetEvent::PutFinished {
        query: 2,
        error: Some("no quorum".to_string()),
    });
    match &todo[..] {
        [NetAction::AnswerPut { query: 2, result: Err(why) }] => {
            assert_eq!(why, "put failed: no quorum")
        }
        _ => panic!("the failure is reported"),
    }
}

#[test]
fn inbound_records_are_stored_if_they_are_the_owners() {
    let id = Identity::generate();
    let place = dht_key(&keyid_from_pubkey(&id.public_bytes(), 26)).to_vec();
    let body = RecordBody {
        v: 1,
        pubkey: id.public_bytes(),
        peer_id: String::new(),
        addrs: vec![],
        vanity: String::new(),
        ts: 1000,
        ttl: 60,
    };
    let bytes = Record::sign(body, id.signing_key()).to_bytes();
    let mut node = NodeState::new();
    let event = |stored: Option<Vec<u8>>| NetEvent::InboundPut {
        key: place.clone(),
        value: bytes.clone(),
        stored,
        now: 1010,
    };
    match &node.handle_event(event(None))[..] {
        [NetAction::Store { key, value, expires_in: 50 }] => {
            assert_eq!(*key, place);
            assert_eq!(*value, bytes);
        }
        _ => panic!("the record is stored"),
    }
    assert!(node.handle_event(event(Some(bytes.clone()))).is_empty());
}

#[test]
fn commands_become_steps() {
    match handle_command(
        NetCommand::PutRecord { key: vec![1], value: b"x".to_vec() },
        5,
    ) {
        CommandStep::Put { key, value, expires_in } => {
            assert_eq!(key, vec![1]);
            assert_eq!(value, b"x".to_vec());
            assert_eq!(expires_in, None);
        }
        _ => panic!("a put"),
    }
    assert!(matches!(
        handle_command(NetCommand::GetRecord { key: vec![2] }, 5),
        CommandStep::Get { key } if key == vec![2]
    ));
    assert!(matches!(
        handle_command(NetCommand::Dial { addr: "/a".to_string() }, 5),
        CommandStep::Dial { addr } if addr == "/a"
    ));
    assert!(matches!(
        handle_command(NetCommand::Doctor, 5),
        CommandStep::Survey
    ));
    let mut node = NodeState::new();
    assert!(matches!(
        node.finish_command(StepOutcome::Dialed),
        Reply::Done(Ok(()))
    ));
    assert!(matches!(
        node.finish_command(StepOutcome::DialRefused("no".to_string())),
        Reply::Done(Err(why)) if why == "dial failed: no"
    ));
    assert!(matches!(
        node.finish_command(StepOutcome::PutRefused("full".to_string())),
        Reply::Done(Err(why)) if why == "put_record failed: full"
    ));
    assert_eq!(TUNNEL_PROTOCOL, "/mc-tunnel/1.0.0");
    assert_eq!(AGENT_VERSION, "mc-tunnel/1.0.0");
}
