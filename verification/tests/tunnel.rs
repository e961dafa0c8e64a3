//! Publishing and resolving.

use mc_tunnel::addr::NetError;
use mc_tunnel::node::DoctorInfo;
use mc_tunnel::order::{insert_sorted, is_before};
use mc_tunnel::record::{dht_key, Record};
use mc_tunnel::store::{decide_inbound, Inbound};
use mc_tunnel::tunnel::{
    advertised_addrs, build_record, check_peer, connect_banner, dial_plan, doctor_json,
    doctor_report, exposed, is_dialable, net_config, next_round_in, publication, publish_banner,
    publish_round, relay_config, relay_report, resolve_step, EstablishError, NetOpts, ResolveStep,
    Round, MAX_SKEW, REFRESH_SECS, RETRY_SECS,
};
use mc_tunnel::{CoreError, Identity, Name};

const NOW: u64 = 1_900_000_000;
const PEER: &str = "12D3KooWQK1wnefoLrcVHbbnf5tLzbopUd3K3bFAoJpA7YJgL5pV";

fn strings(list: &[&str]) -> Vec<String> {
    list.iter().map(|s| s.to_string()).collect()
}

fn rfc_identity() -> Identity {
    let hex = "9d61b19deffd5a60ba844af492ec2cc44449c5697b326919703bac031cae7f60";
    let mut secret = [0u8; 32];
    for i in 0..32 {
        secret[i] = u8::from_str_radix(&hex[2 * i..2 * i + 2], 16).unwrap();
    }
    Identity::from_secret_bytes(&secret)
}

fn opts<'a>(bootstrap: &'a [String], relays: &'a [String], reserve: bool) -> NetOpts<'a> {
    NetOpts {
        bootstrap,
        relays,
        use_ipfs_dht: false,
        enable_mdns: true,
        reserve,
        relay_server: false,
    }
}

fn info() -> DoctorInfo {
    DoctorInfo {
        peer_id: "me".to_string(),
        listen_addrs: strings(&["/ip4/10.0.0.2/tcp/1", "/ip4/0.0.0.0/tcp/1", "/ip6/::/tcp/1"]),
        external_addrs: strings(&["/ip4/1.2.3.4/tcp/1", "/ip4/10.0.0.2/tcp/1"]),
        connected_peers: 4,
        nat_status: "Unknown".to_string(),
    }
}

#[test]
fn slots_are_reserved_on_relays_or_on_bootstrap_nodes() {
    let b = strings(&["/ip4/10.0.0.1/tcp/1"]);
    let r = strings(&["/ip4/10.0.0.2/tcp/2"]);
    let none = strings(&[]);
    let cfg = net_config(opts(&b, &r, true)).unwrap();
    assert_eq!(cfg.bootstrap[0].text, b[0]);
    assert_eq!(cfg.reserve_relays[0].text, r[0]);
    assert!(cfg.listen.is_empty() && cfg.enable_mdns && !cfg.relay_server);
    let cfg = net_config(opts(&b, &none, true)).unwrap();
    assert_eq!(cfg.reserve_relays, cfg.bootstrap);
    let cfg = net_config(opts(&b, &r, false)).unwrap();
    assert!(cfg.reserve_relays.is_empty());
}

#[test]
fn the_first_bad_address_is_reported() {
    let bad = strings(&["/ip4/10.0.0.1/tcp/1", "x", "y"]);
    let none = strings(&[]);
    match net_config(opts(&bad, &none, false)) {
        Err(NetError::InvalidMultiaddr { text, .. }) => assert_eq!(text, "x"),
        other => panic!("{other:?}"),
    }
    match net_config(opts(&none, &bad, true)) {
        Err(NetError::InvalidMultiaddr { text, .. }) => assert_eq!(text, "x"),
        other => panic!("{other:?}"),
    }
    // Relays that are not used are not read.
    assert!(net_config(opts(&none, &bad, false)).is_ok());
}

#[test]
fn a_relay_listens_on_its_port() {
    let cfg = relay_config(4001, false).unwrap();
    let listen: Vec<&str> = cfg.listen.iter().map(|a| a.text.as_str()).collect();
    assert_eq!(
        listen,
        vec!["/ip4/0.0.0.0/tcp/4001", "/ip4/0.0.0.0/udp/4001/quic-v1"]
    );
    assert!(cfg.relay_server && !cfg.enable_mdns);
    assert!(relay_config(65535, true).is_ok());
}

#[test]
fn a_relay_tells_its_addresses() {
    assert_eq!(
        relay_report(&info()),
        strings(&[
            "Relay/bootstrap node running.",
            "  peer id : me",
            "Add one of these to other nodes' config.toml [network] bootstrap:",
            "  /ip4/10.0.0.2/tcp/1/p2p/me",
            "Press Ctrl-C to stop.",
        ])
    );
}

#[test]
fn advertised_addresses_are_sorted_and_dialable() {
    assert_eq!(
        advertised_addrs(&info()),
        strings(&["/ip4/1.2.3.4/tcp/1", "/ip4/10.0.0.2/tcp/1"])
    );
    assert!(!is_dialable("/ip4/0.0.0.0/tcp/1"));
    assert!(is_dialable("/ip4/10.0.0.0/tcp/1"));
    assert!(advertised_addrs(&DoctorInfo::default()).is_empty());
}

#[test]
fn texts_are_ordered_like_strings() {
    let list = ["", "a", "aa", "ab", "b", "\u{e9}", "\u{ffff}", "\u{1f600}"];
    for a in list {
        for b in list {
            assert_eq!(is_before(a, b), a < b);
        }
    }
    let mut sorted: Vec<String> = Vec::new();
    for t in ["b", "a", "c", "a", "b"] {
        insert_sorted(&mut sorted, t.to_string());
    }
    assert_eq!(sorted, strings(&["a", "b", "c"]));
}

#[test]
fn what_is_published_is_found() {
    let id = Identity::generate();
    let p = publication(&id, "survival", 26).unwrap();
    assert_eq!(p.key, dht_key(&p.name.keyid));
    let round = publish_round(&id, "survival", "peer", Some(strings(&["/a"])), NOW);
    let bytes = match round {
        Round::Put(bytes) => bytes,
        Round::Retry => panic!("there is an address"),
    };
    let record = Record::from_bytes(&bytes).unwrap();
    assert_eq!(record.body.ttl, 600);
    assert_eq!(record.body.ts, NOW);
    assert_eq!(record.body.vanity, "survival");
    assert_eq!(record.body.peer_id, "peer");
    assert_eq!(record.body.pubkey, id.public_bytes());
    assert_eq!(
        decide_inbound(&p.key, &bytes, &None, NOW),
        Inbound::Store(600)
    );
    for now in [NOW, NOW + REFRESH_SECS, NOW - MAX_SKEW] {
        match resolve_step(&p.name, &[bytes.clone()], now, u64::MAX) {
            ResolveStep::Found(found) => assert_eq!(found, record),
            _ => panic!("the record is fresh"),
        }
    }
}

#[test]
fn publishing_waits_for_addresses() {
    let id = Identity::generate();
    assert!(matches!(
        publish_round(&id, "", "peer", None, NOW),
        Round::Retry
    ));
    assert!(matches!(
        publish_round(&id, "", "peer", Some(vec![]), NOW),
        Round::Retry
    ));
    assert_eq!(next_round_in(true), 300);
    assert_eq!(next_round_in(false), 5);
    assert_eq!((REFRESH_SECS, RETRY_SECS), (300, 5));
}

#[test]
fn publishing_needs_a_valid_name() {
    let id = Identity::generate();
    assert!(matches!(
        publication(&id, "", 15),
        Err(CoreError::KeyidLen { len: 15, min: 16, max: 52 })
    ));
    assert!(matches!(
        publication(&id, "UPPER", 16),
        Err(CoreError::VanityCharset)
    ));
}

#[test]
fn resolving_gives_up_after_its_time() {
    let name = Name::parse("abcdefgh23456722.minecraft").unwrap();
    assert!(matches!(
        resolve_step(&name, &[], NOW, 44_999),
        ResolveStep::Again
    ));
    match resolve_step(&name, &[b"junk".to_vec()], NOW, 45_000) {
        ResolveStep::GiveUp(why) => assert_eq!(
            why,
            "could not resolve abcdefgh23456722.minecraft within 45s (no record in the DHT \u{2014} is the publisher running and on a reachable network?)"
        ),
        _ => panic!("the time is over"),
    }
}

#[test]
fn only_the_peer_of_the_key_is_called() {
    let id = rfc_identity();
    let addrs = strings(&["/ip4/10.0.0.1/tcp/1", "nonsense"]);
    let record = build_record(&id, "", PEER.to_string(), addrs.clone(), NOW);
    let plan = dial_plan(&record).ok().expect("the peer is the right one");
    assert_eq!(plan.peer, PEER);
    assert_eq!(plan.addrs.len(), 1);
    assert_eq!(plan.addrs[0].text, addrs[0]);
    let record = build_record(&id, "", "somebody else".to_string(), addrs, NOW);
    match dial_plan(&record) {
        Err(e) => {
            assert_eq!(e, EstablishError::PeerMismatch);
            assert_eq!(
                e.message(),
                "record peer_id does not match its signed pubkey \u{2014} refusing to connect"
            );
        }
        Ok(_) => panic!("the peer is another one"),
    }
    assert_eq!(check_peer(&record, "somebody else"), Ok(()));
    let mut record = record;
    record.body.pubkey = [0; 32];
    record.body.pubkey[0] = 2;
    assert!(matches!(dial_plan(&record), Err(EstablishError::Key(_))));
}

#[test]
fn exposed_addresses_are_noticed() {
    assert!(!exposed("127.0.0.1:1", Some(true)));
    assert!(exposed("0.0.0.0:1", Some(false)));
    assert!(exposed("localhost:1", None));
    assert!(!exposed("127.foo:1", None));
    assert!(!exposed("[::1]", None));
}

#[test]
fn users_are_told_what_to_do() {
    let name = Name::parse("survival.abcdefgh23456722.minecraft").unwrap();
    assert_eq!(
        publish_banner(&name, "peer", "127.0.0.1:25565"),
        strings(&[
            "Publishing: survival.abcdefgh23456722.minecraft",
            "  keyid   : abcdefgh23456722",
            "  peer id : peer",
            "  target  : 127.0.0.1:25565",
            "Share this address; connect with:  mc-tunnel connect survival.abcdefgh23456722.minecraft",
            "Press Ctrl-C to stop.",
        ])
    );
    assert_eq!(
        connect_banner("peer", "127.0.0.1:25566"),
        strings(&[
            "Resolved to peer peer",
            "Local port : 127.0.0.1:25566",
            "Add a Minecraft server pointing at 127.0.0.1:25566 and join.",
            "Press Ctrl-C to stop.",
        ])
    );
}

#[test]
fn nodes_are_described() {
    let mut i = info();
    i.listen_addrs.truncate(1);
    assert_eq!(
        doctor_json(&i),
        r#"{"peer_id":"me","connected_peers":4,"nat_status":"Unknown","listen_addrs":["/ip4/10.0.0.2/tcp/1"],"external_addrs":["/ip4/1.2.3.4/tcp/1","/ip4/10.0.0.2/tcp/1"]}"#
    );
    assert_eq!(
        doctor_report(&i),
        strings(&[
            "peer id          : me",
            "connected peers  : 4",
            "NAT status       : Unknown",
            "listen addrs     :",
            "  /ip4/10.0.0.2/tcp/1",
            "external addrs   :",
            "  /ip4/1.2.3.4/tcp/1",
            "  /ip4/10.0.0.2/tcp/1",
        ])
    );
    let empty = DoctorInfo::default();
    assert_eq!(
        doctor_json(&empty),
        r#"{"peer_id":"","connected_peers":0,"nat_status":"","listen_addrs":[],"external_addrs":[]}"#
    );
    assert_eq!(doctor_report(&empty)[5], "  (none confirmed yet)");
}
