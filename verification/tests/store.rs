//! What a node stores.

use mc_tunnel::record::{dht_key, Record, RecordBody};
use mc_tunnel::store::{
    decide_inbound, is_newer_than_stored, lifetime_of, seconds_left, validate_inbound_record,
    Inbound,
};
use mc_tunnel::{keyid_from_pubkey, Identity};

const NOW: u64 = 1_900_000_000;

fn record(id: &Identity, ts: u64) -> Vec<u8> {
    let body = RecordBody {
        v: 1,
        pubkey: id.public_bytes(),
        peer_id: "peer".to_string(),
        addrs: vec![],
        vanity: String::new(),
        ts,
        ttl: 600,
    };
    Record::sign(body, id.signing_key()).to_bytes()
}

fn place(id: &Identity, len: usize) -> [u8; 32] {
    dht_key(&keyid_from_pubkey(&id.public_bytes(), len))
}

#[test]
fn the_owner_may_store_at_each_keyid_length() {
    let id = Identity::generate();
    let value = record(&id, NOW);
    for len in 1..=52 {
        assert!(validate_inbound_record(&place(&id, len), &value).is_some());
    }
    assert!(validate_inbound_record(&dht_key(""), &value).is_none());
    assert!(validate_inbound_record(&place(&id, 26)[..31], &value).is_none());
}

#[test]
fn others_may_not_store() {
    let owner = Identity::generate();
    let other = Identity::generate();
    assert_eq!(
        decide_inbound(&place(&owner, 26), &record(&other, NOW), &None, NOW),
        Inbound::Invalid
    );
    assert_eq!(
        decide_inbound(&place(&owner, 26), b"junk", &None, NOW),
        Inbound::Invalid
    );
}

#[test]
fn records_from_the_future_are_dropped() {
    let id = Identity::generate();
    let key = place(&id, 26);
    assert_eq!(
        decide_inbound(&key, &record(&id, NOW + 600), &None, NOW),
        Inbound::Store(1200)
    );
    assert_eq!(
        decide_inbound(&key, &record(&id, NOW + 601), &None, NOW),
        Inbound::FromFuture
    );
    assert_eq!(
        decide_inbound(&key, &record(&id, u64::MAX), &None, u64::MAX),
        Inbound::Store(600)
    );
}

#[test]
fn only_newer_records_replace() {
    let id = Identity::generate();
    let key = place(&id, 26);
    let stored = Some(record(&id, NOW));
    assert_eq!(
        decide_inbound(&key, &record(&id, NOW), &stored, NOW),
        Inbound::NotNewer
    );
    assert_eq!(
        decide_inbound(&key, &record(&id, NOW - 1), &stored, NOW),
        Inbound::NotNewer
    );
    assert_eq!(
        decide_inbound(&key, &record(&id, NOW + 1), &stored, NOW),
        Inbound::Store(601)
    );
    assert_eq!(
        decide_inbound(&key, &record(&id, NOW - 1), &Some(b"junk".to_vec()), NOW),
        Inbound::Store(599)
    );
    assert!(is_newer_than_stored(&None, 0));
}

#[test]
fn records_live_until_their_time_is_over() {
    assert_eq!(seconds_left(100, 600, 100), 600);
    assert_eq!(seconds_left(100, 600, 699), 1);
    assert_eq!(seconds_left(100, 600, 700), 0);
    assert_eq!(seconds_left(100, 600, 10_000), 0);
    assert_eq!(seconds_left(u64::MAX, 600, 0), u64::MAX);
    assert_eq!(seconds_left(0, 0, 0), 0);
    let id = Identity::generate();
    assert_eq!(lifetime_of(&record(&id, NOW), NOW + 100), Some(500));
    assert_eq!(lifetime_of(b"no record", NOW), None);
}

/// What is at a place after values were sent for it.
fn after(key: &[u8], sent: &[&Vec<u8>]) -> Option<Vec<u8>> {
    let mut stored = None;
    for value in sent {
        if let Inbound::Store(_) = decide_inbound(key, value, &stored, NOW) {
            stored = Some(value.to_vec());
        }
    }
    stored
}

#[test]
fn the_order_of_arrival_does_not_matter() {
    let id = Identity::generate();
    let other = Identity::generate();
    let key = place(&id, 16);
    let (old, new) = (record(&id, NOW - 5), record(&id, NOW));
    let foreign = record(&other, NOW + 100);
    let future = record(&id, NOW + 5000);
    assert_eq!(after(&key, &[&old, &new]), Some(new.clone()));
    assert_eq!(after(&key, &[&new, &old]), Some(new.clone()));
    assert_eq!(
        after(&key, &[&foreign, &new, &future, &old, &foreign]),
        Some(new)
    );
    assert_eq!(after(&key, &[&foreign, &future]), None);
}
