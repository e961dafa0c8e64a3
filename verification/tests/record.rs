//! The bytes of records, and what is read from bytes.

use mc_tunnel::error::VerifyError;
use mc_tunnel::name::{keyid_from_pubkey, keyid_full_from_pubkey, keyid_matches_pubkey};
use mc_tunnel::record::{dht_key, select_verified, Record, RecordBody, MAX_RECORD_BYTES};
use mc_tunnel::Identity;

const SECRET: &str = "9d61b19deffd5a60ba844af492ec2cc44449c5697b326919703bac031cae7f60";
const PUBLIC: &str = "d75a980182b10ab7d54bfed3c964073a0ee172f3daa62325af021a68f707511a";
const KEYID: &str = "eh7ddx5bksrgcytl7bkai36se4nxx3klnk7elksyq57pi74xeg4q";
const BODY: &str = "a7617601667075626b65795820d75a980182b10ab7d54bfed3c964073a0ee172f3daa62325af021a68f707511a67706565725f6964647065657265616464727382622f61622f626676616e697479606274731a713fb3006374746c190258";
const SIG: &str = "915efa4b8a86b5e74ad3658326e8408017e6e3fb0608e41197b516782d834501cef9685e533f0aaf4045993e03c04ede5bd2679fb7f0811fcbc495b65244cd07";

fn unhex(s: &str) -> Vec<u8> {
    (0..s.len() / 2)
        .map(|i| u8::from_str_radix(&s[2 * i..2 * i + 2], 16).unwrap())
        .collect()
}

fn identity() -> Identity {
    let mut secret = [0u8; 32];
    secret.copy_from_slice(&unhex(SECRET));
    Identity::from_secret_bytes(&secret)
}

fn body() -> RecordBody {
    RecordBody {
        v: 1,
        pubkey: identity().public_bytes(),
        peer_id: "peer".to_string(),
        addrs: vec!["/a".to_string(), "/b".to_string()],
        vanity: String::new(),
        ts: 1_900_000_000,
        ttl: 600,
    }
}

fn record_bytes() -> Vec<u8> {
    Record::sign(body(), identity().signing_key()).to_bytes()
}

fn malformed(bytes: &[u8]) -> String {
    match Record::from_bytes(bytes) {
        Err(VerifyError::Malformed(why)) => why,
        other => panic!("{other:?}"),
    }
}

/// A text with its CBOR head; shorter than 24 bytes.
fn text(s: &str) -> Vec<u8> {
    let mut out = vec![0x60 + s.len() as u8];
    out.extend_from_slice(s.as_bytes());
    out
}

fn entry(name: &str, value: &[u8]) -> Vec<u8> {
    let mut out = text(name);
    out.extend_from_slice(value);
    out
}

fn map(entries: &[Vec<u8>]) -> Vec<u8> {
    let mut out = vec![0xa0 + entries.len() as u8];
    for e in entries {
        out.extend_from_slice(e);
    }
    out
}

/// The seven fields of a body, in order.
fn fields() -> Vec<Vec<u8>> {
    let mut key = vec![0x58, 32];
    key.extend_from_slice(&unhex(PUBLIC));
    vec![
        entry("v", &[1]),
        entry("pubkey", &key),
        entry("peer_id", &text("peer")),
        entry("addrs", &[0x82, 0x62, b'/', b'a', 0x62, b'/', b'b']),
        entry("vanity", &text("")),
        entry("ts", &[0x1a, 0x71, 0x3f, 0xb3, 0x00]),
        entry("ttl", &[0x19, 0x02, 0x58]),
    ]
}

fn sig_entry() -> Vec<u8> {
    let mut sig = vec![0x58, 64];
    sig.extend_from_slice(&unhex(SIG));
    entry("sig", &sig)
}

fn record_of(fields: &[Vec<u8>]) -> Vec<u8> {
    map(&[entry("body", &map(fields)), sig_entry()])
}

#[test]
fn keys_and_names_have_known_values() {
    let id = identity();
    assert_eq!(id.public_bytes().to_vec(), unhex(PUBLIC));
    assert_eq!(id.secret_bytes().bytes().to_vec(), unhex(SECRET));
    assert_eq!(keyid_full_from_pubkey(&id.public_bytes()), KEYID);
    assert_eq!(keyid_from_pubkey(&id.public_bytes(), 26), &KEYID[..26]);
    assert_eq!(keyid_from_pubkey(&id.public_bytes(), 100), KEYID);
    assert_eq!(
        dht_key(&KEYID[..26]).to_vec(),
        unhex("49d323d364b792cec92ad8c8a7194eab7aa221318768c8de536b78924dbf77f9")
    );
}

#[test]
fn a_keyid_matches_at_each_length_and_no_other_does() {
    let pk = identity().public_bytes();
    for len in 0..=52 {
        assert!(keyid_matches_pubkey(&KEYID[..len], &pk));
    }
    assert!(!keyid_matches_pubkey(&KEYID[1..20], &pk));
    assert!(!keyid_matches_pubkey("EH7DDX5B", &pk));
    let longer = KEYID.to_string() + "a";
    assert!(!keyid_matches_pubkey(&longer, &pk));
}

#[test]
fn canonical_bytes_are_fixed() {
    assert_eq!(body().canonical_bytes(), unhex(BODY));
    let rec = Record::sign(body(), identity().signing_key());
    assert_eq!(rec.sig.to_vec(), unhex(SIG));
    assert!(rec.signature_valid());
}

#[test]
fn serialized_bytes_are_fixed() {
    let bytes = record_bytes();
    assert_eq!(bytes, record_of(&fields()));
    assert_eq!(bytes.len(), 170);
    assert_eq!(
        Record::from_bytes(&bytes).unwrap(),
        Record::sign(body(), identity().signing_key())
    );
}

#[test]
fn canonical_bytes_tell_bodies_apart() {
    let a = body().canonical_bytes();
    let mut other = body();
    other.ttl = 601;
    assert_ne!(a, other.canonical_bytes());
    let mut other = body();
    other.addrs = vec!["/a/b".to_string()];
    assert_ne!(a, other.canonical_bytes());
}

#[test]
fn fields_may_come_in_any_order_and_with_others() {
    let expected = Record::from_bytes(&record_bytes()).unwrap();
    let mut f = fields();
    f.reverse();
    f.push(entry("note", &[0xf6]));
    assert_eq!(Record::from_bytes(&record_of(&f)).unwrap(), expected);
}

#[test]
fn missing_fields_are_named() {
    for (i, name) in ["v", "pubkey", "peer_id", "addrs", "vanity", "ts", "ttl"]
        .iter()
        .enumerate()
    {
        let mut f = fields();
        f.remove(i);
        assert_eq!(
            malformed(&record_of(&f)),
            format!("Semantic(None, \"missing field `{name}`\")")
        );
    }
    assert_eq!(
        malformed(&map(&[entry("body", &map(&fields()))])),
        "Semantic(None, \"missing field `sig`\")"
    );
    // Of several the first in the order of the format is named.
    assert_eq!(
        malformed(&record_of(&[])),
        "Semantic(None, \"missing field `v`\")"
    );
    assert_eq!(
        malformed(&map(&[])),
        "Semantic(None, \"missing field `body`\")"
    );
}

#[test]
fn duplicate_fields_are_refused() {
    let mut f = fields();
    f.push(entry("ttl", &[1]));
    assert_eq!(
        malformed(&record_of(&f)),
        "Semantic(None, \"duplicate field `ttl`\")"
    );
    // The second is not looked at.
    f.pop();
    f.push(entry("ttl", &[0xff]));
    assert_eq!(
        malformed(&record_of(&f)),
        "Semantic(None, \"duplicate field `ttl`\")"
    );
}

#[test]
fn fields_of_a_wrong_type_are_refused() {
    let wrong: [(usize, &str, &[u8], &str); 7] = [
        (0, "v", &[0x19, 0x01, 0x00], "invalid value: integer `256`, expected u8"),
        (1, "pubkey", &[0x41, 0x00], "invalid length 1, expected a byte array of length 32"),
        (2, "peer_id", &[0x01], "invalid type: integer `1`, expected string"),
        (3, "addrs", &[0x81, 0x01], "invalid type: integer `1`, expected string"),
        (4, "vanity", &[0xf6], "invalid type: null, expected string"),
        (5, "ts", &[0x20], "unexpected negative integer"),
        (6, "ttl", &[0x1b, 0, 0, 0, 1, 0, 0, 0, 0], "invalid value: integer `4294967296`, expected u32"),
    ];
    let semantic = |words: &str| format!("Semantic(None, \"{words}\")");
    for (i, name, value, words) in wrong {
        let mut f = fields();
        f[i] = entry(name, value);
        assert_eq!(malformed(&record_of(&f)), semantic(words));
    }
    assert_eq!(malformed(&[0x01]), semantic("invalid type: integer `1`, expected map"));
    assert!(malformed(&[]).starts_with("Io("));
    assert_eq!(malformed(&[0xa1, 0x61, 0xff]), "Syntax(1)");
    assert_eq!(malformed(&[0x1c]), "Syntax(0)");
    let mut deep = vec![0xa1, 0x61, b'x'];
    deep.resize(500, 0x81);
    assert_eq!(malformed(&deep), "RecursionLimitExceeded");
    // The fault that comes first in the bytes is the one that is named.
    let mut f = fields();
    f[6] = entry("ttl", &[0xf6]);
    f[0] = entry("v", &text("1"));
    assert_eq!(malformed(&record_of(&f)), semantic("invalid type: string, expected integer"));
    f[0] = entry("w", &[1]);
    assert_eq!(malformed(&record_of(&f)), semantic("invalid type: null, expected integer"));
}

#[test]
fn any_number_of_tags_is_skipped() {
    let expected = Record::from_bytes(&record_bytes()).unwrap();
    for n in [1, 256, 257, 2000] {
        let mut tagged = vec![0xc0; n];
        tagged.extend_from_slice(&record_bytes());
        assert_eq!(Record::from_bytes(&tagged).unwrap(), expected);
        let mut f = fields();
        let mut value = vec![0xd8; n];
        value = value.iter().flat_map(|b| [*b, 0x20]).collect();
        value.push(1);
        f[0] = entry("v", &value);
        assert_eq!(Record::from_bytes(&record_of(&f)).unwrap(), expected);
    }
}

#[test]
fn names_are_texts_or_byte_strings_of_known_length() {
    let expected = Record::from_bytes(&record_bytes()).unwrap();
    // A byte string, also under a tag.
    for form in [vec![0x41, b'v', 1], vec![0xc2, 0x41, b'v', 1], vec![0xc3, 0x78, 1, b'v', 1]] {
        let mut f = fields();
        f[0] = form;
        assert_eq!(Record::from_bytes(&record_of(&f)).unwrap(), expected);
    }
    // In parts, or too long.
    let mut long = vec![0x79, 0x10, 0x01];
    long.resize(3 + 4097, b'x');
    long.push(1);
    for form in [vec![0x7f, 0x61, b'x', 0xff, 1], vec![0x5f, 0x41, b'x', 0xff, 1], long, vec![1, 1]] {
        let mut f = fields();
        f.push(form);
        malformed(&record_of(&f));
    }
    let mut longest = vec![0x79, 0x10, 0x00];
    longest.resize(3 + 4096, b'x');
    longest.push(1);
    let mut f = fields();
    f.push(longest);
    assert_eq!(Record::from_bytes(&record_of(&f)).unwrap(), expected);
}

#[test]
fn maps_may_be_ended_by_a_mark_and_byte_strings_not() {
    let expected = Record::from_bytes(&record_bytes()).unwrap();
    let mut body = map(&fields());
    body[0] = 0xbf;
    body.push(0xff);
    let mut whole = map(&[entry("body", &body), sig_entry()]);
    whole[0] = 0xbf;
    whole.push(0xff);
    assert_eq!(Record::from_bytes(&whole).unwrap(), expected);
    // What comes behind a record is not looked at.
    whole.extend_from_slice(b"more");
    assert_eq!(Record::from_bytes(&whole).unwrap(), expected);

    let mut key = vec![0x5f, 0x58, 32];
    key.extend_from_slice(&unhex(PUBLIC));
    key.push(0xff);
    let mut f = fields();
    f[1] = entry("pubkey", &key);
    malformed(&record_of(&f));
    // An empty list may be an empty byte string.
    let mut f = fields();
    f[3] = entry("addrs", &[0xc2, 0x40]);
    assert!(Record::from_bytes(&record_of(&f)).unwrap().body.addrs.is_empty());
}

#[test]
fn a_key_may_be_an_array_of_numbers() {
    let mut value = vec![0x98, 32];
    for b in unhex(PUBLIC) {
        if b < 24 {
            value.push(b);
        } else {
            value.extend_from_slice(&[0x18, b]);
        }
    }
    let mut f = fields();
    f[1] = entry("pubkey", &value);
    let rec = Record::from_bytes(&record_of(&f)).unwrap();
    assert_eq!(rec, Record::from_bytes(&record_bytes()).unwrap());
}

#[test]
fn long_lists_read_back() {
    let mut b = body();
    b.addrs = (0..400).map(|i| format!("/ip4/10.0.0.1/tcp/{i}")).collect();
    b.vanity = "\u{1f600} \" \\ \n".to_string();
    b.ts = u64::MAX;
    b.ttl = u32::MAX;
    let rec = Record::sign(b, identity().signing_key());
    let bytes = rec.to_bytes();
    assert!(bytes.len() > MAX_RECORD_BYTES);
    assert_eq!(
        Record::from_bytes(&bytes),
        Err(VerifyError::TooLarge(MAX_RECORD_BYTES))
    );
    let mut b = rec.body.clone();
    b.addrs.truncate(300);
    let rec = Record::sign(b, identity().signing_key());
    assert_eq!(Record::from_bytes(&rec.to_bytes()).unwrap(), rec);
}

#[test]
fn long_texts_read_back() {
    for start in ["", "x", "xy"] {
        let mut b = body();
        b.vanity = start.to_string() + &"\u{20ac}".repeat(2500);
        let rec = Record::sign(b, identity().signing_key());
        let bytes = rec.to_bytes();
        assert!(bytes.len() <= MAX_RECORD_BYTES);
        assert_eq!(Record::from_bytes(&bytes).unwrap(), rec);
    }
}

#[test]
fn the_version_is_checked_first() {
    let mut b = body();
    b.v = 2;
    let rec = Record::sign(b, identity().signing_key());
    assert!(!rec.signature_valid());
    assert_eq!(
        rec.verify("nothing", 0, 0),
        Err(VerifyError::UnsupportedVersion(2))
    );
}

#[test]
fn stale_records_say_by_how_much() {
    let rec = Record::sign(body(), identity().signing_key());
    let keyid = &KEYID[..26];
    assert_eq!(rec.verify(keyid, 1_900_000_300, 300), Ok(()));
    assert_eq!(rec.verify(keyid, 1_899_999_700, 300), Ok(()));
    let e = rec.verify(keyid, 1_900_000_301, 300).unwrap_err();
    assert_eq!(
        e,
        VerifyError::StaleTimestamp {
            ts: 1_900_000_000,
            now: 1_900_000_301,
            skew: 300
        }
    );
}

#[test]
fn bytes_that_are_no_key_verify_nothing() {
    let mut rec = Record::sign(body(), identity().signing_key());
    rec.body.pubkey = [0; 32];
    rec.body.pubkey[0] = 2;
    assert!(!rec.signature_valid());
    assert_eq!(rec.verify("a", 0, 0), Err(VerifyError::BadSignature));
}

#[test]
fn junk_in_any_place_does_not_change_the_selection() {
    let good = record_bytes();
    let keyid = &KEYID[..16];
    let now = 1_900_000_000;
    let alone = select_verified(&[good.clone()], keyid, now, 300).unwrap();
    for place in 0..=1 {
        let mut candidates = vec![good.clone()];
        candidates.insert(place, vec![0xff; 9000]);
        candidates.insert(place, b"junk".to_vec());
        assert_eq!(
            select_verified(&candidates, keyid, now, 300).unwrap(),
            alone
        );
    }
    assert!(select_verified(&[], keyid, now, 300).is_none());
}

#[test]
fn of_equally_new_records_the_last_is_taken() {
    let id = identity();
    let mut b = body();
    b.vanity = "first".to_string();
    let first = Record::sign(b.clone(), id.signing_key());
    b.vanity = "second".to_string();
    let second = Record::sign(b, id.signing_key());
    let chosen = select_verified(
        &[first.to_bytes(), second.to_bytes()],
        &KEYID[..16],
        1_900_000_000,
        300,
    );
    assert_eq!(chosen, Some(second));
}

#[test]
fn verify_errors_have_words() {
    assert_eq!(
        VerifyError::TooLarge(8192).message(),
        "record exceeds maximum size 8192 bytes"
    );
    assert_eq!(
        VerifyError::Malformed("x".to_string()).message(),
        "record failed to deserialize: x"
    );
    assert_eq!(
        VerifyError::UnsupportedVersion(9).message(),
        "unsupported record version 9"
    );
    assert_eq!(
        VerifyError::BadSignature.message(),
        "ed25519 signature did not verify"
    );
    assert_eq!(
        VerifyError::KeyidMismatch.message(),
        "keyid does not match SHA-256(pubkey) prefix"
    );
    assert_eq!(
        VerifyError::StaleTimestamp { ts: 1, now: 20, skew: 3 }.message(),
        "record timestamp 1 outside allowed skew of now 20 (\u{b1}3s)"
    );
}
